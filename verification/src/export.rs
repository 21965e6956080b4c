//! From samples to an image: 8-bit pixels, the text of a plain PPM file and
//! the bytes of an RGBA buffer.
use crate::scalar::{Scalar, SIGN_BIT};
use vstd::prelude::*;

verus! {

/// One pixel: red, green and blue.
#[derive(Clone, Copy, Debug, PartialEq, Eq, Structural)]
pub struct RGBPixel(pub u8, pub u8, pub u8);

/// The pattern of the value nearest to `0.999`, the largest sample that is
/// told apart; it and everything above it become 255.
pub const CEILING_BITS: u32 = 0x3f7f_be77;

/// Two to the power `n`.
pub open spec fn pow2(n: nat) -> int
    decreases n,
{
    if n == 0 {
        1
    } else {
        2 * pow2((n - 1) as nat)
    }
}

/// The 24-bit significand of a positive normal pattern.
pub open spec fn significand(bits: u32) -> int {
    0x80_0000 + (bits % 0x80_0000) as int
}

/// The exponent field of a pattern.
pub open spec fn exponent(bits: u32) -> int {
    ((bits % SIGN_BIT) / 0x80_0000) as int
}

/// The 8-bit level of a sample: 256 times the sample, rounded down, after
/// the sample was brought into `[0, 0.999]`. A NaN counts as zero. A
/// positive normal value is `significand * 2^(exponent - 150)`, so 256 times
/// it is the significand divided by `2^(142 - exponent)`.
pub open spec fn quantize_spec(x: Scalar) -> int {
    if x.nan() || x.negative() || x.bits == 0 {
        0
    } else if x.bits >= CEILING_BITS {
        255
    } else if exponent(x.bits) < 119 {
        0
    } else {
        significand(x.bits) / pow2((142 - exponent(x.bits)) as nat)
    }
}

/// The level is the integer part of 256 times the value: it is the one `q`
/// with `q * 2^s <= significand < (q + 1) * 2^s`, where `s` is 142 less the
/// exponent; and it fits eight bits.
pub proof fn lemma_quantize_floor(x: Scalar)
    requires
        !x.nan(),
        !x.negative(),
        x.bits < CEILING_BITS,
        exponent(x.bits) >= 119,
    ensures
        ({
            let q = quantize_spec(x);
            let unit = pow2((142 - exponent(x.bits)) as nat);
            &&& q * unit <= significand(x.bits) < (q + 1) * unit
            &&& 1 <= q <= 255
        }),
{
    let e = exponent(x.bits);
    assert(e <= 126);
    let s = (142 - e) as nat;
    let unit = pow2(s);
    lemma_pow2_values();
    assert(unit >= 65536) by {
        lemma_pow2_grows(16, s);
    }
    assert(unit <= 0x80_0000) by {
        lemma_pow2_grows(s, 23);
    }
    let sig = significand(x.bits);
    let q = sig / unit;
    assert(q * unit <= sig < (q + 1) * unit && 1 <= q <= 255) by (nonlinear_arith)
        requires
            q == sig / unit,
            65536 <= unit <= 0x80_0000,
            0x80_0000 <= sig < 0x100_0000,
    ;
}

/// Some powers of two.
pub proof fn lemma_pow2_values()
    ensures
        pow2(0) == 1,
        pow2(16) == 65536,
        pow2(23) == 0x80_0000,
{
    reveal_with_fuel(pow2, 24);
}

/// Powers of two grow with the exponent.
pub proof fn lemma_pow2_grows(a: nat, b: nat)
    requires
        a <= b,
    ensures
        0 < pow2(a) <= pow2(b),
    decreases b,
{
    if b == 0 {
    } else if a == b {
        lemma_pow2_grows((a - 1) as nat, (b - 1) as nat);
    } else {
        lemma_pow2_grows(a, (b - 1) as nat);
    }
}

/// The 8-bit level of a sample.
pub fn quantize(x: Scalar) -> (level: u8)
    ensures
        level == quantize_spec(x),
{
    if x.is_nan() || x.bits >= SIGN_BIT || x.bits == 0 {
        return 0;
    }
    if x.bits >= CEILING_BITS {
        return 255;
    }
    let e: u32 = x.bits / 0x80_0000;
    if e < 119 {
        return 0;
    }
    proof {
        lemma_quantize_floor(x);
    }
    let sig: u32 = 0x80_0000 + x.bits % 0x80_0000;
    let mut unit: u32 = 1;
    let mut k: u32 = 0;
    while k < 142 - e
        invariant
            119 <= e <= 126,
            k <= 142 - e,
            unit == pow2(k as nat),
            unit <= 0x80_0000,
        decreases 142 - e - k,
    {
        proof {
            lemma_pow2_values();
            lemma_pow2_grows((k + 1) as nat, 23);
        }
        unit = unit * 2;
        k = k + 1;
    }
    proof {
        lemma_pow2_grows(0, k as nat);
    }
    (sig / unit) as u8
}

/// The character of a decimal digit.
pub open spec fn digit(d: int) -> char {
    if d == 0 {
        '0'
    } else if d == 1 {
        '1'
    } else if d == 2 {
        '2'
    } else if d == 3 {
        '3'
    } else if d == 4 {
        '4'
    } else if d == 5 {
        '5'
    } else if d == 6 {
        '6'
    } else if d == 7 {
        '7'
    } else if d == 8 {
        '8'
    } else {
        '9'
    }
}

/// A number in decimal, without leading zeros.
pub open spec fn decimal(n: nat) -> Seq<char>
    decreases n,
{
    if n < 10 {
        seq![digit(n as int)]
    } else {
        decimal(n / 10).push(digit((n % 10) as int))
    }
}

fn digit_text(d: usize) -> (s: &'static str)
    requires
        d < 10,
    ensures
        s@ == seq![digit(d as int)],
{
    proof {
        reveal_strlit("0");
        reveal_strlit("1");
        reveal_strlit("2");
        reveal_strlit("3");
        reveal_strlit("4");
        reveal_strlit("5");
        reveal_strlit("6");
        reveal_strlit("7");
        reveal_strlit("8");
        reveal_strlit("9");
    }
    let s = if d == 0 {
        "0"
    } else if d == 1 {
        "1"
    } else if d == 2 {
        "2"
    } else if d == 3 {
        "3"
    } else if d == 4 {
        "4"
    } else if d == 5 {
        "5"
    } else if d == 6 {
        "6"
    } else if d == 7 {
        "7"
    } else if d == 8 {
        "8"
    } else {
        "9"
    };
    assert(s@ =~= seq![digit(d as int)]);
    s
}

/// Appends a number in decimal.
pub fn push_decimal(out: &mut String, n: usize)
    ensures
        final(out)@ == old(out)@ + decimal(n as nat),
    decreases n,
{
    if n >= 10 {
        push_decimal(out, n / 10);
    }
    out.append(digit_text(n % 10));
    proof {
        if n >= 10 {
            assert(old(out)@ + decimal((n / 10) as nat) + seq![digit((n % 10) as int)] =~= old(
                out,
            )@ + decimal(n as nat));
        } else {
            assert(old(out)@ + seq![digit(n as int)] =~= old(out)@ + decimal(n as nat));
        }
    }
}

impl RGBPixel {
    /// The pixel as text: the three levels in decimal, a blank between
    /// them.
    pub open spec fn text_spec(self) -> Seq<char> {
        decimal(self.0 as nat) + seq![' '] + decimal(self.1 as nat) + seq![' '] + decimal(
            self.2 as nat,
        )
    }

    /// Appends the pixel as text.
    pub fn push_text(&self, out: &mut String)
        ensures
            final(out)@ == old(out)@ + self.text_spec(),
    {
        proof {
            reveal_strlit(" ");
        }
        push_decimal(out, self.0 as usize);
        out.append(" ");
        push_decimal(out, self.1 as usize);
        out.append(" ");
        push_decimal(out, self.2 as usize);
        proof {
            assert(" "@ =~= seq![' ']);
            assert(final(out)@ =~= old(out)@ + self.text_spec());
        }
    }

    /// The pixel as text, as it stands on a line of a plain PPM file.
    pub fn to_text(&self) -> (s: String)
        ensures
            s@ == self.text_spec(),
    {
        let mut s = String::new();
        self.push_text(&mut s);
        proof {
            assert(Seq::<char>::empty() + self.text_spec() =~= self.text_spec());
        }
        s
    }
}

/// The header of a plain PPM file: the magic number, width and height, and
/// the largest level.
pub open spec fn ppm_header(width: nat, height: nat) -> Seq<char> {
    seq!['P', '3', '\n'] + decimal(width) + seq![' '] + decimal(height) + seq![
        '\n',
        '2',
        '5',
        '5',
        '\n',
    ]
}

/// The lines of the first `n` pixels, one pixel on each.
pub open spec fn ppm_lines(pixels: Seq<RGBPixel>, n: int) -> Seq<char>
    decreases n,
{
    if n <= 0 {
        Seq::empty()
    } else {
        ppm_lines(pixels, n - 1) + pixels[n - 1].text_spec() + seq!['\n']
    }
}

/// The text of a plain PPM file.
pub open spec fn ppm_spec(width: nat, height: nat, pixels: Seq<RGBPixel>) -> Seq<char> {
    ppm_header(width, height) + ppm_lines(pixels, pixels.len() as int)
}

/// The text of the plain PPM file that holds the pixels, row by row.
pub fn ppm_text(width: usize, height: usize, pixels: &Vec<RGBPixel>) -> (text: String)
    ensures
        text@ == ppm_spec(width as nat, height as nat, pixels@),
{
    proof {
        reveal_strlit("P3\n");
        reveal_strlit(" ");
        reveal_strlit("\n255\n");
        reveal_strlit("\n");
    }
    let mut text = String::from_str("P3\n");
    push_decimal(&mut text, width);
    text.append(" ");
    push_decimal(&mut text, height);
    text.append("\n255\n");
    proof {
        assert("P3\n"@ =~= seq!['P', '3', '\n']);
        assert(" "@ =~= seq![' ']);
        assert("\n255\n"@ =~= seq!['\n', '2', '5', '5', '\n']);
        assert("\n"@ =~= seq!['\n']);
        assert(text@ =~= ppm_header(width as nat, height as nat));
    }
    let mut k: usize = 0;
    while k < pixels.len()
        invariant
            k <= pixels@.len(),
            "\n"@ == seq!['\n'],
            text@ == ppm_header(width as nat, height as nat) + ppm_lines(pixels@, k as int),
        decreases pixels@.len() - k,
    {
        let ghost before = text@;
        pixels[k].push_text(&mut text);
        text.append("\n");
        proof {
            assert(text@ =~= ppm_header(width as nat, height as nat) + ppm_lines(
                pixels@,
                k as int + 1,
            ));
        }
        k = k + 1;
    }
    text
}

/// The bytes of the first `n` pixels in an RGBA buffer: the three levels of
/// each pixel, followed by an opaque alpha of 255.
pub open spec fn rgba_spec(pixels: Seq<RGBPixel>, n: int) -> Seq<u8>
    decreases n,
{
    if n <= 0 {
        Seq::empty()
    } else {
        rgba_spec(pixels, n - 1) + seq![pixels[n - 1].0, pixels[n - 1].1, pixels[n - 1].2, 255u8]
    }
}

/// The bytes of the pixels in RGBA order.
pub fn rgba_bytes(pixels: &Vec<RGBPixel>) -> (bytes: Vec<u8>)
    ensures
        bytes@ == rgba_spec(pixels@, pixels@.len() as int),
{
    let mut bytes: Vec<u8> = Vec::new();
    let mut k: usize = 0;
    while k < pixels.len()
        invariant
            k <= pixels@.len(),
            bytes@ == rgba_spec(pixels@, k as int),
        decreases pixels@.len() - k,
    {
        let p = pixels[k];
        let ghost before = bytes@;
        bytes.push(p.0);
        bytes.push(p.1);
        bytes.push(p.2);
        bytes.push(255);
        proof {
            assert(bytes@ =~= before + seq![p.0, p.1, p.2, 255u8]);
        }
        k = k + 1;
    }
    bytes
}

#[verifier::external_type_specification]
#[verifier::external_body]
pub struct ExBytesMut(bytes::BytesMut);

/// The bytes that a buffer holds, in their order.
pub uninterp spec fn buffer_bytes(buf: bytes::BytesMut) -> Seq<u8>;

/// `BytesMut::from_iter` on the bytes of a vector: a buffer that holds
/// exactly those bytes, in their order.
#[verifier::external_body]
fn buffer_from(bytes: Vec<u8>) -> (buf: bytes::BytesMut)
    ensures
        buffer_bytes(buf) == bytes@,
{
    bytes::BytesMut::from_iter(bytes)
}

/// Replaces what the buffer holds by the pixels in RGBA order.
pub fn write_rgba(pixels: &Vec<RGBPixel>, buf: &mut bytes::BytesMut)
    ensures
        buffer_bytes(*final(buf)) == rgba_spec(pixels@, pixels@.len() as int),
{
    *buf = buffer_from(rgba_bytes(pixels));
}

} // verus!
