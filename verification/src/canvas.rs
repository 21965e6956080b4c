//! The accumulation canvas: a grid of colour samples with a count of the
//! layers that were added into it.
//!
//! The canvas stores and moves samples. Adding two samples, dividing one by
//! a count and taking a square root round their results; those operations
//! are handed in by the caller, and the contracts say of each new sample
//! that it is what the operation returned for the old one.
use crate::export::{quantize, quantize_spec, write_rgba, RGBPixel};
use crate::export::{buffer_bytes, rgba_spec};
use crate::scalar::Scalar;
use crate::vec3::Vec3;
use vstd::prelude::*;

verus! {

/// A three-dimensional array of `ndarray`, holding bit patterns.
#[verifier::external_body]
#[derive(Debug)]
pub struct Grid {
    cells: ndarray::Array3<u32>,
}

/// The elements of the array in its logical order: the last axis runs
/// fastest.
pub uninterp spec fn grid_cells(grid: Grid) -> Seq<u32>;

/// The lengths of the three axes of the array.
pub uninterp spec fn grid_shape(grid: Grid) -> (nat, nat, nat);

/// A length, or 1 in place of 0.
pub open spec fn at_least_one(n: int) -> int {
    if n == 0 {
        1
    } else {
        n
    }
}

/// The place of the element `[j, i, c]` in the logical order of an array
/// whose second axis has length `width` and whose third has length 3.
pub open spec fn offset(width: int, j: int, i: int, c: int) -> int {
    (j * width + i) * 3 + c
}

/// `ndarray::ArrayBase::zeros` on the shape `(height, width, 3)`: an array of
/// that shape whose elements are all zero. It panics when the product of the
/// non-zero axis lengths overflows, which the bound excludes.
#[verifier::external_body]
fn grid_zeros(height: usize, width: usize) -> (grid: Grid)
    requires
        at_least_one(height as int) * at_least_one(width as int) * 12 <= isize::MAX,
    ensures
        grid_shape(grid) == (height as nat, width as nat, 3nat),
        grid_cells(grid) == Seq::new((height * width * 3) as nat, |k: int| 0u32),
{
    Grid { cells: ndarray::Array3::zeros((height, width, 3)) }
}

/// Indexing an array of `ndarray` by `[j, i, c]`: the element at that place.
/// It panics on an index out of bounds, which the bounds exclude.
#[verifier::external_body]
fn grid_get(grid: &Grid, j: usize, i: usize, c: usize) -> (bits: u32)
    requires
        j < grid_shape(*grid).0,
        i < grid_shape(*grid).1,
        c < grid_shape(*grid).2,
    ensures
        bits == grid_cells(*grid)[(j * grid_shape(*grid).1 + i) * grid_shape(*grid).2 + c],
{
    grid.cells[[j, i, c]]
}

/// Assigning to an array of `ndarray` at `[j, i, c]`: that element changes
/// and no other, and the shape stays. It panics on an index out of bounds,
/// which the bounds exclude.
#[verifier::external_body]
fn grid_set(grid: &mut Grid, j: usize, i: usize, c: usize, bits: u32)
    requires
        j < grid_shape(*old(grid)).0,
        i < grid_shape(*old(grid)).1,
        c < grid_shape(*old(grid)).2,
    ensures
        grid_shape(*final(grid)) == grid_shape(*old(grid)),
        grid_cells(*final(grid)) == grid_cells(*old(grid)).update(
            (j * grid_shape(*old(grid)).1 + i) * grid_shape(*old(grid)).2 + c,
            bits,
        ),
{
    grid.cells[[j, i, c]] = bits;
}

/// `Clone::clone` of an array of `ndarray`: an array of the same shape with
/// the same elements.
#[verifier::external_body]
fn grid_clone(grid: &Grid) -> (copy: Grid)
    ensures
        grid_shape(copy) == grid_shape(*grid),
        grid_cells(copy) == grid_cells(*grid),
{
    Grid { cells: grid.cells.clone() }
}

/// The place of `[j, i, c]` lies inside an array of `height * width * 3`
/// elements, and the next place follows it.
pub proof fn lemma_offset(height: int, width: int, j: int, i: int, c: int)
    requires
        0 <= j < height,
        0 <= i < width,
        0 <= c < 3,
    ensures
        0 <= offset(width, j, i, c) < height * width * 3,
        offset(width, j, i, c) == offset(width, j, i, 0) + c,
        offset(width, j, i, 0) + 3 == offset(width, j, i + 1, 0),
        offset(width, j, width, 0) == offset(width, j + 1, 0, 0),
        offset(width, 0, 0, 0) == 0,
        offset(width, height, 0, 0) == height * width * 3,
        offset(width, j, i, 0) == 3 * (j * width + i),
        0 <= j * width + i < height * width,
{
    assert((j * width + i) * 3 + 3 <= height * width * 3) by (nonlinear_arith)
        requires
            0 <= j < height,
            0 <= i < width,
    ;
    assert(0 <= j * width) by (nonlinear_arith)
        requires
            0 <= j,
            0 <= width,
    ;
    assert((j * width + width) * 3 == ((j + 1) * width) * 3) by (nonlinear_arith);
    assert(j * width + i < height * width) by (nonlinear_arith)
        requires
            0 <= j < height,
            0 <= i < width,
    ;
}

/// The place after the last column of a row is the first place of the next
/// row.
pub proof fn lemma_row_end(width: int, j: int)
    ensures
        offset(width, j, width, 0) == offset(width, j + 1, 0, 0),
{
    assert((j * width + width) * 3 == ((j + 1) * width + 0) * 3) by (nonlinear_arith);
}

/// Different places of a row-major array have different offsets.
pub proof fn lemma_offset_injective(width: int, j1: int, i1: int, c1: int, j2: int, i2: int, c2: int)
    requires
        0 <= i1 < width,
        0 <= i2 < width,
        0 <= c1 < 3,
        0 <= c2 < 3,
        0 <= j1,
        0 <= j2,
        offset(width, j1, i1, c1) == offset(width, j2, i2, c2),
    ensures
        j1 == j2 && i1 == i2 && c1 == c2,
{
    let place1 = j1 * width + i1;
    let place2 = j2 * width + i2;
    assert(place1 == place2 && c1 == c2);
    if j1 < j2 {
        assert((j1 + 1) * width <= j2 * width) by (nonlinear_arith)
            requires
                j1 + 1 <= j2,
                0 <= width,
        ;
        assert((j1 + 1) * width == j1 * width + width) by (nonlinear_arith);
    } else if j2 < j1 {
        assert((j2 + 1) * width <= j1 * width) by (nonlinear_arith)
            requires
                j2 + 1 <= j1,
                0 <= width,
        ;
        assert((j2 + 1) * width == j2 * width + width) by (nonlinear_arith);
    }
}

/// A canvas of `height` rows and `width` columns of colour samples.
#[derive(Debug)]
pub struct Canvas {
    height: usize,
    width: usize,
    data: Grid,
    layers: usize,
}

impl Canvas {
    /// The array has one row of the array for each row of the canvas, one
    /// column for each column, and three channels.
    pub closed spec fn grid_ok(&self) -> bool {
        grid_shape(self.data) == (self.height as nat, self.width as nat, 3nat)
    }

    /// The number of rows.
    pub closed spec fn height_spec(&self) -> nat {
        self.height as nat
    }

    /// The number of columns.
    pub closed spec fn width_spec(&self) -> nat {
        self.width as nat
    }

    /// The number of layers that were added into the canvas.
    pub closed spec fn layers_spec(&self) -> nat {
        self.layers as nat
    }

    /// The samples, row by row; each pixel holds red, green and blue.
    pub closed spec fn cells(&self) -> Seq<Scalar> {
        Seq::new(
            grid_cells(self.data).len(),
            |k: int| Scalar { bits: grid_cells(self.data)[k] },
        )
    }

    /// What every canvas satisfies: it holds three samples for each pixel.
    pub open spec fn wf(&self) -> bool {
        self.grid_ok() && self.cells().len() == self.height_spec() * self.width_spec() * 3
    }

    /// The canvas has the same size as `other`.
    pub open spec fn same_size(&self, other: &Canvas) -> bool {
        self.height_spec() == other.height_spec() && self.width_spec() == other.width_spec()
    }

    /// The pixels of the canvas, row by row: the level of each sample.
    pub open spec fn pixels_spec(&self) -> Seq<RGBPixel> {
        Seq::new(
            self.height_spec() * self.width_spec(),
            |p: int|
                RGBPixel(
                    quantize_spec(self.cells()[3 * p]) as u8,
                    quantize_spec(self.cells()[3 * p + 1]) as u8,
                    quantize_spec(self.cells()[3 * p + 2]) as u8,
                ),
        )
    }

    /// The colour in column `i` of row `j`.
    pub open spec fn color_at(&self, i: int, j: int) -> Vec3 {
        Vec3 {
            x: self.cells()[offset(self.width_spec() as int, j, i, 0)],
            y: self.cells()[offset(self.width_spec() as int, j, i, 1)],
            z: self.cells()[offset(self.width_spec() as int, j, i, 2)],
        }
    }

    /// Whether a canvas of this size can be made: three samples of four
    /// bytes for each pixel must not take more bytes than the machine can
    /// address. A side of length zero counts as one.
    pub fn fits(height: usize, width: usize) -> (ok: bool)
        ensures
            ok == (at_least_one(height as int) * at_least_one(width as int) * 12 <= isize::MAX),
    {
        let h: usize = if height == 0 {
            1
        } else {
            height
        };
        let w: usize = if width == 0 {
            1
        } else {
            width
        };
        let limit: usize = isize::MAX as usize / 12;
        // h * w <= limit, without computing the product
        let ok = h <= limit / w;
        proof {
            let (hi, wi, li) = (h as int, w as int, limit as int);
            assert(li == isize::MAX as int / 12);
            assert((hi <= li / wi) <==> (hi * wi <= li)) by (nonlinear_arith)
                requires
                    hi >= 1,
                    wi >= 1,
                    li >= 0,
            ;
            assert((hi * wi <= li) <==> (hi * wi * 12 <= isize::MAX as int)) by (nonlinear_arith)
                requires
                    li == isize::MAX as int / 12,
            ;
        }
        ok
    }

    /// A canvas without layers: every sample is positive zero.
    pub fn new_initialized(height: usize, width: usize) -> (cv: Canvas)
        requires
            at_least_one(height as int) * at_least_one(width as int) * 12 <= isize::MAX,
        ensures
            cv.height_spec() == height,
            cv.width_spec() == width,
            cv.layers_spec() == 0,
            cv.cells() == Seq::new((height * width * 3) as nat, |k: int| Scalar { bits: 0 }),
            cv.wf(),
    {
        let data = grid_zeros(height, width);
        let cv = Canvas { height, width, data, layers: 0 };
        proof {
            assert(cv.cells() =~= Seq::new(
                (height * width * 3) as nat,
                |k: int| Scalar { bits: 0 },
            ));
        }
        cv
    }

    pub fn height(&self) -> (h: usize)
        ensures
            h == self.height_spec(),
    {
        self.height
    }

    pub fn width(&self) -> (w: usize)
        ensures
            w == self.width_spec(),
    {
        self.width
    }

    pub fn layers(&self) -> (n: usize)
        ensures
            n == self.layers_spec(),
    {
        self.layers
    }

    /// Width and height, in that order.
    pub fn get_dim(&self) -> (dim: (usize, usize))
        ensures
            dim.0 == self.width_spec(),
            dim.1 == self.height_spec(),
    {
        (self.width, self.height)
    }

    /// The sample of channel `c` in column `i` of row `j`.
    pub fn sample(&self, i: usize, j: usize, c: usize) -> (s: Scalar)
        requires
            self.wf(),
            i < self.width_spec(),
            j < self.height_spec(),
            c < 3,
        ensures
            s == self.cells()[offset(self.width_spec() as int, j as int, i as int, c as int)],
    {
        proof {
            lemma_offset(self.height as int, self.width as int, j as int, i as int, c as int);
        }
        Scalar::from_bits(grid_get(&self.data, j, i, c))
    }

    /// Writes a colour into column `i` of row `j`. A canvas without layers
    /// has one afterwards.
    pub fn set_pixel(&mut self, i: usize, j: usize, color: Vec3)
        requires
            old(self).wf(),
            i < old(self).width_spec(),
            j < old(self).height_spec(),
        ensures
            final(self).same_size(old(self)),
            final(self).wf(),
            final(self).layers_spec() == if old(self).layers_spec() == 0 {
                1
            } else {
                old(self).layers_spec()
            },
            final(self).cells() == old(self).cells().update(
                offset(old(self).width_spec() as int, j as int, i as int, 0),
                color.x,
            ).update(
                offset(old(self).width_spec() as int, j as int, i as int, 1),
                color.y,
            ).update(offset(old(self).width_spec() as int, j as int, i as int, 2), color.z),
            final(self).color_at(i as int, j as int) == color,
            forall|i2: int, j2: int|
                0 <= i2 < old(self).width_spec() && 0 <= j2 < old(self).height_spec() && (i2 != i
                    || j2 != j) ==> #[trigger] final(self).color_at(i2, j2) == old(self).color_at(
                    i2,
                    j2,
                ),
    {
        proof {
            lemma_offset(self.height as int, self.width as int, j as int, i as int, 0);
            lemma_offset(self.height as int, self.width as int, j as int, i as int, 1);
            lemma_offset(self.height as int, self.width as int, j as int, i as int, 2);
        }
        if self.layers == 0 {
            self.layers = 1;
        }
        grid_set(&mut self.data, j, i, 0, color.x.to_bits());
        grid_set(&mut self.data, j, i, 1, color.y.to_bits());
        grid_set(&mut self.data, j, i, 2, color.z.to_bits());
        proof {
            assert(final(self).cells() =~= old(self).cells().update(
                offset(old(self).width_spec() as int, j as int, i as int, 0),
                color.x,
            ).update(
                offset(old(self).width_spec() as int, j as int, i as int, 1),
                color.y,
            ).update(offset(old(self).width_spec() as int, j as int, i as int, 2), color.z));
            let w = old(self).width_spec() as int;
            assert forall|i2: int, j2: int|
                0 <= i2 < old(self).width_spec() && 0 <= j2 < old(self).height_spec() && (i2 != i
                    || j2 != j) implies #[trigger] final(self).color_at(i2, j2) == old(
                self,
            ).color_at(i2, j2) by {
                lemma_offset(old(self).height_spec() as int, w, j2, i2, 0);
                lemma_offset(old(self).height_spec() as int, w, j2, i2, 1);
                lemma_offset(old(self).height_spec() as int, w, j2, i2, 2);
                assert forall|c: int, d: int| 0 <= c < 3 && 0 <= d < 3 implies offset(w, j2, i2, c)
                    != offset(w, j as int, i as int, d) by {
                    if offset(w, j2, i2, c) == offset(w, j as int, i as int, d) {
                        lemma_offset_injective(w, j2, i2, c, j as int, i as int, d);
                    }
                }
            }
        }
    }

    /// Size, layers and samples are those of `other`.
    pub open spec fn same_as(&self, other: &Canvas) -> bool {
        &&& self.same_size(other)
        &&& self.layers_spec() == other.layers_spec()
        &&& self.cells() == other.cells()
    }

    /// `after` is `before` with every sample replaced by what `f` returned
    /// for it.
    pub open spec fn mapped_from<F: Fn(Scalar) -> Scalar>(
        before: &Canvas,
        after: &Canvas,
        f: &F,
    ) -> bool {
        &&& after.same_size(before)
        &&& after.cells().len() == before.cells().len()
        &&& forall|k: int|
            0 <= k < before.cells().len() ==> call_ensures(
                f,
                (before.cells()[k],),
                #[trigger] after.cells()[k],
            )
    }

    /// `after` is what `normalize` makes of `before`: a canvas of more than
    /// one layer has every sample divided by the number of layers and
    /// counts as one layer; any other canvas stays as it is.
    pub open spec fn normalized_from<F: Fn(Scalar, usize) -> Scalar>(
        before: &Canvas,
        after: &Canvas,
        divide: &F,
    ) -> bool {
        if before.layers_spec() > 1 {
            &&& after.same_size(before)
            &&& after.layers_spec() == 1
            &&& after.cells().len() == before.cells().len()
            &&& forall|k: int|
                0 <= k < before.cells().len() ==> call_ensures(
                    divide,
                    (before.cells()[k], before.layers_spec() as usize),
                    #[trigger] after.cells()[k],
                )
        } else {
            after.same_as(before)
        }
    }

    /// `out` is the sum of `a` and `b`: sample by sample what `sum`
    /// returned, and the layers of both.
    pub open spec fn merged_from<F: Fn(Scalar, Scalar) -> Scalar>(
        a: &Canvas,
        b: &Canvas,
        out: &Canvas,
        sum: &F,
    ) -> bool {
        &&& out.same_size(a)
        &&& out.layers_spec() == a.layers_spec() + b.layers_spec()
        &&& out.cells().len() == a.cells().len()
        &&& forall|k: int|
            0 <= k < a.cells().len() ==> call_ensures(
                sum,
                (a.cells()[k], b.cells()[k]),
                #[trigger] out.cells()[k],
            )
    }

    fn set_sample(&mut self, i: usize, j: usize, c: usize, value: Scalar)
        requires
            old(self).wf(),
            i < old(self).width_spec(),
            j < old(self).height_spec(),
            c < 3,
        ensures
            final(self).wf(),
            final(self).same_size(old(self)),
            final(self).layers_spec() == old(self).layers_spec(),
            final(self).cells() == old(self).cells().update(
                offset(old(self).width_spec() as int, j as int, i as int, c as int),
                value,
            ),
    {
        proof {
            lemma_offset(self.height as int, self.width as int, j as int, i as int, c as int);
        }
        grid_set(&mut self.data, j, i, c, value.to_bits());
        proof {
            assert(final(self).cells() =~= old(self).cells().update(
                offset(old(self).width_spec() as int, j as int, i as int, c as int),
                value,
            ));
        }
    }

    /// Replaces every sample by what `f` returns for it.
    fn transform<F: Fn(Scalar) -> Scalar>(&mut self, f: &F)
        requires
            old(self).wf(),
            forall|x: Scalar| call_requires(f, (x,)),
        ensures
            final(self).wf(),
            final(self).layers_spec() == old(self).layers_spec(),
            Self::mapped_from(old(self), final(self), f),
    {
        let height = self.height;
        let width = self.width;
        let ghost start = self.cells();
        let mut j: usize = 0;
        while j < height
            invariant
                j <= height,
                self.wf(),
                self.same_size(old(self)),
                height == self.height_spec(),
                width == self.width_spec(),
                self.layers_spec() == old(self).layers_spec(),
                start == old(self).cells(),
                self.cells().len() == start.len(),
                forall|x: Scalar| call_requires(f, (x,)),
                forall|k: int|
                    0 <= k < offset(width as int, j as int, 0, 0) ==> call_ensures(
                        f,
                        (start[k],),
                        #[trigger] self.cells()[k],
                    ),
                forall|k: int|
                    offset(width as int, j as int, 0, 0) <= k < start.len() ==> start[k]
                        == #[trigger] self.cells()[k],
            decreases height - j,
        {
            let mut i: usize = 0;
            while i < width
                invariant
                    j < height,
                    i <= width,
                    self.wf(),
                    self.same_size(old(self)),
                    height == self.height_spec(),
                    width == self.width_spec(),
                    self.layers_spec() == old(self).layers_spec(),
                    start == old(self).cells(),
                    self.cells().len() == start.len(),
                    forall|x: Scalar| call_requires(f, (x,)),
                    forall|k: int|
                        0 <= k < offset(width as int, j as int, i as int, 0) ==> call_ensures(
                            f,
                            (start[k],),
                            #[trigger] self.cells()[k],
                        ),
                    forall|k: int|
                        offset(width as int, j as int, i as int, 0) <= k < start.len() ==> start[k]
                            == #[trigger] self.cells()[k],
                decreases width - i,
            {
                proof {
                    lemma_offset(height as int, width as int, j as int, i as int, 0);
                    lemma_offset(height as int, width as int, j as int, i as int, 1);
                    lemma_offset(height as int, width as int, j as int, i as int, 2);
                }
                let x0 = self.sample(i, j, 0);
                let x1 = self.sample(i, j, 1);
                let x2 = self.sample(i, j, 2);
                let y0 = f(x0);
                let y1 = f(x1);
                let y2 = f(x2);
                self.set_sample(i, j, 0, y0);
                self.set_sample(i, j, 1, y1);
                self.set_sample(i, j, 2, y2);
                i = i + 1;
            }
            proof {
                lemma_row_end(width as int, j as int);
            }
            j = j + 1;
        }
        proof {
            assert(offset(width as int, height as int, 0, 0) == height * width * 3)
                by (nonlinear_arith);
        }
    }

    /// Replaces every sample by what `f` returns for it and the sample of
    /// `other` at the same place.
    fn combine<F: Fn(Scalar, Scalar) -> Scalar>(&mut self, other: &Canvas, f: &F)
        requires
            old(self).wf(),
            other.wf(),
            old(self).same_size(other),
            forall|x: Scalar, y: Scalar| call_requires(f, (x, y)),
        ensures
            final(self).wf(),
            final(self).same_size(old(self)),
            final(self).layers_spec() == old(self).layers_spec(),
            final(self).cells().len() == old(self).cells().len(),
            forall|k: int|
                0 <= k < old(self).cells().len() ==> call_ensures(
                    f,
                    (old(self).cells()[k], other.cells()[k]),
                    #[trigger] final(self).cells()[k],
                ),
    {
        let height = self.height;
        let width = self.width;
        let ghost start = self.cells();
        let mut j: usize = 0;
        while j < height
            invariant
                j <= height,
                self.wf(),
                other.wf(),
                self.same_size(old(self)),
                self.same_size(other),
                height == self.height_spec(),
                width == self.width_spec(),
                self.layers_spec() == old(self).layers_spec(),
                start == old(self).cells(),
                self.cells().len() == start.len(),
                forall|x: Scalar, y: Scalar| call_requires(f, (x, y)),
                forall|k: int|
                    0 <= k < offset(width as int, j as int, 0, 0) ==> call_ensures(
                        f,
                        (start[k], other.cells()[k]),
                        #[trigger] self.cells()[k],
                    ),
                forall|k: int|
                    offset(width as int, j as int, 0, 0) <= k < start.len() ==> start[k]
                        == #[trigger] self.cells()[k],
            decreases height - j,
        {
            let mut i: usize = 0;
            while i < width
                invariant
                    j < height,
                    i <= width,
                    self.wf(),
                    other.wf(),
                    self.same_size(old(self)),
                    self.same_size(other),
                    height == self.height_spec(),
                    width == self.width_spec(),
                    self.layers_spec() == old(self).layers_spec(),
                    start == old(self).cells(),
                    self.cells().len() == start.len(),
                    forall|x: Scalar, y: Scalar| call_requires(f, (x, y)),
                    forall|k: int|
                        0 <= k < offset(width as int, j as int, i as int, 0) ==> call_ensures(
                            f,
                            (start[k], other.cells()[k]),
                            #[trigger] self.cells()[k],
                        ),
                    forall|k: int|
                        offset(width as int, j as int, i as int, 0) <= k < start.len() ==> start[k]
                            == #[trigger] self.cells()[k],
                decreases width - i,
            {
                proof {
                    lemma_offset(height as int, width as int, j as int, i as int, 0);
                    lemma_offset(height as int, width as int, j as int, i as int, 1);
                    lemma_offset(height as int, width as int, j as int, i as int, 2);
                }
                let y0 = f(self.sample(i, j, 0), other.sample(i, j, 0));
                let y1 = f(self.sample(i, j, 1), other.sample(i, j, 1));
                let y2 = f(self.sample(i, j, 2), other.sample(i, j, 2));
                self.set_sample(i, j, 0, y0);
                self.set_sample(i, j, 1, y1);
                self.set_sample(i, j, 2, y2);
                i = i + 1;
            }
            proof {
                lemma_row_end(width as int, j as int);
            }
            j = j + 1;
        }
        proof {
            assert(offset(width as int, height as int, 0, 0) == height * width * 3)
                by (nonlinear_arith);
        }
    }

    /// Gamma correction: every sample is replaced by what `root`, the
    /// square root, returns for it.
    pub fn gamma_correction<F: Fn(Scalar) -> Scalar>(&mut self, root: &F)
        requires
            old(self).wf(),
            forall|x: Scalar| call_requires(root, (x,)),
        ensures
            final(self).wf(),
            final(self).layers_spec() == old(self).layers_spec(),
            Self::mapped_from(old(self), final(self), root),
    {
        self.transform(root);
    }

    /// Turns a sum of layers into their average: every sample is replaced
    /// by what `divide` returns for it and the number of layers, and the
    /// canvas counts as one layer from then on. A canvas of at most one
    /// layer is left as it is.
    pub fn normalize<F: Fn(Scalar, usize) -> Scalar>(&mut self, divide: &F)
        requires
            old(self).wf(),
            forall|x: Scalar, n: usize| call_requires(divide, (x, n)),
        ensures
            final(self).wf(),
            final(self).layers_spec() <= 1,
            Self::normalized_from(old(self), final(self), divide),
    {
        if self.layers > 1 {
            let layers = self.layers;
            let per_sample = |x: Scalar| -> (y: Scalar)
                requires
                    call_requires(divide, (x, layers)),
                ensures
                    call_ensures(divide, (x, layers), y),
                { divide(x, layers) };
            self.transform(&per_sample);
            self.layers = 1;
        }
    }

    /// The sum of two canvases of one size.
    pub fn add<F: Fn(Scalar, Scalar) -> Scalar>(self, other: Self, sum: &F) -> (out: Self)
        requires
            self.wf(),
            other.wf(),
            self.same_size(&other),
            self.layers_spec() + other.layers_spec() <= usize::MAX,
            forall|x: Scalar, y: Scalar| call_requires(sum, (x, y)),
        ensures
            out.wf(),
            Self::merged_from(&self, &other, &out, sum),
    {
        let mut out = self;
        out.combine(&other, sum);
        out.layers = out.layers + other.layers;
        out
    }

    /// Adds a canvas of the same size into this one.
    pub fn add_assign<F: Fn(Scalar, Scalar) -> Scalar>(&mut self, other: Self, sum: &F)
        requires
            old(self).wf(),
            other.wf(),
            old(self).same_size(&other),
            old(self).layers_spec() + other.layers_spec() <= usize::MAX,
            forall|x: Scalar, y: Scalar| call_requires(sum, (x, y)),
        ensures
            final(self).wf(),
            Self::merged_from(old(self), &other, final(self), sum),
    {
        self.combine(&other, sum);
        self.layers = self.layers + other.layers;
    }

    /// The pixels of the canvas, row by row from the top.
    pub fn get_pixels(&self) -> (pixels: Vec<RGBPixel>)
        requires
            self.wf(),
        ensures
            pixels@ == self.pixels_spec(),
    {
        let height = self.height;
        let width = self.width;
        let mut pixels: Vec<RGBPixel> = Vec::new();
        let mut j: usize = 0;
        while j < height
            invariant
                j <= height,
                self.wf(),
                height == self.height_spec(),
                width == self.width_spec(),
                pixels@.len() == j * width,
                forall|p: int| 0 <= p < pixels@.len() ==> pixels@[p] == self.pixels_spec()[p],
            decreases height - j,
        {
            let mut i: usize = 0;
            while i < width
                invariant
                    j < height,
                    i <= width,
                    self.wf(),
                    height == self.height_spec(),
                    width == self.width_spec(),
                    pixels@.len() == j * width + i,
                    forall|p: int| 0 <= p < pixels@.len() ==> pixels@[p] == self.pixels_spec()[p],
                decreases width - i,
            {
                proof {
                    lemma_offset(height as int, width as int, j as int, i as int, 0);
                    lemma_offset(height as int, width as int, j as int, i as int, 1);
                    lemma_offset(height as int, width as int, j as int, i as int, 2);
                }
                let red = quantize(self.sample(i, j, 0));
                let green = quantize(self.sample(i, j, 1));
                let blue = quantize(self.sample(i, j, 2));
                pixels.push(RGBPixel(red, green, blue));
                i = i + 1;
            }
            proof {
                assert(j * width + width == (j + 1) * width) by (nonlinear_arith);
            }
            j = j + 1;
        }
        proof {
            assert(pixels@ =~= self.pixels_spec());
        }
        pixels
    }

    /// Replaces what the buffer holds by the pixels of the canvas in RGBA
    /// order, each with an opaque alpha.
    pub fn write_rgba_to_buffer(&self, buf: &mut bytes::BytesMut)
        requires
            self.wf(),
        ensures
            buffer_bytes(*final(buf)) == rgba_spec(
                self.pixels_spec(),
                self.pixels_spec().len() as int,
            ),
    {
        let pixels = self.get_pixels();
        write_rgba(&pixels, buf);
    }
}

impl Clone for Canvas {
    /// A canvas with the same size, layers and samples.
    fn clone(&self) -> (copy: Canvas)
        ensures
            copy.same_as(self),
            self.wf() ==> copy.wf(),
    {
        let copy = Canvas {
            height: self.height,
            width: self.width,
            data: grid_clone(&self.data),
            layers: self.layers,
        };
        proof {
            assert(copy.cells() =~= self.cells());
        }
        copy
    }
}

/// Normalizing a second time changes nothing.
pub proof fn lemma_normalize_idempotent<F: Fn(Scalar, usize) -> Scalar>(
    start: &Canvas,
    once: &Canvas,
    twice: &Canvas,
    divide: &F,
)
    requires
        Canvas::normalized_from(start, once, divide),
        Canvas::normalized_from(once, twice, divide),
    ensures
        twice.same_as(once),
{
}

/// The sum does not depend on the order of its operands.
pub open spec fn sum_commutes<F: Fn(Scalar, Scalar) -> Scalar>(sum: &F) -> bool {
    forall|x: Scalar, y: Scalar, r1: Scalar, r2: Scalar|
        call_ensures(sum, (x, y), r1) && call_ensures(sum, (y, x), r2) ==> r1 == r2
}

/// The sum of three operands does not depend on how they are grouped.
pub open spec fn sum_associates<F: Fn(Scalar, Scalar) -> Scalar>(sum: &F) -> bool {
    forall|x: Scalar, y: Scalar, z: Scalar, xy: Scalar, yz: Scalar, r1: Scalar, r2: Scalar|
        call_ensures(sum, (x, y), xy) && call_ensures(sum, (xy, z), r1) && call_ensures(
            sum,
            (y, z),
            yz,
        ) && call_ensures(sum, (x, yz), r2) ==> r1 == r2
}

/// Merging two canvases in either order gives the same canvas, for a sum
/// that does not depend on the order of its operands. The number of layers
/// is the same for any sum.
pub proof fn lemma_merge_commutes<F: Fn(Scalar, Scalar) -> Scalar>(
    a: &Canvas,
    b: &Canvas,
    ab: &Canvas,
    ba: &Canvas,
    sum: &F,
)
    requires
        a.wf(),
        b.wf(),
        a.same_size(b),
        Canvas::merged_from(a, b, ab, sum),
        Canvas::merged_from(b, a, ba, sum),
    ensures
        ab.layers_spec() == ba.layers_spec(),
        ab.same_size(ba),
        sum_commutes(sum) ==> ab.same_as(ba),
{
    if sum_commutes(sum) {
        assert(ab.cells() =~= ba.cells()) by {
            assert forall|k: int| 0 <= k < ab.cells().len() implies ab.cells()[k]
                == ba.cells()[k] by {
                assert(call_ensures(sum, (a.cells()[k], b.cells()[k]), ab.cells()[k]));
                assert(call_ensures(sum, (b.cells()[k], a.cells()[k]), ba.cells()[k]));
            }
        }
    }
}

/// Merging three canvases gives the same canvas however they are grouped,
/// for a sum that does not depend on the grouping. The number of layers is
/// the same for any sum.
pub proof fn lemma_merge_associates<F: Fn(Scalar, Scalar) -> Scalar>(
    a: &Canvas,
    b: &Canvas,
    c: &Canvas,
    ab: &Canvas,
    bc: &Canvas,
    left: &Canvas,
    right: &Canvas,
    sum: &F,
)
    requires
        a.wf(),
        b.wf(),
        c.wf(),
        a.same_size(b),
        b.same_size(c),
        Canvas::merged_from(a, b, ab, sum),
        Canvas::merged_from(ab, c, left, sum),
        Canvas::merged_from(b, c, bc, sum),
        Canvas::merged_from(a, bc, right, sum),
    ensures
        left.layers_spec() == right.layers_spec(),
        left.same_size(right),
        sum_associates(sum) ==> left.same_as(right),
{
    if sum_associates(sum) {
        assert(left.cells() =~= right.cells()) by {
            assert forall|k: int| 0 <= k < left.cells().len() implies left.cells()[k]
                == right.cells()[k] by {
                assert(call_ensures(sum, (a.cells()[k], b.cells()[k]), ab.cells()[k]));
                assert(call_ensures(sum, (ab.cells()[k], c.cells()[k]), left.cells()[k]));
                assert(call_ensures(sum, (b.cells()[k], c.cells()[k]), bc.cells()[k]));
                assert(call_ensures(sum, (a.cells()[k], bc.cells()[k]), right.cells()[k]));
            }
        }
    }
}

} // verus!
