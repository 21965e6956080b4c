//! The three surface materials, and what each decides when a ray arrives.
//!
//! Directions and probabilities come out of rounding arithmetic and random
//! draws, which the caller performs; the functions here decide what becomes
//! of the ray once those numbers are known.
use crate::scalar::{Scalar, ONE_BITS};
use crate::vec3::{Ray, Vec3};
use vstd::prelude::*;

verus! {

/// The pattern of `0.5`.
pub const HALF_BITS: u32 = 0x3f00_0000;

/// A matte surface.
#[derive(Clone, Copy, Debug, PartialEq, Eq, Structural)]
pub struct Diffuse {
    pub albedo: Vec3,
}

/// A mirror-like surface; `fuziness` lies in `[0, 1]`.
#[derive(Clone, Copy, Debug, PartialEq, Eq, Structural)]
pub struct Metal {
    pub albedo: Vec3,
    pub fuziness: Scalar,
}

/// A transparent surface. It absorbs nothing: its albedo is `(1, 1, 1)`.
#[derive(Clone, Copy, Debug, PartialEq, Eq, Structural)]
pub struct Dielectric {
    pub refractive_index: Scalar,
}

/// Any of the three materials.
#[derive(Clone, Copy, Debug, PartialEq, Eq, Structural)]
pub enum Material {
    Dielectric(Dielectric),
    Diffuse(Diffuse),
    Metal(Metal),
}

/// What a dielectric does with a ray.
#[derive(Clone, Copy, Debug, PartialEq, Eq, Structural)]
pub enum Bounce {
    Reflect,
    Refract,
}

/// The colour whose three components hold the same pattern.
pub open spec fn grey(bits: u32) -> Vec3 {
    Vec3 { x: Scalar { bits }, y: Scalar { bits }, z: Scalar { bits } }
}

/// A fuzziness brought into `[0, 1]`: a NaN and everything below zero become
/// zero, everything above one becomes one.
pub open spec fn clamp_unit(f: Scalar) -> Scalar {
    (Scalar { bits: ONE_BITS }).min_spec((Scalar { bits: 0 }).max_spec(f))
}

impl Diffuse {
    pub fn new(albedo: Vec3) -> (d: Diffuse)
        ensures
            d.albedo == albedo,
    {
        Diffuse { albedo }
    }

    pub fn albedo(&self) -> (a: Vec3)
        ensures
            a == self.albedo,
    {
        self.albedo
    }

    /// A diffuse surface scatters every ray: the new ray leaves the hit
    /// point in the direction that the caller has drawn.
    pub fn scatter(&self, point: Vec3, direction: Vec3) -> (out: Option<Ray>)
        ensures
            out == Some(Ray { origin: point, direction }),
    {
        Some(Ray::new(point, direction))
    }
}

impl Default for Diffuse {
    fn default() -> (d: Diffuse)
        ensures
            d.albedo == grey(HALF_BITS),
    {
        let half = Scalar::from_bits(HALF_BITS);
        Diffuse { albedo: Vec3::new(half, half, half) }
    }
}

impl Metal {
    pub fn new(albedo: Vec3, fuziness: Scalar) -> (m: Metal)
        ensures
            m.albedo == albedo,
            m.fuziness == clamp_unit(fuziness),
            (Scalar { bits: 0 }).le_spec(m.fuziness),
            m.fuziness.le_spec(Scalar { bits: ONE_BITS }),
    {
        let fuziness = Scalar::one().min(Scalar::zero().max(fuziness));
        Metal { albedo, fuziness }
    }

    pub fn albedo(&self) -> (a: Vec3)
        ensures
            a == self.albedo,
    {
        self.albedo
    }

    /// A metal scatters only while the perturbed reflection still leaves the
    /// surface: `facing` is its dot product with the normal, and the ray is
    /// absorbed unless that is above zero.
    pub fn scatter(&self, point: Vec3, reflected: Vec3, facing: Scalar) -> (out: Option<Ray>)
        ensures
            out == if (Scalar { bits: 0 }).lt_spec(facing) {
                Some(Ray { origin: point, direction: reflected })
            } else {
                None
            },
    {
        if facing.gt(Scalar::zero()) {
            Some(Ray::new(point, reflected))
        } else {
            None
        }
    }
}

impl Default for Metal {
    fn default() -> (m: Metal)
        ensures
            m.albedo == grey(HALF_BITS),
            m.fuziness.bits == 0,
    {
        let half = Scalar::from_bits(HALF_BITS);
        Metal { albedo: Vec3::new(half, half, half), fuziness: Scalar::zero() }
    }
}

impl Dielectric {
    /// What the surface does: it reflects when refraction is impossible
    /// (`sine_ratio`, the relative index times the sine of the incoming
    /// angle, is above one) or when `draw` falls below the reflectance
    /// `reflect_prob`; otherwise it refracts.
    pub open spec fn bounce_spec(sine_ratio: Scalar, reflect_prob: Scalar, draw: Scalar) -> Bounce {
        if (Scalar { bits: ONE_BITS }).lt_spec(sine_ratio) || draw.lt_spec(reflect_prob) {
            Bounce::Reflect
        } else {
            Bounce::Refract
        }
    }

    pub fn new(refractive_index: Scalar) -> (d: Dielectric)
        ensures
            d.refractive_index == refractive_index,
    {
        Dielectric { refractive_index }
    }

    pub fn albedo(&self) -> (a: Vec3)
        ensures
            a == grey(ONE_BITS),
    {
        let one = Scalar::one();
        Vec3::new(one, one, one)
    }

    /// Whether the relative index is the inverse of the refractive index:
    /// it is when the ray enters through the front face.
    pub fn inverts_index(front_face: bool) -> (inverted: bool)
        ensures
            inverted == front_face,
    {
        front_face
    }

    pub fn bounce(sine_ratio: Scalar, reflect_prob: Scalar, draw: Scalar) -> (b: Bounce)
        ensures
            b == Self::bounce_spec(sine_ratio, reflect_prob, draw),
    {
        if sine_ratio.gt(Scalar::one()) || draw.lt(reflect_prob) {
            Bounce::Reflect
        } else {
            Bounce::Refract
        }
    }

    /// A dielectric scatters every ray, along the direction that belongs to
    /// its decision.
    pub fn scatter(
        &self,
        point: Vec3,
        sine_ratio: Scalar,
        reflect_prob: Scalar,
        draw: Scalar,
        reflected: Vec3,
        refracted: Vec3,
    ) -> (out: Option<Ray>)
        ensures
            out == Some(
                Ray {
                    origin: point,
                    direction: if Self::bounce_spec(sine_ratio, reflect_prob, draw)
                        == Bounce::Reflect {
                        reflected
                    } else {
                        refracted
                    },
                },
            ),
    {
        match Self::bounce(sine_ratio, reflect_prob, draw) {
            Bounce::Reflect => Some(Ray::new(point, reflected)),
            Bounce::Refract => Some(Ray::new(point, refracted)),
        }
    }

    /// With a reflectance of zero, a ray that can refract is transmitted
    /// whatever non-negative number is drawn.
    pub proof fn lemma_zero_reflectance_transmits(
        sine_ratio: Scalar,
        reflect_prob: Scalar,
        draw: Scalar,
    )
        requires
            reflect_prob.key() == 0,
            !(Scalar { bits: ONE_BITS }).lt_spec(sine_ratio),
            draw.nan() || draw.key() >= 0,
        ensures
            Self::bounce_spec(sine_ratio, reflect_prob, draw) == Bounce::Refract,
    {
    }
}

impl Default for Dielectric {
    fn default() -> (d: Dielectric)
        ensures
            d.refractive_index.bits == HALF_BITS,
    {
        Dielectric { refractive_index: Scalar::from_bits(HALF_BITS) }
    }
}

impl Material {
    /// The colour by which the material attenuates scattered light.
    pub open spec fn albedo_spec(self) -> Vec3 {
        match self {
            Material::Dielectric(_) => grey(ONE_BITS),
            Material::Diffuse(d) => d.albedo,
            Material::Metal(m) => m.albedo,
        }
    }

    pub fn albedo(&self) -> (a: Vec3)
        ensures
            a == self.albedo_spec(),
    {
        match self {
            Material::Dielectric(d) => d.albedo(),
            Material::Diffuse(d) => d.albedo(),
            Material::Metal(m) => m.albedo(),
        }
    }
}

} // verus!
