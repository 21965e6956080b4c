//! The shapes of a scene.
use crate::material::Material;
use crate::scalar::Scalar;
use crate::vec3::Vec3;
use vstd::prelude::*;

verus! {

/// Something that has a place in space.
pub trait Position {
    /// The place.
    open spec fn position_spec(&self) -> Vec3 {
        arbitrary()
    }

    fn position(&self) -> (p: &Vec3)
        ensures
            *p == self.position_spec(),
    ;
}

/// A sphere with its material.
#[derive(Clone, Copy, Debug, PartialEq, Eq, Structural)]
pub struct Sphere {
    pub center: Vec3,
    pub radius: Scalar,
    pub material: Material,
}

impl Sphere {
    /// Which root of the intersection equation is the hit. There is none
    /// unless the discriminant is above zero. Then it is the nearer root if
    /// that lies strictly inside `(t_min, t_max)`, else the farther root if
    /// that does, else none.
    pub open spec fn select_root_spec(
        discriminant: Scalar,
        near: Scalar,
        far: Scalar,
        t_min: Scalar,
        t_max: Scalar,
    ) -> Option<Scalar> {
        if !(Scalar { bits: 0 }).lt_spec(discriminant) {
            None
        } else if near.lt_spec(t_max) && t_min.lt_spec(near) {
            Some(near)
        } else if far.lt_spec(t_max) && t_min.lt_spec(far) {
            Some(far)
        } else {
            None
        }
    }

    pub fn new(center: Vec3, radius: Scalar, material: Material) -> (s: Sphere)
        ensures
            s == (Sphere { center, radius, material }),
    {
        Sphere { center, radius, material }
    }

    /// The distance of the hit, chosen among the two roots of the
    /// intersection equation.
    pub fn select_root(
        discriminant: Scalar,
        near: Scalar,
        far: Scalar,
        t_min: Scalar,
        t_max: Scalar,
    ) -> (t: Option<Scalar>)
        ensures
            t == Self::select_root_spec(discriminant, near, far, t_min, t_max),
    {
        if discriminant.gt(Scalar::zero()) {
            if near.lt(t_max) && near.gt(t_min) {
                return Some(near);
            }
            if far.lt(t_max) && far.gt(t_min) {
                return Some(far);
            }
        }
        None
    }

    /// For roots in their order, a shorter interval changes the chosen root
    /// only by cutting it off: the choice on `(t_min, b)` is the choice on
    /// `(t_min, t_max)` if that lies before `b`, and none otherwise.
    pub proof fn lemma_select_root_steady(
        discriminant: Scalar,
        near: Scalar,
        far: Scalar,
        t_min: Scalar,
        t_max: Scalar,
        b: Scalar,
    )
        requires
            near.nan() || far.nan() || near.key() <= far.key(),
            !b.nan(),
            !t_max.nan(),
            b.key() <= t_max.key(),
        ensures
            Self::select_root_spec(discriminant, near, far, t_min, b) == (match Self::select_root_spec(
                discriminant,
                near,
                far,
                t_min,
                t_max,
            ) {
                Some(t) => if t.lt_spec(b) {
                    Some(t)
                } else {
                    None
                },
                None => None,
            }),
    {
    }
}

impl Position for Sphere {
    open spec fn position_spec(&self) -> Vec3 {
        self.center
    }

    fn position(&self) -> (p: &Vec3) {
        &self.center
    }
}

} // verus!
