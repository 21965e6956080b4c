//! Axis-aligned bounding boxes: the union of two boxes and the slab test.
use crate::scalar::Scalar;
use crate::vec3::{Ray, Vec3};
use vstd::prelude::*;

verus! {

/// What one axis contributes to the slab test: the inverse of the ray's
/// direction on that axis, and the parametric distances at which the ray
/// meets the box's lower and upper plane.
#[derive(Clone, Copy, Debug, PartialEq, Eq, Structural)]
pub struct Slab {
    pub inv_d: Scalar,
    pub t0: Scalar,
    pub t1: Scalar,
}

/// The slabs of the three axes.
#[derive(Clone, Copy, Debug, PartialEq, Eq, Structural)]
pub struct Slabs {
    pub x: Slab,
    pub y: Slab,
    pub z: Slab,
}

/// A parametric interval along a ray.
#[derive(Clone, Copy, Debug, PartialEq, Eq, Structural)]
pub struct Interval {
    pub lo: Scalar,
    pub hi: Scalar,
}

impl Slab {
    /// Whether the ray runs against the axis, so that it enters through the
    /// upper plane.
    pub open spec fn reversed(self) -> bool {
        self.inv_d.lt_spec(Scalar { bits: 0 })
    }

    /// The distance at which the ray enters the slab.
    pub open spec fn entry(self) -> Scalar {
        if self.reversed() {
            self.t1
        } else {
            self.t0
        }
    }

    /// The distance at which the ray leaves the slab.
    pub open spec fn exit(self) -> Scalar {
        if self.reversed() {
            self.t0
        } else {
            self.t1
        }
    }

    /// No distance of the slab is a NaN.
    pub open spec fn is_number(self) -> bool {
        !self.t0.nan() && !self.t1.nan()
    }
}

impl Interval {
    /// The interval cut down to the part inside the slab. A NaN distance
    /// cuts nothing off.
    pub open spec fn narrow(self, s: Slab) -> Interval {
        Interval {
            lo: if self.lo.lt_spec(s.entry()) {
                s.entry()
            } else {
                self.lo
            },
            hi: if s.exit().lt_spec(self.hi) {
                s.exit()
            } else {
                self.hi
            },
        }
    }

    /// Whether nothing lies strictly between the two ends.
    pub open spec fn empty(self) -> bool {
        self.hi.le_spec(self.lo)
    }
}

/// The slab test: the interval is narrowed axis by axis, and the ray misses
/// as soon as the interval is empty.
pub open spec fn slabs_overlap(s: Slabs, t_min: Scalar, t_max: Scalar) -> bool {
    let a = (Interval { lo: t_min, hi: t_max }).narrow(s.x);
    let b = a.narrow(s.y);
    let c = b.narrow(s.z);
    !a.empty() && !b.empty() && !c.empty()
}

/// The slab test on the distances of the three axes.
pub fn hit_slabs(s: &Slabs, t_min: Scalar, t_max: Scalar) -> (hit: bool)
    ensures
        hit == slabs_overlap(*s, t_min, t_max),
{
    let mut lo = t_min;
    let mut hi = t_max;
    let mut axis: usize = 0;
    while axis < 3
        invariant
            axis <= 3,
            axis == 0 ==> lo == t_min && hi == t_max,
            axis == 1 ==> (Interval { lo, hi }) == (Interval { lo: t_min, hi: t_max }).narrow(s.x)
                && !(Interval { lo, hi }).empty(),
            axis == 2 ==> (Interval { lo, hi }) == (Interval { lo: t_min, hi: t_max }).narrow(
                s.x,
            ).narrow(s.y) && !(Interval { lo: t_min, hi: t_max }).narrow(s.x).empty() && !(
            Interval { lo, hi }).empty(),
            axis == 3 ==> slabs_overlap(*s, t_min, t_max),
        decreases 3 - axis,
    {
        let slab = if axis == 0 {
            s.x
        } else if axis == 1 {
            s.y
        } else {
            s.z
        };
        let reversed = slab.inv_d.lt(Scalar::zero());
        let entry = if reversed {
            slab.t1
        } else {
            slab.t0
        };
        let exit = if reversed {
            slab.t0
        } else {
            slab.t1
        };
        if lo.lt(entry) {
            lo = entry;
        }
        if exit.lt(hi) {
            hi = exit;
        }
        if hi.le(lo) {
            return false;
        }
        axis = axis + 1;
    }
    true
}

/// The larger of two integers.
pub open spec fn max_int(a: int, b: int) -> int {
    if a >= b {
        a
    } else {
        b
    }
}

/// The smaller of two integers.
pub open spec fn min_int(a: int, b: int) -> int {
    if a <= b {
        a
    } else {
        b
    }
}

impl Slabs {
    /// No distance of the three slabs is a NaN.
    pub open spec fn is_number(self) -> bool {
        self.x.is_number() && self.y.is_number() && self.z.is_number()
    }

    /// Where the ray has entered all three slabs: the latest entry.
    pub open spec fn range_entry(self) -> int {
        max_int(self.x.entry().key(), max_int(self.y.entry().key(), self.z.entry().key()))
    }

    /// Where the ray leaves the first of the three slabs: the earliest exit.
    pub open spec fn range_exit(self) -> int {
        min_int(self.x.exit().key(), min_int(self.y.exit().key(), self.z.exit().key()))
    }
}

/// On numbers the slab test holds exactly when the latest of the entries and
/// `t_min` lies strictly before the earliest of the exits and `t_max`.
pub proof fn lemma_slabs_overlap_on_numbers(s: Slabs, t_min: Scalar, t_max: Scalar)
    requires
        s.is_number(),
        !t_min.nan(),
        !t_max.nan(),
    ensures
        slabs_overlap(s, t_min, t_max) <==> max_int(t_min.key(), s.range_entry()) < min_int(
            t_max.key(),
            s.range_exit(),
        ),
{
}

/// A ray that crosses the box between two distances is reported as a hit on
/// every interval that contains that range.
pub proof fn lemma_hit_on_containing_interval(s: Slabs, t_min: Scalar, t_max: Scalar)
    requires
        s.is_number(),
        !t_min.nan(),
        !t_max.nan(),
        s.range_entry() < s.range_exit(),
        t_min.key() <= s.range_entry(),
        s.range_exit() <= t_max.key(),
    ensures
        slabs_overlap(s, t_min, t_max),
{
    lemma_slabs_overlap_on_numbers(s, t_min, t_max);
}

/// An interval that ends before the ray enters the box, or begins after it
/// has left, is reported as a miss.
pub proof fn lemma_miss_on_disjoint_interval(s: Slabs, t_min: Scalar, t_max: Scalar)
    requires
        s.is_number(),
        !t_min.nan(),
        !t_max.nan(),
        t_max.key() <= s.range_entry() || s.range_exit() <= t_min.key(),
    ensures
        !slabs_overlap(s, t_min, t_max),
{
    lemma_slabs_overlap_on_numbers(s, t_min, t_max);
}

/// An axis-aligned box. On every axis its lower corner is at most its upper
/// corner, so no corner component is a NaN.
#[derive(Clone, Copy, Debug)]
pub struct AABB {
    min: Vec3,
    max: Vec3,
}

impl AABB {
    #[verifier::type_invariant]
    pub closed spec fn ordered(self) -> bool {
        self.min.all_le_spec(self.max)
    }

    /// The corner with the smallest coordinates.
    pub closed spec fn min_corner(self) -> Vec3 {
        self.min
    }

    /// The corner with the largest coordinates.
    pub closed spec fn max_corner(self) -> Vec3 {
        self.max
    }

    /// What every box satisfies: the corners are ordered on each axis.
    pub open spec fn wf(self) -> bool {
        self.min_corner().all_le_spec(self.max_corner())
    }

    /// Whether `inner` lies inside `self`.
    pub open spec fn encloses(self, inner: AABB) -> bool {
        self.min_corner().all_le_spec(inner.min_corner()) && inner.max_corner().all_le_spec(
            self.max_corner(),
        )
    }

    /// The box between two corners, if they are ordered on every axis.
    pub fn new(min: Vec3, max: Vec3) -> (b: Option<AABB>)
        ensures
            b is Some <==> min.all_le_spec(max),
            b matches Some(bx) ==> bx.min_corner() == min && bx.max_corner() == max && bx.wf(),
    {
        if min.all_le(&max) {
            Some(AABB { min, max })
        } else {
            None
        }
    }

    pub fn min(&self) -> (v: Vec3)
        ensures
            v == self.min_corner(),
            self.wf(),
    {
        proof {
            use_type_invariant(self);
        }
        self.min
    }

    pub fn max(&self) -> (v: Vec3)
        ensures
            v == self.max_corner(),
            self.wf(),
    {
        proof {
            use_type_invariant(self);
        }
        self.max
    }

    /// The box from the component-wise minimum of the lower corners to the
    /// component-wise maximum of the upper corners.
    pub closed spec fn union_spec(self, other: AABB) -> AABB {
        AABB { min: self.min.min_spec(other.min), max: self.max.max_spec(other.max) }
    }

    /// The corners of a union, and that it is a box which holds both.
    pub proof fn lemma_union(box0: AABB, box1: AABB)
        requires
            box0.wf(),
            box1.wf(),
        ensures
            box0.union_spec(box1).min_corner() == box0.min_corner().min_spec(box1.min_corner()),
            box0.union_spec(box1).max_corner() == box0.max_corner().max_spec(box1.max_corner()),
            box0.union_spec(box1).wf(),
            box0.union_spec(box1).encloses(box0),
            box0.union_spec(box1).encloses(box1),
    {
    }

    /// The smallest box that holds both boxes: component-wise minimum of the
    /// lower corners and maximum of the upper corners.
    pub fn surrounding_box(box0: &Self, box1: &Self) -> (b: Self)
        ensures
            b == box0.union_spec(*box1),
            b.min_corner() == box0.min_corner().min_spec(box1.min_corner()),
            b.max_corner() == box0.max_corner().max_spec(box1.max_corner()),
            b.wf(),
            b.encloses(*box0),
            b.encloses(*box1),
    {
        proof {
            use_type_invariant(box0);
            use_type_invariant(box1);
        }
        AABB { min: box0.min.min(&box1.min), max: box0.max.max(&box1.max) }
    }

    /// Every box that holds both boxes holds their surrounding box.
    pub proof fn lemma_surrounding_box_least(box0: AABB, box1: AABB, joint: AABB, outer: AABB)
        requires
            box0.wf(),
            box1.wf(),
            outer.wf(),
            joint.min_corner() == box0.min_corner().min_spec(box1.min_corner()),
            joint.max_corner() == box0.max_corner().max_spec(box1.max_corner()),
            outer.encloses(box0),
            outer.encloses(box1),
        ensures
            outer.encloses(joint),
    {
    }

    /// Enclosure is transitive.
    pub proof fn lemma_encloses_trans(a: AABB, b: AABB, c: AABB)
        requires
            a.encloses(b),
            b.encloses(c),
        ensures
            a.encloses(c),
    {
    }
}

/// The kernel accepts every box and every ray.
pub open spec fn kernel_total<F: Fn(&AABB, &Ray) -> Slabs>(kernel: &F) -> bool {
    forall|b: AABB, r: Ray| call_requires(kernel, (&b, &r))
}

/// The kernel is a function: one box and one ray give one result.
pub open spec fn kernel_fixed<F: Fn(&AABB, &Ray) -> Slabs>(kernel: &F) -> bool {
    forall|b: AABB, r: Ray, s1: Slabs, s2: Slabs|
        call_ensures(kernel, (&b, &r), s1) && call_ensures(kernel, (&b, &r), s2) ==> s1 == s2
}

/// The slabs that the kernel computes for a box and a ray.
pub open spec fn slabs_of<F: Fn(&AABB, &Ray) -> Slabs>(kernel: &F, b: AABB, r: Ray) -> Slabs {
    choose|s: Slabs| call_ensures(kernel, (&b, &r), s)
}

impl AABB {
    /// Whether the ray meets the box within `(t_min, t_max)`, by the slab
    /// test on the distances that the kernel computes.
    pub open spec fn hit_spec<F: Fn(&AABB, &Ray) -> Slabs>(
        self,
        r: Ray,
        t_min: Scalar,
        t_max: Scalar,
        kernel: &F,
    ) -> bool {
        slabs_overlap(slabs_of(kernel, self, r), t_min, t_max)
    }

    /// `hit` is an answer that the slab test can give: it is the test on
    /// distances that the kernel can return for the box and the ray.
    pub open spec fn may_hit<F: Fn(&AABB, &Ray) -> Slabs>(
        self,
        r: Ray,
        t_min: Scalar,
        t_max: Scalar,
        kernel: &F,
        hit: bool,
    ) -> bool {
        exists|s: Slabs|
            #![trigger call_ensures(kernel, (&self, &r), s)]
            call_ensures(kernel, (&self, &r), s) && hit == slabs_overlap(s, t_min, t_max)
    }

    /// With a kernel that is a function, the slab test has one answer.
    pub proof fn lemma_may_hit_fixed<F: Fn(&AABB, &Ray) -> Slabs>(
        self,
        r: Ray,
        t_min: Scalar,
        t_max: Scalar,
        kernel: &F,
        hit: bool,
    )
        requires
            kernel_fixed(kernel),
            self.may_hit(r, t_min, t_max, kernel, hit),
        ensures
            hit == self.hit_spec(r, t_min, t_max, kernel),
    {
        let s = choose|s: Slabs|
            #![trigger call_ensures(kernel, (&self, &r), s)]
            call_ensures(kernel, (&self, &r), s) && hit == slabs_overlap(s, t_min, t_max);
        assert(call_ensures(kernel, (&self, &r), slabs_of(kernel, self, r)));
    }

    /// The slab test. The rounding arithmetic that yields the distances is
    /// the caller's: `kernel` computes, for a box and a ray, the inverse
    /// direction and the two plane distances of each axis.
    pub fn hit<F: Fn(&AABB, &Ray) -> Slabs>(
        &self,
        r: &Ray,
        t_min: Scalar,
        t_max: Scalar,
        kernel: &F,
    ) -> (hit: bool)
        requires
            kernel_total(kernel),
        ensures
            self.may_hit(*r, t_min, t_max, kernel, hit),
            kernel_fixed(kernel) ==> hit == self.hit_spec(*r, t_min, t_max, kernel),
    {
        let s = kernel(self, r);
        let hit = hit_slabs(&s, t_min, t_max);
        proof {
            assert(call_ensures(kernel, (&*self, &*r), s));
            if kernel_fixed(kernel) {
                self.lemma_may_hit_fixed(*r, t_min, t_max, kernel, hit);
            }
        }
        hit
    }
}

} // verus!
