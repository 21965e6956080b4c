//! Intersections: the record of a hit, what a shape must answer, and the
//! flat list that scans its shapes one by one.
use crate::aabb::AABB;
use crate::material::Material;
use crate::scalar::Scalar;
use crate::vec3::{Ray, Vec3};
use vstd::prelude::*;

verus! {

/// One intersection of a ray with a surface.
#[derive(Clone, Copy, Debug)]
pub struct HitRecord {
    pub point: Vec3,
    pub normal: Vec3,
    pub t: Scalar,
    pub front_face: bool,
    pub material_hit: Material,
}

impl HitRecord {
    /// The record of a hit at distance `t`. `facing` is the dot product of
    /// the ray's direction with the outward normal: below zero the ray meets
    /// the front face, and otherwise the stored normal is turned round, so
    /// that it always points against the ray.
    pub fn new(
        point: Vec3,
        t: Scalar,
        outward_normal: &Vec3,
        facing: Scalar,
        material_hit: Material,
    ) -> (rec: HitRecord)
        ensures
            rec.point == point,
            rec.t == t,
            rec.material_hit == material_hit,
            rec.front_face == facing.lt_spec(Scalar { bits: 0 }),
            rec.normal == if rec.front_face {
                *outward_normal
            } else {
                outward_normal.neg_spec()
            },
    {
        let front_face = facing.lt(Scalar::zero());
        let normal = if front_face {
            *outward_normal
        } else {
            outward_normal.neg()
        };
        HitRecord { point, normal, t, front_face, material_hit }
    }

    /// Whether the hit lies strictly inside `(t_min, t_max)`.
    pub open spec fn within(self, t_min: Scalar, t_max: Scalar) -> bool {
        t_min.lt_spec(self.t) && self.t.lt_spec(t_max)
    }
}

/// The upper end of the search once `found` is known: the distance of the
/// hit, or `t_max` if there is none.
pub open spec fn bound_after(found: Option<HitRecord>, t_max: Scalar) -> Scalar {
    match found {
        Some(rec) => rec.t,
        None => t_max,
    }
}

/// A shape that a ray can hit. Both answers are functions of the shape and
/// the arguments; `hit_spec` and `bounding_box_spec` name them.
pub trait Hittable {
    /// The nearest intersection with the ray inside `(t_min, t_max)`.
    open spec fn hit_spec(&self, r: Ray, t_min: Scalar, t_max: Scalar) -> Option<HitRecord> {
        arbitrary()
    }

    /// A box that holds the shape, if it has one.
    open spec fn bounding_box_spec(&self, t0: Scalar, t1: Scalar) -> Option<AABB> {
        arbitrary()
    }

    fn hit(&self, r: &Ray, t_min: Scalar, t_max: Scalar) -> (rec: Option<HitRecord>)
        ensures
            rec == self.hit_spec(*r, t_min, t_max),
    ;

    fn bounding_box(&self, t0: Scalar, t1: Scalar) -> (b: Option<AABB>)
        ensures
            b == self.bounding_box_spec(t0, t1),
    ;
}

/// What the scan has found after the first `n` shapes: each shape is asked
/// inside what is left of the interval, and a hit replaces what was found.
pub open spec fn scan<H: Hittable>(
    items: Seq<H>,
    r: Ray,
    t_min: Scalar,
    t_max: Scalar,
    n: int,
) -> Option<HitRecord>
    decreases n,
{
    if n <= 0 {
        None
    } else {
        let before = scan(items, r, t_min, t_max, n - 1);
        match items[n - 1].hit_spec(r, t_min, bound_after(before, t_max)) {
            Some(rec) => Some(rec),
            None => before,
        }
    }
}

/// The union of the boxes of the first `n` shapes; none if `n` is zero or
/// one of them has no box.
pub open spec fn union_of<H: Hittable>(items: Seq<H>, t0: Scalar, t1: Scalar, n: int) -> Option<
    AABB,
>
    decreases n,
{
    if n <= 0 {
        None
    } else {
        match items[n - 1].bounding_box_spec(t0, t1) {
            None => None,
            Some(last) => if n == 1 {
                Some(last)
            } else {
                match union_of(items, t0, t1, n - 1) {
                    None => None,
                    Some(before) => Some(before.union_spec(last)),
                }
            },
        }
    }
}

/// What is left of a hit when the search ends at `bound`: the hit itself if
/// it lies before the bound, and nothing otherwise.
pub open spec fn cut(found: Option<HitRecord>, bound: Scalar) -> Option<HitRecord> {
    match found {
        Some(rec) => if rec.t.lt_spec(bound) {
            Some(rec)
        } else {
            None
        },
        None => None,
    }
}

/// A shape answers steadily on `(t_min, t_max)` when its hit lies strictly
/// inside the interval and a shorter interval changes the answer only by
/// cutting that hit off.
pub open spec fn steady<H: Hittable>(h: H, r: Ray, t_min: Scalar, t_max: Scalar) -> bool {
    &&& h.hit_spec(r, t_min, t_max) matches Some(rec) ==> rec.within(t_min, t_max)
    &&& forall|b: Scalar|
        !b.nan() && b.key() <= t_max.key() ==> #[trigger] h.hit_spec(r, t_min, b) == cut(
            h.hit_spec(r, t_min, t_max),
            b,
        )
}

/// Every shape of the sequence answers steadily.
pub open spec fn all_steady<H: Hittable>(items: Seq<H>, r: Ray, t_min: Scalar, t_max: Scalar) -> bool {
    forall|i: int| 0 <= i < items.len() ==> steady(#[trigger] items[i], r, t_min, t_max)
}

/// `out` is the closest hit, inside `(t_min, bound)`, among the shapes at
/// the positions `among`: it is the hit of one of them, no other lies
/// nearer, and it is none exactly when none of them is hit.
pub open spec fn closest_among<H: Hittable>(
    items: Seq<H>,
    among: Set<int>,
    r: Ray,
    t_min: Scalar,
    bound: Scalar,
    out: Option<HitRecord>,
) -> bool {
    match out {
        None => forall|i: int|
            among.contains(i) ==> (#[trigger] items[i]).hit_spec(r, t_min, bound) is None,
        Some(rec) => {
            &&& exists|i: int|
                among.contains(i) && (#[trigger] items[i]).hit_spec(r, t_min, bound) == Some(rec)
            &&& forall|j: int|
                among.contains(j) ==> ((#[trigger] items[j]).hit_spec(r, t_min, bound) matches Some(
                    q,
                ) ==> rec.t.le_spec(q.t))
        },
    }
}

/// The positions below `n`.
pub open spec fn below(n: int) -> Set<int> {
    Set::new(|i: int| 0 <= i < n)
}

/// The scan over steady shapes finds the closest hit of the shapes it has
/// asked.
pub proof fn lemma_scan_closest<H: Hittable>(
    items: Seq<H>,
    r: Ray,
    t_min: Scalar,
    t_max: Scalar,
    n: int,
)
    requires
        0 <= n <= items.len(),
        !t_max.nan(),
        all_steady(items, r, t_min, t_max),
    ensures
        closest_among(items, below(n), r, t_min, t_max, scan(items, r, t_min, t_max, n)),
    decreases n,
{
    if n > 0 {
        lemma_scan_closest(items, r, t_min, t_max, n - 1);
        let before = scan(items, r, t_min, t_max, n - 1);
        let bound = bound_after(before, t_max);
        let last = items[n - 1];
        assert(steady(last, r, t_min, t_max));
        if before is Some {
            let p = before->0;
            let w = choose|i: int|
                below(n - 1).contains(i) && (#[trigger] items[i]).hit_spec(r, t_min, t_max)
                    == Some(p);
            assert(steady(items[w], r, t_min, t_max));
        }
        assert(!bound.nan() && bound.key() <= t_max.key());
        let now = last.hit_spec(r, t_min, bound);
        assert(now == cut(last.hit_spec(r, t_min, t_max), bound));
        let out = scan(items, r, t_min, t_max, n);
        match out {
            None => {
                assert forall|i: int| below(n).contains(i) implies (#[trigger] items[i]).hit_spec(
                    r,
                    t_min,
                    t_max,
                ) is None by {
                    if i < n - 1 {
                        assert(below(n - 1).contains(i));
                    }
                }
            },
            Some(rec) => {
                if now is Some {
                    assert(below(n).contains(n - 1));
                } else {
                    let w = choose|i: int|
                        below(n - 1).contains(i) && (#[trigger] items[i]).hit_spec(r, t_min, t_max)
                            == Some(rec);
                    assert(below(n).contains(w));
                }
                assert forall|j: int| below(n).contains(j) implies ((#[trigger] items[j]).hit_spec(
                    r,
                    t_min,
                    t_max,
                ) matches Some(q) ==> rec.t.le_spec(q.t)) by {
                    if j < n - 1 {
                        assert(below(n - 1).contains(j));
                        assert(steady(items[j], r, t_min, t_max));
                    }
                }
            },
        }
    }
}

/// Two closest hits among the same shapes lie at the same distance, and are
/// the same record when only one shape is hit at that distance.
pub proof fn lemma_closest_unique<H: Hittable>(
    items: Seq<H>,
    among: Set<int>,
    r: Ray,
    t_min: Scalar,
    bound: Scalar,
    a: Option<HitRecord>,
    b: Option<HitRecord>,
)
    requires
        closest_among(items, among, r, t_min, bound, a),
        closest_among(items, among, r, t_min, bound, b),
    ensures
        a is Some <==> b is Some,
        a is Some ==> a->0.t.key() == b->0.t.key(),
        a is Some && (forall|i: int, j: int|
            among.contains(i) && among.contains(j) && i != j ==> !({
                &&& (#[trigger] items[i]).hit_spec(r, t_min, bound) matches Some(p)
                &&& (#[trigger] items[j]).hit_spec(r, t_min, bound) matches Some(q)
                &&& p.t.key() == q.t.key()
            })) ==> a == b,
{
    if a is Some {
        let i = choose|i: int|
            among.contains(i) && (#[trigger] items[i]).hit_spec(r, t_min, bound) == Some(a->0);
        assert(b is Some);
        let j = choose|j: int|
            among.contains(j) && (#[trigger] items[j]).hit_spec(r, t_min, bound) == Some(b->0);
        assert(a->0.t.le_spec(b->0.t));
        assert(b->0.t.le_spec(a->0.t));
    } else if b is Some {
        let j = choose|j: int|
            among.contains(j) && (#[trigger] items[j]).hit_spec(r, t_min, bound) == Some(b->0);
    }
}

/// Shapes in a row, searched one after the other.
pub struct HittableList<H> {
    hittables: Vec<H>,
}

impl<H> View for HittableList<H> {
    type V = Seq<H>;

    closed spec fn view(&self) -> Seq<H> {
        self.hittables@
    }
}

impl<H: Hittable> HittableList<H> {
    pub fn new() -> (list: Self)
        ensures
            list@ == Seq::<H>::empty(),
    {
        HittableList { hittables: Vec::new() }
    }

    pub fn add_hittable(&mut self, hittable: H)
        ensures
            final(self)@ == old(self)@.push(hittable),
    {
        self.hittables.push(hittable);
    }

    pub fn clear(&mut self)
        ensures
            final(self)@ == Seq::<H>::empty(),
    {
        self.hittables.clear();
    }

    pub fn len(&self) -> (n: usize)
        ensures
            n == self@.len(),
    {
        self.hittables.len()
    }

    /// The shape at position `i`.
    pub fn get(&self, i: usize) -> (h: &H)
        requires
            i < self@.len(),
        ensures
            *h == self@[i as int],
    {
        &self.hittables[i]
    }
}

impl<H: Hittable> Hittable for HittableList<H> {
    open spec fn hit_spec(&self, r: Ray, t_min: Scalar, t_max: Scalar) -> Option<HitRecord> {
        scan(self@, r, t_min, t_max, self@.len() as int)
    }

    open spec fn bounding_box_spec(&self, t0: Scalar, t1: Scalar) -> Option<AABB> {
        union_of(self@, t0, t1, self@.len() as int)
    }

    /// The scan: every shape is asked in turn, each inside the interval that
    /// the hit found so far has left.
    fn hit(&self, r: &Ray, t_min: Scalar, t_max: Scalar) -> (rec: Option<HitRecord>) {
        let mut closest_hit_record: Option<HitRecord> = None;
        let mut closest_so_far = t_max;
        let mut i: usize = 0;
        while i < self.hittables.len()
            invariant
                i <= self.hittables.len(),
                closest_hit_record == scan(self@, *r, t_min, t_max, i as int),
                closest_so_far == bound_after(closest_hit_record, t_max),
            decreases self.hittables.len() - i,
        {
            if let Some(record) = self.hittables[i].hit(r, t_min, closest_so_far) {
                closest_so_far = record.t;
                closest_hit_record = Some(record);
            }
            i = i + 1;
        }
        closest_hit_record
    }

    /// The box that holds every shape of the list; none for an empty list or
    /// when a shape has no box.
    fn bounding_box(&self, t0: Scalar, t1: Scalar) -> (b: Option<AABB>) {
        if self.hittables.len() == 0 {
            return None;
        }
        let mut output_box: Option<AABB> = None;
        let mut i: usize = 0;
        while i < self.hittables.len()
            invariant
                i <= self.hittables.len(),
                i > 0 ==> output_box is Some,
                output_box == union_of(self@, t0, t1, i as int),
            decreases self.hittables.len() - i,
        {
            match self.hittables[i].bounding_box(t0, t1) {
                Some(temp_box) => {
                    output_box = match output_box {
                        None => Some(temp_box),
                        Some(so_far) => Some(AABB::surrounding_box(&so_far, &temp_box)),
                    };
                },
                None => {
                    proof {
                        lemma_union_of_none(self@, t0, t1, i as int, self@.len() as int);
                    }
                    return None;
                },
            }
            i = i + 1;
        }
        output_box
    }
}

/// Once a shape without a box is among the first `n`, their union is none.
pub proof fn lemma_union_of_none<H: Hittable>(items: Seq<H>, t0: Scalar, t1: Scalar, k: int, n: int)
    requires
        0 <= k < n <= items.len(),
        items[k].bounding_box_spec(t0, t1) is None,
    ensures
        union_of(items, t0, t1, n) is None,
    decreases n,
{
    if k < n - 1 {
        lemma_union_of_none(items, t0, t1, k, n - 1);
    }
}

} // verus!
