//! The scene as the renderer sees it: the shapes and the hierarchy over
//! them.
use crate::aabb::{kernel_fixed, kernel_total, Slabs, AABB};
use crate::bvh::{all_boxed, all_wf, boxes_of, identity, BVHNode};
use crate::collision::{below, HitRecord, Hittable};
use crate::scalar::Scalar;
use crate::vec3::Ray;
use vstd::prelude::*;

verus! {

/// The shapes of a scene and the hierarchy built over them.
pub struct World<H> {
    hittables: Vec<H>,
    bvh_tree: BVHNode,
}

/// Collects the shapes of a scene.
pub struct WorldBuilder<H> {
    hittables: Vec<H>,
}

impl<H: Hittable> WorldBuilder<H> {
    /// The shapes added so far, in their order.
    pub closed spec fn shapes(&self) -> Seq<H> {
        self.hittables@
    }

    pub fn add_object(&mut self, object: H)
        ensures
            final(self).shapes() == old(self).shapes().push(object),
    {
        self.hittables.push(object);
    }

    /// The number of shapes added so far.
    pub fn len(&self) -> (n: usize)
        ensures
            n == self.shapes().len(),
    {
        self.hittables.len()
    }

    /// The world over the shapes, or the reason why the hierarchy cannot be
    /// built: there is no shape, or one of them has no box.
    pub fn try_build(self) -> (out: Result<World<H>, String>)
        ensures
            out is Ok <==> self.shapes().len() > 0 && all_boxed(self.shapes()),
            out matches Ok(world) ==> world.shapes() == self.shapes() && world.wf(),
            out matches Err(e) ==> e@ == if self.shapes().len() == 0 {
                crate::bvh::empty_list_message()
            } else {
                crate::bvh::no_box_message()
            },
    {
        match BVHNode::new(&self.hittables) {
            Ok(bvh_tree) => Ok(World { hittables: self.hittables, bvh_tree }),
            Err(e) => Err(e),
        }
    }

    /// The world over the shapes. There must be a shape, and every shape
    /// must have a box.
    pub fn build(self) -> (world: World<H>)
        requires
            self.shapes().len() > 0,
            all_boxed(self.shapes()),
        ensures
            world.shapes() == self.shapes(),
            world.wf(),
    {
        match self.try_build() {
            Ok(world) => world,
            Err(_) => unreached(),
        }
    }
}

impl<H: Hittable> World<H> {
    /// The shapes of the world, in the order in which they were added.
    pub closed spec fn shapes(&self) -> Seq<H> {
        self.hittables@
    }

    /// The root of the hierarchy.
    pub closed spec fn tree(&self) -> BVHNode {
        self.bvh_tree
    }

    /// What every world satisfies: its hierarchy was built over its shapes,
    /// and the leaves of the hierarchy are exactly the shapes.
    pub open spec fn wf(&self) -> bool {
        &&& self.shapes().len() > 0
        &&& all_boxed(self.shapes())
        &&& all_wf(boxes_of(self.shapes()))
        &&& self.tree().built(boxes_of(self.shapes()), identity(self.shapes().len()))
        &&& self.tree().in_range(self.shapes().len() as int)
        &&& self.tree().leaf_set() == below(self.shapes().len() as int)
    }

    /// What a search of the world finds.
    pub open spec fn hit_spec<F: Fn(&AABB, &Ray) -> Slabs>(
        &self,
        r: Ray,
        t_min: Scalar,
        t_max: Scalar,
        kernel: &F,
    ) -> Option<HitRecord> {
        self.tree().hit_spec(self.shapes(), r, t_min, t_max, kernel)
    }

    /// `out` is an answer that a search of the world can give.
    pub open spec fn finds<F: Fn(&AABB, &Ray) -> Slabs>(
        &self,
        r: Ray,
        t_min: Scalar,
        t_max: Scalar,
        kernel: &F,
        out: Option<HitRecord>,
    ) -> bool {
        self.tree().finds(self.shapes(), r, t_min, t_max, kernel, out)
    }

    pub fn builder() -> (b: WorldBuilder<H>)
        ensures
            b.shapes() == Seq::<H>::empty(),
    {
        WorldBuilder { hittables: Vec::new() }
    }

    /// The hierarchy over the shapes.
    pub fn get_hittables(&self) -> (tree: &BVHNode)
        ensures
            *tree == self.tree(),
    {
        &self.bvh_tree
    }

    /// The shapes that the leaves of the hierarchy stand for.
    pub fn objects(&self) -> (shapes: &Vec<H>)
        ensures
            shapes@ == self.shapes(),
    {
        &self.hittables
    }

    /// The nearest hit of the ray inside `(t_min, t_max)`, by a search of
    /// the hierarchy.
    pub fn hit<F: Fn(&AABB, &Ray) -> Slabs>(
        &self,
        r: &Ray,
        t_min: Scalar,
        t_max: Scalar,
        kernel: &F,
    ) -> (rec: Option<HitRecord>)
        requires
            self.wf(),
            kernel_total(kernel),
        ensures
            self.finds(*r, t_min, t_max, kernel, rec),
            kernel_fixed(kernel) ==> rec == self.hit_spec(*r, t_min, t_max, kernel),
    {
        self.bvh_tree.hit(&self.hittables, r, t_min, t_max, kernel)
    }
}

} // verus!
