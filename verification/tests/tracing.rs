use raytracing_lib::aabb::{hit_slabs, Slab, Slabs, AABB};
use raytracing_lib::bvh::{box_compare, AxisIndexes, BVHChild, BVHNode, KeyOrder};
use raytracing_lib::collision::{HitRecord, Hittable, HittableList};
use raytracing_lib::material::{Diffuse, Material, Metal};
use raytracing_lib::object::Sphere;
use raytracing_lib::export::RGBPixel;
use raytracing_lib::renderer::{compute_render, ray_color, Aggregator};
use raytracing_lib::scalar::Scalar;
use raytracing_lib::vec3::{Ray, Vec3};
use raytracing_lib::world::World;

fn s(x: f32) -> Scalar {
    Scalar::from_bits(x.to_bits())
}

fn f(x: Scalar) -> f32 {
    f32::from_bits(x.to_bits())
}

fn v(x: f32, y: f32, z: f32) -> Vec3 {
    Vec3::new(s(x), s(y), s(z))
}

fn arr(a: &Vec3) -> [f32; 3] {
    [f(a.x), f(a.y), f(a.z)]
}

fn dot(a: [f32; 3], b: [f32; 3]) -> f32 {
    a[0] * b[0] + a[1] * b[1] + a[2] * b[2]
}

fn ray(o: [f32; 3], d: [f32; 3]) -> Ray {
    Ray::new(v(o[0], o[1], o[2]), v(d[0], d[1], d[2]))
}

/// A sphere that answers with single-precision arithmetic.
struct Ball(Sphere);

fn ball(c: [f32; 3], radius: f32, material: Material) -> Ball {
    Ball(Sphere::new(v(c[0], c[1], c[2]), s(radius), material))
}

impl Hittable for Ball {
    fn hit(&self, r: &Ray, t_min: Scalar, t_max: Scalar) -> Option<HitRecord> {
        let o = arr(&r.origin);
        let d = arr(&r.direction);
        let c = arr(&self.0.center);
        let radius = f(self.0.radius);
        let oc = [o[0] - c[0], o[1] - c[1], o[2] - c[2]];
        let a = dot(d, d);
        let half_b = dot(oc, d);
        let cc = dot(oc, oc) - radius * radius;
        let discriminant = half_b * half_b - a * cc;
        let root = f32::sqrt(discriminant);
        let near = (-half_b - root) / a;
        let far = (-half_b + root) / a;
        let t = Sphere::select_root(s(discriminant), s(near), s(far), t_min, t_max)?;
        let tf = f(t);
        let p = [o[0] + tf * d[0], o[1] + tf * d[1], o[2] + tf * d[2]];
        let n = [(p[0] - c[0]) / radius, (p[1] - c[1]) / radius, (p[2] - c[2]) / radius];
        Some(HitRecord::new(
            v(p[0], p[1], p[2]),
            t,
            &v(n[0], n[1], n[2]),
            s(dot(d, n)),
            self.0.material,
        ))
    }

    fn bounding_box(&self, _t0: Scalar, _t1: Scalar) -> Option<AABB> {
        let c = arr(&self.0.center);
        let r = f(self.0.radius);
        AABB::new(v(c[0] - r, c[1] - r, c[2] - r), v(c[0] + r, c[1] + r, c[2] + r))
    }
}

/// A shape without extent.
struct Shapeless;

impl Hittable for Shapeless {
    fn hit(&self, _r: &Ray, _t_min: Scalar, _t_max: Scalar) -> Option<HitRecord> {
        None
    }

    fn bounding_box(&self, _t0: Scalar, _t1: Scalar) -> Option<AABB> {
        None
    }
}

fn slabs(b: &AABB, r: &Ray) -> Slabs {
    let lo = arr(&b.min());
    let hi = arr(&b.max());
    let o = arr(&r.origin);
    let d = arr(&r.direction);
    let one = |a: usize| {
        let inv_d = 1f32 / d[a];
        Slab { inv_d: s(inv_d), t0: s((lo[a] - o[a]) * inv_d), t1: s((hi[a] - o[a]) * inv_d) }
    };
    Slabs { x: one(0), y: one(1), z: one(2) }
}

fn grey() -> Material {
    Material::Diffuse(Diffuse::default())
}

fn unit_box() -> AABB {
    match AABB::new(v(0.0, 0.0, 0.0), v(1.0, 1.0, 1.0)) {
        Some(b) => b,
        None => panic!("the unit box is a box"),
    }
}

#[test]
fn a_box_needs_ordered_corners() {
    assert!(AABB::new(v(0.0, 0.0, 0.0), v(1.0, 1.0, 1.0)).is_some());
    assert!(AABB::new(v(0.0, 0.0, 0.0), v(0.0, 0.0, 0.0)).is_some());
    assert!(AABB::new(v(-0.0, 0.0, 0.0), v(0.0, -0.0, 0.0)).is_some());
    assert!(AABB::new(v(0.0, 2.0, 0.0), v(1.0, 1.0, 1.0)).is_none());
    assert!(AABB::new(v(0.0, f32::NAN, 0.0), v(1.0, 1.0, 1.0)).is_none());
    assert!(AABB::new(v(0.0, 0.0, 0.0), v(1.0, 1.0, f32::NAN)).is_none());
    assert!(AABB::new(v(f32::NEG_INFINITY, 0.0, 0.0), v(f32::INFINITY, 1.0, 1.0)).is_some());
}

#[test]
fn surrounding_box_is_the_union() {
    let a = AABB::new(v(0.0, -1.0, 2.0), v(1.0, 0.0, 3.0)).unwrap();
    let b = AABB::new(v(-5.0, 0.5, 2.5), v(0.5, 4.0, 2.75)).unwrap();
    let u = AABB::surrounding_box(&a, &b);
    assert_eq!(u.min(), v(-5.0, -1.0, 2.0));
    assert_eq!(u.max(), v(1.0, 4.0, 3.0));
    let w = AABB::surrounding_box(&b, &a);
    assert_eq!(w.min(), u.min());
    assert_eq!(w.max(), u.max());
    let same = AABB::surrounding_box(&a, &a);
    assert_eq!(same.min(), a.min());
    assert_eq!(same.max(), a.max());
}

#[test]
fn slab_test_on_given_distances() {
    let slab = |inv_d: f32, t0: f32, t1: f32| Slab { inv_d: s(inv_d), t0: s(t0), t1: s(t1) };
    let open = slab(f32::INFINITY, f32::NEG_INFINITY, f32::INFINITY);
    // crossing between 1 and 2 on x, unbounded on the other axes
    let x = Slabs { x: slab(1.0, 1.0, 2.0), y: open, z: open };
    assert!(hit_slabs(&x, s(0.0), s(f32::INFINITY)));
    assert!(hit_slabs(&x, s(1.5), s(1.75)));
    assert!(!hit_slabs(&x, s(2.0), s(5.0)));
    assert!(!hit_slabs(&x, s(0.0), s(1.0)));
    // a ray against the axis enters through the upper plane
    let back = Slabs { x: slab(-1.0, 2.0, 1.0), y: open, z: open };
    assert!(hit_slabs(&back, s(0.0), s(f32::INFINITY)));
    assert!(!hit_slabs(&back, s(2.0), s(5.0)));
    // the interval is narrowed from axis to axis
    let apart = Slabs { x: slab(1.0, 1.0, 2.0), y: slab(1.0, 3.0, 4.0), z: open };
    assert!(!hit_slabs(&apart, s(0.0), s(f32::INFINITY)));
    let touching = Slabs { x: slab(1.0, 1.0, 2.0), y: slab(1.0, 2.0, 4.0), z: open };
    assert!(!hit_slabs(&touching, s(0.0), s(f32::INFINITY)));
    let shared = Slabs { x: slab(1.0, 1.0, 2.0), y: slab(1.0, 1.5, 4.0), z: slab(1.0, 0.0, 1.75) };
    assert!(hit_slabs(&shared, s(0.0), s(f32::INFINITY)));
    assert!(!hit_slabs(&shared, s(1.75), s(f32::INFINITY)));
    assert!(!hit_slabs(&shared, s(0.0), s(1.5)));
    // a NaN distance cuts nothing off
    let nan = Slabs { x: slab(f32::INFINITY, f32::NAN, f32::NAN), y: open, z: open };
    assert!(hit_slabs(&nan, s(0.0), s(1.0)));
}

#[test]
fn a_box_is_hit_on_intervals_that_hold_the_crossing() {
    // the ray crosses the unit box for t in [1, 2]
    let b = unit_box();
    let r = ray([-1.0, 0.5, 0.5], [1.0, 0.0, 0.0]);
    assert!(b.hit(&r, s(0.0), s(f32::INFINITY), &slabs));
    assert!(b.hit(&r, s(0.5), s(2.5), &slabs));
    assert!(b.hit(&r, s(1.0), s(2.0), &slabs));
    assert!(b.hit(&r, s(1.25), s(1.5), &slabs));
    // disjoint intervals
    assert!(!b.hit(&r, s(0.0), s(0.5), &slabs));
    assert!(!b.hit(&r, s(0.0), s(1.0), &slabs));
    assert!(!b.hit(&r, s(2.0), s(9.0), &slabs));
    assert!(!b.hit(&r, s(3.0), s(f32::INFINITY), &slabs));
    // a diagonal ray through the box: crossing for t in [1, 2]
    let d = ray([-1.0, -1.0, -1.0], [1.0, 1.0, 1.0]);
    assert!(b.hit(&d, s(0.0), s(f32::INFINITY), &slabs));
    assert!(!b.hit(&d, s(2.5), s(f32::INFINITY), &slabs));
    // a ray that passes beside the box
    let miss = ray([-1.0, 1.5, 0.5], [1.0, 0.0, 0.0]);
    assert!(!b.hit(&miss, s(0.0), s(f32::INFINITY), &slabs));
    // a ray that points away
    let away = ray([-1.0, 0.5, 0.5], [-1.0, 0.0, 0.0]);
    assert!(!b.hit(&away, s(0.0), s(f32::INFINITY), &slabs));
}

#[test]
fn a_sphere_aimed_at_is_hit_at_the_distance_to_its_surface() {
    let cases: Vec<([f32; 3], f32, [f32; 3])> = vec![
        ([0.0, 0.0, 0.0], 1.0, [0.0, 0.0, 5.0]),
        ([4.0, 1.0, 0.0], 1.0, [-10.0, 1.0, 0.0]),
        ([0.0, -1000.0, 0.0], 1000.0, [0.0, 8.0, 0.0]),
        ([1.0, 2.0, 3.0], 0.5, [4.0, 6.0, 3.0]),
    ];
    for (c, radius, origin) in cases {
        let b = ball(c, radius, grey());
        let to = [c[0] - origin[0], c[1] - origin[1], c[2] - origin[2]];
        let dist = f32::sqrt(dot(to, to));
        let d = [to[0] / dist, to[1] / dist, to[2] / dist];
        let rec = match b.hit(&ray(origin, d), s(0.001), s(f32::INFINITY)) {
            Some(rec) => rec,
            None => panic!("the sphere was missed"),
        };
        let want = dist - radius;
        assert!((f(rec.t) - want).abs() <= 1.0e-3 * want.max(1.0), "{} vs {}", f(rec.t), want);
        assert!(rec.front_face);
        // the normal points back along the ray
        let n = arr(&rec.normal);
        assert!((dot(n, d) + 1.0).abs() < 1.0e-3);
    }
}

#[test]
fn a_hit_from_inside_turns_the_normal() {
    let b = ball([0.0, 0.0, 0.0], 2.0, grey());
    let rec = b.hit(&ray([0.0, 0.0, 0.0], [1.0, 0.0, 0.0]), s(0.001), s(f32::INFINITY)).unwrap();
    assert_eq!(f(rec.t), 2.0);
    assert!(!rec.front_face);
    assert_eq!(rec.normal, v(-1.0, -0.0, -0.0));
    assert_eq!(rec.point, v(2.0, 0.0, 0.0));
}

#[test]
fn hit_record_orientation() {
    let n = v(0.0, 1.0, 0.0);
    let front = HitRecord::new(v(1.0, 2.0, 3.0), s(4.0), &n, s(-0.5), grey());
    assert!(front.front_face);
    assert_eq!(front.normal, n);
    assert_eq!(front.point, v(1.0, 2.0, 3.0));
    assert_eq!(front.t, s(4.0));
    assert_eq!(front.material_hit, grey());
    let back = HitRecord::new(v(1.0, 2.0, 3.0), s(4.0), &n, s(0.5), grey());
    assert!(!back.front_face);
    assert_eq!(back.normal, v(-0.0, -1.0, -0.0));
    let edge = HitRecord::new(v(1.0, 2.0, 3.0), s(4.0), &n, s(0.0), grey());
    assert!(!edge.front_face);
}

fn row_of_balls(n: usize) -> Vec<Ball> {
    // non-overlapping spheres on a grid, each with a material of its own
    let mut out = Vec::new();
    let mut k = 0;
    while k < n {
        let x = (k % 5) as f32 * 3.0 - 6.0;
        let z = (k / 5) as f32 * 3.0 - 6.0;
        let y = ((k * 7) % 3) as f32;
        let shade = k as f32 / n as f32;
        out.push(ball(
            [x, y, z],
            0.5 + 0.1 * (k % 4) as f32,
            Material::Metal(Metal::new(v(shade, 0.5, 1.0 - shade), s(0.0))),
        ));
        k += 1;
    }
    out
}

fn same_hit(a: &Option<HitRecord>, b: &Option<HitRecord>) -> bool {
    match (a, b) {
        (None, None) => true,
        (Some(x), Some(y)) => {
            x.t == y.t
                && x.material_hit == y.material_hit
                && x.point == y.point
                && x.normal == y.normal
                && x.front_face == y.front_face
        }
        _ => false,
    }
}

#[test]
fn the_hierarchy_agrees_with_the_scan() {
    for &n in [1usize, 2, 3, 4, 7, 12, 25].iter() {
        let tree = match BVHNode::new(&row_of_balls(n)) {
            Ok(t) => t,
            Err(e) => panic!("{}", e),
        };
        let items = row_of_balls(n);
        let mut list = HittableList::new();
        for b in row_of_balls(n) {
            list.add_hittable(b);
        }
        assert_eq!(list.len(), n);
        let mut hits = 0;
        let mut k = 0;
        while k < 400 {
            // rays from a ring around the scene, aimed across it
            let a = k as f32 * 0.37;
            let o = [15.0 * a.cos(), 1.0 + (k % 5) as f32 * 0.3, 15.0 * a.sin()];
            let target = [(k % 7) as f32 * 2.0 - 6.0, ((k * 3) % 4) as f32 * 0.5, (k % 11) as f32 - 5.0];
            let d = [target[0] - o[0], target[1] - o[1], target[2] - o[2]];
            let r = ray(o, d);
            for &(lo, hi) in [(0.001f32, f32::INFINITY), (0.001, 1.0), (0.5, 0.9), (0.9, 2.0)].iter() {
                let from_tree = tree.hit(&items, &r, s(lo), s(hi), &slabs);
                let from_list = list.hit(&r, s(lo), s(hi));
                assert!(same_hit(&from_tree, &from_list), "n = {}, ray {}", n, k);
                if let Some(rec) = from_tree {
                    assert!(f(rec.t) > lo && f(rec.t) < hi);
                    hits += 1;
                }
            }
            k += 1;
        }
        assert!(hits > 0, "no ray hit anything with {} spheres", n);
    }
}

#[test]
fn the_scan_keeps_the_nearest_hit() {
    let mut list = HittableList::new();
    list.add_hittable(ball([0.0, 0.0, -5.0], 1.0, grey()));
    list.add_hittable(ball([0.0, 0.0, -2.0], 0.5, Material::Metal(Metal::default())));
    list.add_hittable(ball([0.0, 0.0, -9.0], 1.0, grey()));
    let r = ray([0.0, 0.0, 0.0], [0.0, 0.0, -1.0]);
    let rec = list.hit(&r, s(0.001), s(f32::INFINITY)).unwrap();
    assert_eq!(f(rec.t), 1.5);
    assert_eq!(rec.material_hit, Material::Metal(Metal::default()));
    // with the near sphere cut off by the interval, the next one is found
    let rec = list.hit(&r, s(3.0), s(f32::INFINITY)).unwrap();
    assert_eq!(f(rec.t), 4.0);
    assert!(list.hit(&r, s(0.001), s(1.0)).is_none());
    assert_eq!(list.get(1).0.radius, s(0.5));
    list.clear();
    assert_eq!(list.len(), 0);
    assert!(list.hit(&r, s(0.001), s(f32::INFINITY)).is_none());
}

#[test]
fn the_box_of_a_list_holds_every_shape() {
    let mut list = HittableList::new();
    assert!(list.bounding_box(s(0.0), s(0.0)).is_none());
    list.add_hittable(ball([0.0, 0.0, -5.0], 1.0, grey()));
    list.add_hittable(ball([3.0, 1.0, 0.0], 0.5, grey()));
    list.add_hittable(ball([-2.0, 0.0, 0.0], 0.25, grey()));
    let b = list.bounding_box(s(0.0), s(0.0)).unwrap();
    assert_eq!(b.min(), v(-2.25, -1.0, -6.0));
    assert_eq!(b.max(), v(3.5, 1.5, 0.5));
}

#[test]
fn a_list_with_a_shape_without_box_has_no_box() {
    let mut list = HittableList::new();
    list.add_hittable(Shapeless);
    assert!(list.bounding_box(s(0.0), s(0.0)).is_none());
}

#[test]
fn an_empty_list_cannot_be_built() {
    let none: Vec<Ball> = Vec::new();
    match BVHNode::new(&none) {
        Ok(_) => panic!("a hierarchy over nothing"),
        Err(e) => assert_eq!(e, "Cannot build a BVH with an empty object list"),
    }
}

#[test]
fn a_shape_without_box_cannot_be_built() {
    match BVHNode::new(&vec![Shapeless]) {
        Ok(_) => panic!("a hierarchy over a shape without box"),
        Err(e) => assert_eq!(e, "No bounding box in BVH constructor"),
    }
    match BVHNode::new(&vec![Shapeless, Shapeless, Shapeless]) {
        Ok(_) => panic!("a hierarchy over shapes without box"),
        Err(e) => assert_eq!(e, "No bounding box in BVH constructor"),
    }
    match box_compare(&Shapeless, &Shapeless, AxisIndexes::X) {
        Ok(_) => panic!("shapes without box were compared"),
        Err(e) => assert_eq!(e, "No bounding box in BVH constructor"),
    }
}

fn leaves(child: &BVHChild, out: &mut Vec<usize>) {
    match child {
        BVHChild::Leaf(i) => out.push(*i),
        BVHChild::Node(n) => {
            leaves(&n.left, out);
            leaves(&n.right, out);
        }
    }
}

#[test]
fn one_shape_is_both_children() {
    let tree = BVHNode::new(&vec![ball([1.0, 2.0, 3.0], 0.5, grey())]).unwrap();
    assert!(matches!(tree.left, BVHChild::Leaf(0)));
    assert!(matches!(tree.right, BVHChild::Leaf(0)));
    assert_eq!(tree.aabb.min(), v(0.5, 1.5, 2.5));
    assert_eq!(tree.aabb.max(), v(1.5, 2.5, 3.5));
    assert_eq!(tree.bounding_box().min(), v(0.5, 1.5, 2.5));
}

#[test]
fn two_shapes_are_ordered_along_an_axis() {
    // on every axis the second sphere lies before the first
    let mut k = 0;
    while k < 20 {
        let items = vec![ball([5.0, 5.0, 5.0], 1.0, grey()), ball([0.0, 0.0, 0.0], 1.0, grey())];
        let tree = BVHNode::new(&items).unwrap();
        assert!(matches!(tree.left, BVHChild::Leaf(1)));
        assert!(matches!(tree.right, BVHChild::Leaf(0)));
        assert_eq!(tree.aabb.min(), v(-1.0, -1.0, -1.0));
        assert_eq!(tree.aabb.max(), v(6.0, 6.0, 6.0));
        // equal keys keep the order
        let twins = vec![ball([0.0, 0.0, 0.0], 1.0, grey()), ball([0.0, 0.0, 0.0], 1.0, grey())];
        let tree = BVHNode::new(&twins).unwrap();
        assert!(matches!(tree.left, BVHChild::Leaf(0)));
        assert!(matches!(tree.right, BVHChild::Leaf(1)));
        k += 1;
    }
}

#[test]
fn many_shapes_are_split_in_the_middle() {
    for &n in [3usize, 4, 5, 8, 13].iter() {
        let items = row_of_balls(n);
        let tree = BVHNode::new(&items).unwrap();
        let mut left = Vec::new();
        let mut right = Vec::new();
        leaves(&tree.left, &mut left);
        leaves(&tree.right, &mut right);
        assert!(matches!(tree.left, BVHChild::Node(_)));
        assert!(matches!(tree.right, BVHChild::Node(_)));
        left.sort();
        left.dedup();
        right.sort();
        right.dedup();
        assert_eq!(left.len(), n / 2);
        assert_eq!(right.len(), n - n / 2);
        let mut all = left.clone();
        all.extend(right.iter());
        all.sort();
        all.dedup();
        assert_eq!(all, (0..n).collect::<Vec<usize>>());
        // the box of the root holds the box of every sphere
        for b in items.iter() {
            let inner = b.bounding_box(s(0.0), s(0.0)).unwrap();
            assert!(tree.aabb.min().all_le(&inner.min()));
            assert!(inner.max().all_le(&tree.aabb.max()));
        }
    }
}

#[test]
fn compare_boxes_along_an_axis() {
    let a = ball([0.0, 5.0, 1.0], 1.0, grey());
    let b = ball([3.0, 2.0, 1.0], 1.0, grey());
    assert_eq!(box_compare(&a, &b, AxisIndexes::X).unwrap(), KeyOrder::Less);
    assert_eq!(box_compare(&a, &b, AxisIndexes::Y).unwrap(), KeyOrder::Greater);
    assert_eq!(box_compare(&a, &b, AxisIndexes::Z).unwrap(), KeyOrder::Equal);
    assert_eq!(AxisIndexes::X.index(), 0);
    assert_eq!(AxisIndexes::Y.index(), 1);
    assert_eq!(AxisIndexes::Z.index(), 2);
    assert_eq!(AxisIndexes::from_draw(0), AxisIndexes::X);
    assert_eq!(AxisIndexes::from_draw(1), AxisIndexes::Y);
    assert_eq!(AxisIndexes::from_draw(2), AxisIndexes::Z);
}

#[test]
fn a_random_axis_is_any_of_the_three() {
    let mut seen = [0usize; 3];
    let mut k = 0;
    while k < 600 {
        seen[AxisIndexes::random_axis().index()] += 1;
        k += 1;
    }
    assert!(seen[0] > 0 && seen[1] > 0 && seen[2] > 0);
    assert_eq!(seen[0] + seen[1] + seen[2], 600);
}

#[test]
fn world_builder() {
    let mut builder = World::builder();
    assert_eq!(builder.len(), 0);
    builder.add_object(ball([0.0, 1.0, 0.0], 1.0, grey()));
    builder.add_object(ball([-4.0, 1.0, 0.0], 1.0, grey()));
    builder.add_object(ball([4.0, 1.0, 0.0], 1.0, Material::Metal(Metal::default())));
    assert_eq!(builder.len(), 3);
    let world = builder.build();
    assert_eq!(world.objects().len(), 3);
    let r = ray([-10.0, 1.0, 0.0], [1.0, 0.0, 0.0]);
    let rec = world.hit(&r, s(0.0), s(f32::INFINITY), &slabs).unwrap();
    assert_eq!(f(rec.t), 5.0);
    assert_eq!(rec.point, v(-5.0, 1.0, 0.0));
    let tree = world.get_hittables();
    let rec = tree.hit(world.objects(), &r, s(5.5), s(f32::INFINITY), &slabs).unwrap();
    assert_eq!(f(rec.t), 7.0);
}

#[test]
fn a_world_without_shapes_is_refused() {
    let builder: raytracing_lib::world::WorldBuilder<Ball> = World::builder();
    match builder.try_build() {
        Ok(_) => panic!("a world without shapes"),
        Err(e) => assert_eq!(e, "Cannot build a BVH with an empty object list"),
    }
    let mut builder = World::builder();
    builder.add_object(Shapeless);
    match builder.try_build() {
        Ok(_) => panic!("a world of shapes without box"),
        Err(e) => assert_eq!(e, "No bounding box in BVH constructor"),
    }
}

fn background(r: &Ray) -> Vec3 {
    let d = arr(&r.direction);
    let len = f32::sqrt(dot(d, d));
    let t = 0.5 * (d[1] / len + 1.0);
    v(1.0 + t * (0.5 - 1.0), 1.0 + t * (0.7 - 1.0), 1.0 + t * (1.0 - 1.0))
}

fn attenuate(a: Vec3, c: Vec3) -> Vec3 {
    v(f(a.x) * f(c.x), f(a.y) * f(c.y), f(a.z) * f(c.z))
}

/// Scatters straight along the normal, whatever the material.
fn scatter_up(_r: &Ray, rec: &HitRecord) -> Option<Ray> {
    Some(Ray::new(rec.point, rec.normal))
}

fn absorb(_r: &Ray, _rec: &HitRecord) -> Option<Ray> {
    None
}

fn ground_and_ball() -> World<Ball> {
    let mut builder = World::builder();
    builder.add_object(ball([0.0, -1000.0, 0.0], 1000.0, Material::Diffuse(Diffuse::new(v(0.5, 0.5, 0.5)))));
    builder.add_object(ball([0.0, 0.5, 0.0], 0.5, Material::Metal(Metal::new(v(0.8, 0.6, 0.2), s(0.0)))));
    builder.build()
}

#[test]
fn colour_of_a_ray() {
    let world = ground_and_ball();
    let up = ray([0.0, 2.0, 0.0], [0.0, 1.0, 0.0]);
    let down = ray([5.0, 2.0, 0.0], [0.0, -1.0, 0.0]);
    // no bounce left: black
    assert_eq!(ray_color(&world, &up, 0, &slabs, &scatter_up, &attenuate, &background), v(0.0, 0.0, 0.0));
    // nothing hit: the background, here straight up
    assert_eq!(ray_color(&world, &up, 3, &slabs, &scatter_up, &attenuate, &background), v(0.5, 0.7, 1.0));
    // absorbed: black
    assert_eq!(ray_color(&world, &down, 3, &slabs, &absorb, &attenuate, &background), v(0.0, 0.0, 0.0));
    // scattered once from the top of the ball straight to the sky: the
    // albedo of the ball times the sky
    let onto_ball = ray([0.0, 2.0, 0.0], [0.0, -1.0, 0.0]);
    assert_eq!(
        ray_color(&world, &onto_ball, 2, &slabs, &scatter_up, &attenuate, &background),
        v(0.8 * 0.5, 0.6 * 0.7, 0.2 * 1.0)
    );
    // scattered, but the new ray has no bounce left
    assert_eq!(ray_color(&world, &down, 1, &slabs, &scatter_up, &attenuate, &background), v(0.0, 0.0, 0.0));
}

#[test]
fn a_pass_flips_the_rows() {
    let shade = |i: usize, j: usize| v(i as f32, j as f32, 0.5);
    let cv = compute_render(3, 2, &shade);
    assert_eq!(cv.get_dim(), (2, 3));
    assert_eq!(cv.layers(), 1);
    for j in 0..3usize {
        for i in 0..2usize {
            let row = 2 - j;
            assert_eq!(cv.sample(i, row, 0), s(i as f32));
            assert_eq!(cv.sample(i, row, 1), s(j as f32));
            assert_eq!(cv.sample(i, row, 2), s(0.5));
        }
    }
    let empty = compute_render(0, 5, &shade);
    assert_eq!(empty.layers(), 0);
    assert_eq!(empty.get_pixels().len(), 0);
}

#[test]
fn small_scene_end_to_end() {
    // a pinhole camera at (0, 1, 4) that looks along -z, over ground and ball
    let world = ground_and_ball();
    let origin = [0.0f32, 1.0, 4.0];
    let (width, height) = (2usize, 2usize);
    let shade = |i: usize, j: usize| {
        let u = (i as f32 + 0.5) / (width - 1) as f32 - 0.5;
        let w = (j as f32 + 0.25) / (height - 1) as f32 - 0.6;
        let r = ray(origin, [u * 2.0, w * 2.0, -1.0]);
        ray_color(&world, &r, 1, &slabs, &scatter_up, &attenuate, &background)
    };
    let cv = compute_render(height, width, &shade);
    let mut top = 0.0f32;
    let mut bottom = 0.0f32;
    for i in 0..width {
        for c in 0..3 {
            let upper = f(cv.sample(i, 0, c));
            let lower = f(cv.sample(i, height - 1, c));
            for x in [upper, lower] {
                assert!(x.is_finite() && x >= 0.0 && x <= 1.0);
            }
            top += upper;
            bottom += lower;
        }
    }
    // the upper row sees the sky, the lower row the ground, which one
    // bounce leaves black
    assert!(top > bottom);
    assert!(top > 3.0);
    assert_eq!(bottom, 0.0);
    // the one pass, merged and developed into the image
    let sum = |a: Scalar, b: Scalar| s(f(a) + f(b));
    let divide = |a: Scalar, n: usize| s(f(a) / n as f32);
    let root = |a: Scalar| s(f32::sqrt(f(a)));
    let mut agg = Aggregator::new(height, width, 1, false);
    assert!(agg.accepts(&cv));
    assert!(agg.absorb(cv, &sum, &divide, &root).is_none());
    let image = agg.finish(&divide, &root);
    let pixels = image.canvas().get_pixels();
    assert_eq!(pixels.len(), 4);
    for i in 0..width {
        let upper = pixels[i];
        let lower = pixels[width + i];
        assert!(upper.0 > 128 && upper.1 > 128 && upper.2 > 128);
        assert_eq!(lower, RGBPixel(0, 0, 0));
        for c in 0..3 {
            let x = f(image.canvas().sample(i, 0, c));
            assert!(x.is_finite() && x >= 0.0 && x <= 1.0);
        }
    }
}
