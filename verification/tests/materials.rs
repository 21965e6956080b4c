use raytracing_lib::material::{Bounce, Dielectric, Diffuse, Material, Metal};
use raytracing_lib::material_atlas::MaterialAtlas;
use raytracing_lib::object::{Position, Sphere};
use raytracing_lib::scalar::Scalar;
use raytracing_lib::scene::{Color3, Geometry, NamedMaterial, Object, Point, Scene};
use raytracing_lib::vec3::{Ray, Vec3};

fn s(x: f32) -> Scalar {
    Scalar::from_bits(x.to_bits())
}

fn v(x: f32, y: f32, z: f32) -> Vec3 {
    Vec3::new(s(x), s(y), s(z))
}

fn schlick(cosine: f32, refraction_index: f32) -> f32 {
    let r0 = (1.0 - refraction_index) / (1.0 + refraction_index);
    let r0 = r0 * r0;
    r0 + (1.0 - r0) * f32::powi(1.0 - cosine, 5)
}

#[test]
fn defaults() {
    assert_eq!(Diffuse::default().albedo, v(0.5, 0.5, 0.5));
    assert_eq!(Metal::default().albedo, v(0.5, 0.5, 0.5));
    assert_eq!(Metal::default().fuziness, s(0.0));
    assert_eq!(Dielectric::default().refractive_index, s(0.5));
    assert_eq!(Dielectric::new(s(1.5)).albedo(), v(1.0, 1.0, 1.0));
}

#[test]
fn albedo_by_variant() {
    assert_eq!(Material::Diffuse(Diffuse::new(v(0.4, 0.2, 0.1))).albedo(), v(0.4, 0.2, 0.1));
    assert_eq!(Material::Metal(Metal::new(v(0.7, 0.6, 0.5), s(0.0))).albedo(), v(0.7, 0.6, 0.5));
    assert_eq!(Material::Dielectric(Dielectric::new(s(1.5))).albedo(), v(1.0, 1.0, 1.0));
}

#[test]
fn metal_fuzziness_is_clamped() {
    assert_eq!(Metal::new(v(1.0, 1.0, 1.0), s(0.3)).fuziness, s(0.3));
    assert_eq!(Metal::new(v(1.0, 1.0, 1.0), s(-2.0)).fuziness, s(0.0));
    assert_eq!(Metal::new(v(1.0, 1.0, 1.0), s(7.5)).fuziness, s(1.0));
    assert_eq!(Metal::new(v(1.0, 1.0, 1.0), s(1.0)).fuziness, s(1.0));
    assert_eq!(Metal::new(v(1.0, 1.0, 1.0), s(f32::NAN)).fuziness, s(0.0));
    assert_eq!(Metal::new(v(1.0, 1.0, 1.0), s(f32::INFINITY)).fuziness, s(1.0));
    for &x in [0.0f32, 0.1, 0.5, 0.99, 1.0, 1.5, -0.5].iter() {
        let want = f32::min(1.0, f32::max(0.0, x));
        assert_eq!(Metal::new(v(1.0, 1.0, 1.0), s(x)).fuziness, s(want));
    }
}

#[test]
fn diffuse_always_scatters() {
    let d = Diffuse::default();
    let out = d.scatter(v(1.0, 2.0, 3.0), v(0.0, 1.0, 0.0));
    assert_eq!(out, Some(Ray::new(v(1.0, 2.0, 3.0), v(0.0, 1.0, 0.0))));
}

#[test]
fn metal_scatters_only_away_from_the_surface() {
    let m = Metal::default();
    let p = v(0.0, 0.0, 0.0);
    let dir = v(0.0, 1.0, 0.0);
    assert_eq!(m.scatter(p, dir, s(0.25)), Some(Ray::new(p, dir)));
    assert_eq!(m.scatter(p, dir, s(0.0)), None);
    assert_eq!(m.scatter(p, dir, s(-0.0)), None);
    assert_eq!(m.scatter(p, dir, s(-0.25)), None);
    assert_eq!(m.scatter(p, dir, s(f32::NAN)), None);
}

#[test]
fn dielectric_decisions() {
    // total internal reflection
    assert_eq!(Dielectric::bounce(s(1.2), s(0.0), s(0.9)), Bounce::Reflect);
    // the draw favours reflection
    assert_eq!(Dielectric::bounce(s(0.5), s(0.3), s(0.2)), Bounce::Reflect);
    // otherwise the ray is refracted
    assert_eq!(Dielectric::bounce(s(0.5), s(0.3), s(0.3)), Bounce::Refract);
    assert_eq!(Dielectric::bounce(s(1.0), s(0.3), s(0.7)), Bounce::Refract);
    assert!(Dielectric::inverts_index(true));
    assert!(!Dielectric::inverts_index(false));
    let d = Dielectric::new(s(1.5));
    let p = v(0.0, 0.0, 0.0);
    let refl = v(0.0, 1.0, 0.0);
    let refr = v(0.0, -1.0, 0.0);
    assert_eq!(d.scatter(p, s(1.2), s(0.0), s(0.9), refl, refr), Some(Ray::new(p, refl)));
    assert_eq!(d.scatter(p, s(0.5), s(0.3), s(0.3), refl, refr), Some(Ray::new(p, refr)));
}

#[test]
fn index_one_transmits_a_head_on_ray() {
    // with a refractive index of 1 the reflectance at normal incidence is 0,
    // and no draw from [0, 1) lies below it
    let reflect_prob = schlick(1.0, 1.0);
    assert_eq!(reflect_prob, 0.0);
    let mut k = 0;
    while k < 1000 {
        let draw = k as f32 / 1000.0;
        assert_eq!(Dielectric::bounce(s(0.0), s(reflect_prob), s(draw)), Bounce::Refract);
        k += 1;
    }
}

#[test]
fn index_one_never_reflects_totally() {
    // the relative index is 1 on both faces, and a sine is at most 1
    let mut k = 0;
    while k <= 100 {
        let cos_theta = k as f32 / 100.0;
        let sin_theta = f32::sqrt(1.0 - cos_theta * cos_theta);
        let sine_ratio = 1.0 * sin_theta;
        // a draw at or above the reflectance transmits
        let reflect_prob = schlick(cos_theta, 1.0);
        assert_eq!(Dielectric::bounce(s(sine_ratio), s(reflect_prob), s(reflect_prob)), Bounce::Refract);
        k += 1;
    }
}

#[test]
fn atlas_starts_with_the_default_material() {
    let atlas = MaterialAtlas::default();
    assert_eq!(atlas.get_material("Default"), Some(Material::Diffuse(Diffuse::default())));
    assert_eq!(atlas.get_material("default"), None);
    assert_eq!(atlas.get_material(""), None);
    assert_eq!(MaterialAtlas::new().get_material("Default"), None);
}

#[test]
fn atlas_insert_and_get() {
    let mut atlas = MaterialAtlas::default();
    let glass = Material::Dielectric(Dielectric::new(s(1.5)));
    let gold = Material::Metal(Metal::new(v(0.8, 0.6, 0.2), s(0.1)));
    assert_eq!(atlas.insert_material("Large1", glass), None);
    assert_eq!(atlas.insert_material("Large3", gold), None);
    assert_eq!(atlas.get_material("Large1"), Some(glass));
    assert_eq!(atlas.get_material("Large3"), Some(gold));
    assert_eq!(atlas.get_material("Large2"), None);
    // a second insert under one name answers with the first and replaces it
    assert_eq!(atlas.insert_material("Large1", gold), Some(glass));
    assert_eq!(atlas.get_material("Large1"), Some(gold));
    assert_eq!(atlas.get_material("Large3"), Some(gold));
    assert_eq!(atlas.get_material("Default"), Some(Material::Diffuse(Diffuse::default())));
    assert_eq!(
        atlas.insert_material("Default", glass),
        Some(Material::Diffuse(Diffuse::default()))
    );
    assert_eq!(atlas.get_material("Default"), Some(glass));
}

#[test]
fn sphere_roots() {
    let z = s(0.0);
    let inf = s(f32::INFINITY);
    // both roots ahead: the nearer one
    assert_eq!(Sphere::select_root(s(4.0), s(1.0), s(3.0), z, inf), Some(s(1.0)));
    // the nearer root behind the start: the farther one
    assert_eq!(Sphere::select_root(s(4.0), s(-1.0), s(3.0), z, inf), Some(s(3.0)));
    // both behind
    assert_eq!(Sphere::select_root(s(4.0), s(-3.0), s(-1.0), z, inf), None);
    // no intersection at all, and the tangent case
    assert_eq!(Sphere::select_root(s(-1.0), s(1.0), s(3.0), z, inf), None);
    assert_eq!(Sphere::select_root(s(0.0), s(1.0), s(1.0), z, inf), None);
    // the ends of the interval do not count
    assert_eq!(Sphere::select_root(s(4.0), s(1.0), s(3.0), s(1.0), s(3.0)), None);
    assert_eq!(Sphere::select_root(s(4.0), s(1.0), s(3.0), s(1.0), s(3.5)), Some(s(3.0)));
    assert_eq!(Sphere::select_root(s(4.0), s(1.0), s(3.0), z, s(1.0)), None);
    assert_eq!(Sphere::select_root(s(f32::NAN), s(1.0), s(3.0), z, inf), None);
}

#[test]
fn sphere_position() {
    let ball = Sphere::new(v(1.0, 2.0, 3.0), s(0.5), Material::Diffuse(Diffuse::default()));
    assert_eq!(*ball.position(), v(1.0, 2.0, 3.0));
    assert_eq!(ball.radius, s(0.5));
}

fn sample_scene() -> Scene {
    Scene {
        objects: vec![
            Object {
                object_id: String::from("ground"),
                geometry: Geometry::Sphere {
                    center: Point(s(0.0), s(-1000.0), s(0.0)),
                    radius: s(1000.0),
                },
                material: String::from("GroundMat"),
            },
            Object {
                object_id: String::from("ball"),
                geometry: Geometry::Sphere { center: Point(s(0.0), s(0.5), s(0.0)), radius: s(0.5) },
                material: String::from("Shiny"),
            },
            Object {
                object_id: String::from("plain"),
                geometry: Geometry::Sphere { center: Point(s(2.0), s(0.5), s(0.0)), radius: s(0.5) },
                material: String::from("Default"),
            },
        ],
        materials: vec![
            NamedMaterial {
                name: String::from("GroundMat"),
                material: raytracing_lib::scene::Material::Diffuse {
                    albedo: Point(s(0.5), s(0.5), s(0.5)),
                },
            },
            NamedMaterial {
                name: String::from("Shiny"),
                material: raytracing_lib::scene::Material::Metal {
                    albedo: Point(s(0.7), s(0.6), s(0.5)),
                    fuziness: s(3.0),
                },
            },
            NamedMaterial {
                name: String::from("Glass"),
                material: raytracing_lib::scene::Material::Dielectric { refractive_index: s(1.5) },
            },
        ],
    }
}

#[test]
fn scene_turns_into_atlas_and_spheres() {
    let (atlas, spheres) = match Scene::try_from(sample_scene()) {
        Ok(pair) => pair,
        Err(e) => panic!("{}", e),
    };
    let shiny = Material::Metal(Metal { albedo: v(0.7, 0.6, 0.5), fuziness: s(1.0) });
    assert_eq!(atlas.get_material("Shiny"), Some(shiny));
    assert_eq!(atlas.get_material("Glass"), Some(Material::Dielectric(Dielectric::new(s(1.5)))));
    assert_eq!(atlas.get_material("Default"), Some(Material::Diffuse(Diffuse::default())));
    assert_eq!(atlas.get_material("Nothing"), None);
    assert_eq!(spheres.len(), 3);
    assert_eq!(
        spheres[0],
        Sphere::new(v(0.0, -1000.0, 0.0), s(1000.0), Material::Diffuse(Diffuse::new(v(0.5, 0.5, 0.5))))
    );
    assert_eq!(spheres[1], Sphere::new(v(0.0, 0.5, 0.0), s(0.5), shiny));
    assert_eq!(
        spheres[2],
        Sphere::new(v(2.0, 0.5, 0.0), s(0.5), Material::Diffuse(Diffuse::default()))
    );
}

#[test]
fn scene_with_an_unknown_material_is_refused() {
    let mut scene = sample_scene();
    scene.objects[1].material = String::from("Chrome");
    scene.objects[2].material = String::from("Brass");
    match Scene::try_from(scene) {
        Ok(_) => panic!("an unknown material was accepted"),
        Err(e) => assert_eq!(e, "Cannot find material Chrome"),
    }
}

#[test]
fn a_later_material_of_the_same_name_wins() {
    let mut scene = sample_scene();
    scene.materials.push(NamedMaterial {
        name: String::from("Shiny"),
        material: raytracing_lib::scene::Material::Dielectric { refractive_index: s(2.0) },
    });
    let atlas = scene.atlas();
    assert_eq!(atlas.get_material("Shiny"), Some(Material::Dielectric(Dielectric::new(s(2.0)))));
}

#[test]
fn colours_and_points_become_vectors() {
    assert_eq!(Color3(s(0.1), s(0.2), s(0.3)).to_vec3(), v(0.1, 0.2, 0.3));
    assert_eq!(Point(s(1.0), s(-2.0), s(3.0)).to_vec3(), v(1.0, -2.0, 3.0));
}

#[test]
fn index_one_reflects_a_grazing_ray_on_a_small_draw() {
    // away from normal incidence the reflectance is above zero even with a
    // refractive index of 1, and a draw below it reflects
    let cos_theta = 0.5f32;
    let reflect_prob = schlick(cos_theta, 1.0);
    assert_eq!(reflect_prob, 0.03125);
    let sin_theta = f32::sqrt(1.0 - cos_theta * cos_theta);
    assert_eq!(Dielectric::bounce(s(sin_theta), s(reflect_prob), s(0.01)), Bounce::Reflect);
    assert_eq!(Dielectric::bounce(s(sin_theta), s(reflect_prob), s(0.5)), Bounce::Refract);
}
