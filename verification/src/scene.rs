//! The description of a scene, as a file holds it, and what it turns into:
//! an atlas of materials and the spheres that refer to them.
use crate::material::{grey, Dielectric, Diffuse, Metal, HALF_BITS};
use crate::material_atlas::{default_name, MaterialAtlas};
use crate::object::Sphere;
use crate::scalar::Scalar;
use crate::vec3::Vec3;
use vstd::prelude::*;

verus! {

/// A colour as three numbers.
#[derive(Clone, Copy, Debug, PartialEq, Eq, Structural)]
pub struct Color3(pub Scalar, pub Scalar, pub Scalar);

/// A point as three numbers.
#[derive(Clone, Copy, Debug, PartialEq, Eq, Structural)]
pub struct Point(pub Scalar, pub Scalar, pub Scalar);

impl Color3 {
    /// The colour as a vector.
    pub open spec fn vec3_spec(self) -> Vec3 {
        Vec3 { x: self.0, y: self.1, z: self.2 }
    }

    pub fn to_vec3(self) -> (v: Vec3)
        ensures
            v == self.vec3_spec(),
    {
        Vec3::new(self.0, self.1, self.2)
    }
}

impl Point {
    /// The point as a vector.
    pub open spec fn vec3_spec(self) -> Vec3 {
        Vec3 { x: self.0, y: self.1, z: self.2 }
    }

    pub fn to_vec3(self) -> (v: Vec3)
        ensures
            v == self.vec3_spec(),
    {
        Vec3::new(self.0, self.1, self.2)
    }
}

/// The shape of an object.
#[derive(Clone, Copy, Debug, PartialEq, Eq, Structural)]
pub enum Geometry {
    Sphere { center: Point, radius: Scalar },
}

/// An object of the scene: a shape and the name of its material.
pub struct Object {
    pub object_id: String,
    pub geometry: Geometry,
    pub material: String,
}

/// A material as the scene describes it.
#[derive(Clone, Copy, Debug, PartialEq, Eq, Structural)]
pub enum Material {
    Dielectric { refractive_index: Scalar },
    Diffuse { albedo: Point },
    Metal { albedo: Point, fuziness: Scalar },
}

/// A material of the scene under its name.
pub struct NamedMaterial {
    pub name: String,
    pub material: Material,
}

/// A scene: its objects, and its materials by name.
pub struct Scene {
    pub objects: Vec<Object>,
    pub materials: Vec<NamedMaterial>,
}

impl Material {
    /// The material that the description stands for. The fuzziness of a
    /// metal is brought into `[0, 1]`.
    pub open spec fn realize_spec(self) -> crate::material::Material {
        match self {
            Material::Dielectric { refractive_index } => crate::material::Material::Dielectric(
                Dielectric { refractive_index },
            ),
            Material::Diffuse { albedo } => crate::material::Material::Diffuse(
                Diffuse { albedo: albedo.vec3_spec() },
            ),
            Material::Metal { albedo, fuziness } => crate::material::Material::Metal(
                Metal {
                    albedo: albedo.vec3_spec(),
                    fuziness: crate::material::clamp_unit(fuziness),
                },
            ),
        }
    }

    pub fn realize(self) -> (m: crate::material::Material)
        ensures
            m == self.realize_spec(),
    {
        match self {
            Material::Dielectric { refractive_index } => crate::material::Material::Dielectric(
                Dielectric::new(refractive_index),
            ),
            Material::Diffuse { albedo } => crate::material::Material::Diffuse(
                Diffuse::new(albedo.to_vec3()),
            ),
            Material::Metal { albedo, fuziness } => crate::material::Material::Metal(
                Metal::new(albedo.to_vec3(), fuziness),
            ),
        }
    }
}

/// What a name stands for once the first `n` materials of a scene are in
/// the atlas: the last of them with that name, or else what the atlas
/// started with.
pub open spec fn named_after(
    materials: Seq<NamedMaterial>,
    n: int,
    name: Seq<char>,
) -> Option<crate::material::Material>
    decreases n,
{
    if n <= 0 {
        if name == default_name() {
            Some(crate::material::Material::Diffuse(Diffuse { albedo: grey(HALF_BITS) }))
        } else {
            None
        }
    } else if materials[n - 1].name@ == name {
        Some(materials[n - 1].material.realize_spec())
    } else {
        named_after(materials, n - 1, name)
    }
}

/// The text of the error for a material that the scene does not name.
pub open spec fn missing_message(name: Seq<char>) -> Seq<char> {
    "Cannot find material "@ + name
}

impl Geometry {
    /// The sphere of the geometry, with the given material.
    pub open spec fn sphere_spec(self, material: crate::material::Material) -> Sphere {
        match self {
            Geometry::Sphere { center, radius } => Sphere {
                center: center.vec3_spec(),
                radius,
                material,
            },
        }
    }
}

impl Scene {
    /// The atlas of the scene: the default material and every material of
    /// the scene under its name.
    pub fn atlas(&self) -> (atlas: MaterialAtlas)
        ensures
            forall|name: Seq<char>|
                atlas.get_spec(name) == named_after(
                    self.materials@,
                    self.materials@.len() as int,
                    name,
                ),
    {
        let mut atlas = MaterialAtlas::default();
        let mut k: usize = 0;
        while k < self.materials.len()
            invariant
                k <= self.materials@.len(),
                forall|name: Seq<char>|
                    atlas.get_spec(name) == named_after(self.materials@, k as int, name),
            decreases self.materials@.len() - k,
        {
            let named = &self.materials[k];
            atlas.insert_material(named.name.as_str(), named.material.realize());
            k = k + 1;
        }
        atlas
    }

    /// The spheres of the scene, each with the material that its name
    /// stands for in the atlas. It fails at the first object whose material
    /// the atlas does not hold.
    pub fn spheres(&self, atlas: &MaterialAtlas) -> (out: Result<Vec<Sphere>, String>)
        ensures
            match out {
                Ok(spheres) => {
                    &&& spheres@.len() == self.objects@.len()
                    &&& forall|k: int|
                        0 <= k < self.objects@.len() ==> {
                            &&& atlas.get_spec(
                                (#[trigger] self.objects@[k]).material@,
                            ) matches Some(m)
                            &&& spheres@[k] == self.objects@[k].geometry.sphere_spec(m)
                        }
                },
                Err(e) => exists|k: int|
                    {
                        &&& 0 <= k < self.objects@.len()
                        &&& atlas.get_spec((#[trigger] self.objects@[k]).material@) is None
                        &&& e@ == missing_message(self.objects@[k].material@)
                        &&& forall|j: int|
                            0 <= j < k ==> atlas.get_spec(
                                (#[trigger] self.objects@[j]).material@,
                            ) is Some
                    },
            },
    {
        let mut spheres: Vec<Sphere> = Vec::new();
        let mut k: usize = 0;
        while k < self.objects.len()
            invariant
                k <= self.objects@.len(),
                spheres@.len() == k,
                forall|j: int|
                    0 <= j < k ==> {
                        &&& atlas.get_spec((#[trigger] self.objects@[j]).material@) matches Some(m)
                        &&& spheres@[j] == self.objects@[j].geometry.sphere_spec(m)
                    },
            decreases self.objects@.len() - k,
        {
            let object = &self.objects[k];
            match atlas.get_material(object.material.as_str()) {
                Some(material) => {
                    match object.geometry {
                        Geometry::Sphere { center, radius } => {
                            spheres.push(Sphere::new(center.to_vec3(), radius, material));
                        },
                    }
                },
                None => {
                    let message = String::from_str("Cannot find material ").concat(
                        object.material.as_str(),
                    );
                    return Err(message);
                },
            }
            k = k + 1;
        }
        Ok(spheres)
    }

    /// The atlas and the spheres of the scene.
    pub fn try_from(scene: Scene) -> (out: Result<(MaterialAtlas, Vec<Sphere>), String>)
        ensures
            match out {
                Ok((atlas, spheres)) => {
                    &&& forall|name: Seq<char>|
                        atlas.get_spec(name) == named_after(
                            scene.materials@,
                            scene.materials@.len() as int,
                            name,
                        )
                    &&& spheres@.len() == scene.objects@.len()
                    &&& forall|k: int|
                        0 <= k < scene.objects@.len() ==> {
                            &&& named_after(
                                scene.materials@,
                                scene.materials@.len() as int,
                                (#[trigger] scene.objects@[k]).material@,
                            ) matches Some(m)
                            &&& spheres@[k] == scene.objects@[k].geometry.sphere_spec(m)
                        }
                },
                Err(e) => exists|k: int|
                    {
                        &&& 0 <= k < scene.objects@.len()
                        &&& named_after(
                            scene.materials@,
                            scene.materials@.len() as int,
                            (#[trigger] scene.objects@[k]).material@,
                        ) is None
                        &&& e@ == missing_message(scene.objects@[k].material@)
                        &&& forall|j: int|
                            0 <= j < k ==> named_after(
                                scene.materials@,
                                scene.materials@.len() as int,
                                (#[trigger] scene.objects@[j]).material@,
                            ) is Some
                    },
            },
    {
        let atlas = scene.atlas();
        match scene.spheres(&atlas) {
            Ok(spheres) => Ok((atlas, spheres)),
            Err(e) => Err(e),
        }
    }
}

} // verus!
