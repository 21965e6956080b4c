//! The verified core of a Monte-Carlo path tracer: bounding boxes, the
//! bounding-volume hierarchy, the accumulation canvas and the bookkeeping
//! of a progressive render.
pub mod aabb;
pub mod bvh;
pub mod camera;
pub mod canvas;
pub mod collision;
pub mod export;
pub mod material;
pub mod material_atlas;
pub mod object;
pub mod renderer;
pub mod scalar;
pub mod scene;
pub mod vec3;
pub mod world;
