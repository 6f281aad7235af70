pub mod camera;
pub mod hittable;
pub mod material;
pub mod random;
pub mod ray;
pub mod render;
pub mod vec3;
