//! A CPU ray tracer over fixed-point arithmetic.
//!
//! Every geometric and color quantity is a signed 64-bit multiple of
//! `1 / fx::SCALE`, so the whole render pipeline — camera rays, ray/sphere
//! intersection, shading, buffer assembly — is exact integer arithmetic
//! with verified contracts. A host shell converts the finished buffer to
//! whatever the display wants.

pub mod camera;
pub mod fx;
pub mod frame;
pub mod intersect;
pub mod light;
pub mod renderer;
pub mod scene;
pub mod sphere;
pub mod vec3;
