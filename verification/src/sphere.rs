//! Spheres.

use crate::fx::SCALE;
use crate::vec3::{Vec3, POS_LIM};
use vstd::prelude::*;

verus! {

#[derive(Clone, Copy, PartialEq, Eq, Structural, Debug)]
pub struct Sphere {
    pub center: Vec3,
    /// Strictly positive radius, in fixed point.
    pub radius: i64,
    /// Diffuse reflectance, each channel in `[0, SCALE]`.
    pub albedo: Vec3,
}

impl Sphere {
    pub open spec fn wf(self) -> bool {
        &&& self.center.in_range(POS_LIM as int)
        &&& 0 < self.radius <= POS_LIM
        &&& 0 <= self.albedo.x <= SCALE
        &&& 0 <= self.albedo.y <= SCALE
        &&& 0 <= self.albedo.z <= SCALE
    }

    /// Constructor; callers must not pass degenerate geometry.
    pub fn new(center: Vec3, radius: i64, albedo: Vec3) -> (s: Sphere)
        requires
            center.in_range(POS_LIM as int),
            0 < radius <= POS_LIM,
            0 <= albedo.x <= SCALE,
            0 <= albedo.y <= SCALE,
            0 <= albedo.z <= SCALE,
        ensures
            s == (Sphere { center, radius, albedo }),
            s.wf(),
    {
        Sphere { center, radius, albedo }
    }
}

} // verus!
