//! Rays and pixel colors.

use crate::fx::SCALE;
use crate::vec3::{Vec3, VLIM};
use vstd::prelude::*;

verus! {

/// A ray: origin plus direction. The direction is unit length when the
/// ray was built with `new_normalize`; `new_preserve` stores it as given.
#[derive(Clone, Copy, PartialEq, Eq, Structural, Debug)]
pub struct Ray {
    pub origin: Vec3,
    pub direction: Vec3,
}

impl Ray {
    /// Builds a ray whose stored direction is `direction` scaled to unit
    /// length (the zero vector stays zero).
    pub fn new_normalize(origin: Vec3, direction: Vec3) -> (r: Ray)
        requires
            direction.in_range(VLIM as int),
        ensures
            r.origin == origin,
            r.direction == direction.normalize_spec(),
            r.direction.in_range(SCALE as int),
    {
        Ray { origin, direction: direction.normalize() }
    }

    /// Builds a ray that stores `direction` exactly as given.
    pub fn new_preserve(origin: Vec3, direction: Vec3) -> (r: Ray)
        ensures
            r.origin == origin,
            r.direction == direction,
    {
        Ray { origin, direction }
    }
}

/// A linear-RGBA pixel; channels are fixed-point values in `[0, SCALE]`.
#[derive(Clone, Copy, PartialEq, Eq, Structural, Debug)]
pub struct Rgba {
    pub r: i64,
    pub g: i64,
    pub b: i64,
    pub a: i64,
}

impl Rgba {
    /// Channels lie in the unit interval and the pixel is opaque.
    pub open spec fn wf(self) -> bool {
        0 <= self.r <= SCALE && 0 <= self.g <= SCALE && 0 <= self.b <= SCALE && self.a == SCALE
    }

    /// An opaque pixel from a color vector.
    pub open spec fn from_rgb_spec(v: Vec3) -> Rgba {
        Rgba { r: v.x, g: v.y, b: v.z, a: SCALE }
    }

    pub fn from_rgb(v: Vec3) -> (r: Rgba)
        ensures
            r == Rgba::from_rgb_spec(v),
    {
        Rgba { r: v.x, g: v.y, b: v.z, a: SCALE }
    }

    /// The background: black, fully opaque.
    pub open spec fn background_spec() -> Rgba {
        Rgba { r: 0, g: 0, b: 0, a: SCALE }
    }

    pub fn background() -> (r: Rgba)
        ensures
            r == Rgba::background_spec(),
            r.wf(),
    {
        Rgba { r: 0, g: 0, b: 0, a: SCALE }
    }
}

} // verus!
