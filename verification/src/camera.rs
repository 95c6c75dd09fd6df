//! The camera: pose, primary-ray generation, the per-frame buffer fill,
//! and keyboard-driven motion.
//!
//! A pixel `(row, col)` maps to the offsets `u = (col + 0.5)/W - 0.5` and
//! `v = 0.5 - (row + 0.5)/H` on a unit virtual plane at distance one, and
//! the primary ray direction is `normalize(F + u*right + v*up)` over an
//! orthonormal basis built from the forward vector. Every pixel of the
//! buffer is pinned to `pixel_spec`, a function of the camera, the scene
//! and the pixel coordinates alone, so any two renders agree.

use crate::fx;
use crate::fx::{fx_mul_spec, tdiv, SCALE};
use crate::intersect::hit_spec;
use crate::light::{shade_spec, Light};
use crate::renderer::{Ray, Rgba};
use crate::scene::{best_hit, lemma_query_nearest, Scene};
use crate::sphere::Sphere;
use crate::vec3::{lemma_cross_range, Vec3, POS_LIM};
use vstd::prelude::*;

verus! {

/// Cap on the camera forward vector's components: 10.0 in real units.
pub const DIR_LIM: i64 = 10_000_000_000;

/// Cap on the buffer dimensions.
pub const DIM_MAX: usize = 100_000;

/// One translation step: 0.1 in real units.
pub const MOVE_STEP: i64 = 100_000_000;

/// Cosine and sine of the 0.01 rad rotation step, in fixed point.
pub const ROT_COS: i64 = 999_950_000;

pub const ROT_SIN: i64 = 9_999_833;

/// Half of one, in fixed point.
pub const HALF: i64 = 500_000_000;

/// One key of the camera-motion snapshot.
#[derive(Clone, Copy, PartialEq, Eq, Structural, Debug)]
pub enum InputKey {
    W,
    S,
    A,
    D,
    Z,
    X,
    ArrowLeft,
    ArrowRight,
}

pub struct Camera {
    /// Pose: origin and (not necessarily unit) forward direction.
    pub location: Ray,
    pub width: usize,
    pub height: usize,
}

/// The orthonormal basis of a camera pose: forward, right, up.
/// World up is +z; when forward is parallel to it, +y stands in.
pub open spec fn basis_spec(dir: Vec3) -> (Vec3, Vec3, Vec3) {
    let fw = dir.normalize_spec();
    let c1 = fw.cross_spec(Vec3 { x: 0, y: 0, z: SCALE });
    let cr = if c1.x == 0 && c1.y == 0 && c1.z == 0 {
        fw.cross_spec(Vec3 { x: 0, y: SCALE, z: 0 })
    } else {
        c1
    };
    let right = cr.normalize_spec();
    let up = right.cross_spec(fw).normalize_spec();
    (fw, right, up)
}

/// The primary ray direction for pixel `(row, col)` of a `w x h` image.
pub open spec fn ray_dir_spec(
    fw: Vec3,
    right: Vec3,
    up: Vec3,
    col: int,
    row: int,
    w: int,
    h: int,
) -> Vec3 {
    let u = tdiv((2 * col + 1) * (SCALE as int), 2 * w) - HALF;
    let v = HALF - tdiv((2 * row + 1) * (SCALE as int), 2 * h);
    fw.add_spec(right.scale_spec(u)).add_spec(up.scale_spec(v)).normalize_spec()
}

/// The color of pixel `(row, col)`: shade of the nearest hit of the
/// pixel's primary ray, or the background. A function of the camera,
/// the scene and the coordinates alone.
pub open spec fn pixel_spec(
    cam: Camera,
    spheres: Seq<Sphere>,
    lights: Seq<Light>,
    row: int,
    col: int,
) -> Rgba {
    let b = basis_spec(cam.location.direction);
    let dir = ray_dir_spec(b.0, b.1, b.2, col, row, cam.width as int, cam.height as int);
    let ray = Ray { origin: cam.location.origin, direction: dir };
    match best_hit(spheres, ray) {
        Option::None => Rgba::background_spec(),
        Option::Some(p) => {
            let h = hit_spec(spheres[p.0], ray, p.1);
            shade_spec(h.sphere.albedo, h.point, h.normal, lights)
        },
    }
}

/// A clamped translation: steps that would leave the world box stay put.
pub open spec fn move_coord(c: int, delta: int) -> int {
    let n = c + delta;
    if n < -(POS_LIM as int) || n > POS_LIM as int {
        c
    } else {
        n
    }
}

/// Rotation of the direction's `(x, y)` by the angle whose cosine and
/// sine are `cosv` and `sinv`; `z` is untouched. A result out of range
/// leaves the direction unchanged.
pub open spec fn rotate_spec(dir: Vec3, cosv: int, sinv: int) -> Vec3 {
    let nx = fx_mul_spec(dir.x as int, cosv) - fx_mul_spec(dir.y as int, sinv);
    let ny = fx_mul_spec(dir.x as int, sinv) + fx_mul_spec(dir.y as int, cosv);
    if -(DIR_LIM as int) <= nx <= DIR_LIM as int && -(DIR_LIM as int) <= ny <= DIR_LIM as int {
        Vec3 { x: nx as i64, y: ny as i64, z: dir.z }
    } else {
        dir
    }
}

impl Camera {
    pub open spec fn wf(self) -> bool {
        &&& self.location.origin.in_range(POS_LIM as int)
        &&& self.location.direction.in_range(DIR_LIM as int)
        &&& self.width <= DIM_MAX
        &&& self.height <= DIM_MAX
    }

    /// The starting pose: origin `(-10, 0, 0)`, forward `(1, 0, 0)`.
    pub fn initial(width: usize, height: usize) -> (c: Camera)
        requires
            width <= DIM_MAX,
            height <= DIM_MAX,
        ensures
            c.wf(),
            c.location.origin == (Vec3 { x: -10_000_000_000i64, y: 0, z: 0 }),
            c.location.direction == (Vec3 { x: 1_000_000_000, y: 0, z: 0 }),
            c.width == width,
            c.height == height,
    {
        Camera {
            location: Ray {
                origin: Vec3 { x: -10_000_000_000, y: 0, z: 0 },
                direction: Vec3 { x: 1_000_000_000, y: 0, z: 0 },
            },
            width,
            height,
        }
    }

    /// The pose after one pressed key: axis-aligned translation steps of
    /// 0.1, or a 0.01 rad rotation of the forward direction about +z.
    pub open spec fn apply_key_spec(self, k: InputKey) -> Camera {
        let o = self.location.origin;
        let d = self.location.direction;
        match k {
            InputKey::W => self.with_origin(Vec3 { x: move_coord(o.x as int, MOVE_STEP as int) as i64, y: o.y, z: o.z }),
            InputKey::S => self.with_origin(Vec3 { x: move_coord(o.x as int, -(MOVE_STEP as int)) as i64, y: o.y, z: o.z }),
            InputKey::A => self.with_origin(Vec3 { x: o.x, y: move_coord(o.y as int, -(MOVE_STEP as int)) as i64, z: o.z }),
            InputKey::D => self.with_origin(Vec3 { x: o.x, y: move_coord(o.y as int, MOVE_STEP as int) as i64, z: o.z }),
            InputKey::Z => self.with_origin(Vec3 { x: o.x, y: o.y, z: move_coord(o.z as int, MOVE_STEP as int) as i64 }),
            InputKey::X => self.with_origin(Vec3 { x: o.x, y: o.y, z: move_coord(o.z as int, -(MOVE_STEP as int)) as i64 }),
            InputKey::ArrowLeft => self.with_direction(rotate_spec(d, ROT_COS as int, -(ROT_SIN as int))),
            InputKey::ArrowRight => self.with_direction(rotate_spec(d, ROT_COS as int, ROT_SIN as int)),
        }
    }

    pub open spec fn with_origin(self, o: Vec3) -> Camera {
        Camera {
            location: Ray { origin: o, direction: self.location.direction },
            width: self.width,
            height: self.height,
        }
    }

    pub open spec fn with_direction(self, d: Vec3) -> Camera {
        Camera {
            location: Ray { origin: self.location.origin, direction: d },
            width: self.width,
            height: self.height,
        }
    }

    /// Applies one pressed key to the pose; rotation never touches the
    /// forward `z`, translation never touches the direction.
    pub fn apply_key(&mut self, k: InputKey)
        requires
            old(self).wf(),
        ensures
            *final(self) == old(self).apply_key_spec(k),
            final(self).wf(),
            final(self).location.direction.z == old(self).location.direction.z,
            final(self).width == old(self).width,
            final(self).height == old(self).height,
    {
        match k {
            InputKey::W => self.move_x(MOVE_STEP),
            InputKey::S => self.move_x(-MOVE_STEP),
            InputKey::A => self.move_y(-MOVE_STEP),
            InputKey::D => self.move_y(MOVE_STEP),
            InputKey::Z => self.move_z(MOVE_STEP),
            InputKey::X => self.move_z(-MOVE_STEP),
            InputKey::ArrowLeft => self.rotate(ROT_COS, -ROT_SIN),
            InputKey::ArrowRight => self.rotate(ROT_COS, ROT_SIN),
        }
    }

    fn move_x(&mut self, delta: i64)
        requires
            old(self).wf(),
            -MOVE_STEP <= delta <= MOVE_STEP,
        ensures
            *final(self) == old(self).with_origin(
                Vec3 {
                    x: move_coord(old(self).location.origin.x as int, delta as int) as i64,
                    y: old(self).location.origin.y,
                    z: old(self).location.origin.z,
                },
            ),
            final(self).wf(),
    {
        let n = self.location.origin.x + delta;
        if !(n < -POS_LIM || n > POS_LIM) {
            self.location.origin.x = n;
        }
    }

    fn move_y(&mut self, delta: i64)
        requires
            old(self).wf(),
            -MOVE_STEP <= delta <= MOVE_STEP,
        ensures
            *final(self) == old(self).with_origin(
                Vec3 {
                    x: old(self).location.origin.x,
                    y: move_coord(old(self).location.origin.y as int, delta as int) as i64,
                    z: old(self).location.origin.z,
                },
            ),
            final(self).wf(),
    {
        let n = self.location.origin.y + delta;
        if !(n < -POS_LIM || n > POS_LIM) {
            self.location.origin.y = n;
        }
    }

    fn move_z(&mut self, delta: i64)
        requires
            old(self).wf(),
            -MOVE_STEP <= delta <= MOVE_STEP,
        ensures
            *final(self) == old(self).with_origin(
                Vec3 {
                    x: old(self).location.origin.x,
                    y: old(self).location.origin.y,
                    z: move_coord(old(self).location.origin.z as int, delta as int) as i64,
                },
            ),
            final(self).wf(),
    {
        let n = self.location.origin.z + delta;
        if !(n < -POS_LIM || n > POS_LIM) {
            self.location.origin.z = n;
        }
    }

    fn rotate(&mut self, cosv: i64, sinv: i64)
        requires
            old(self).wf(),
            -SCALE <= cosv <= SCALE,
            -SCALE <= sinv <= SCALE,
        ensures
            *final(self) == old(self).with_direction(
                rotate_spec(old(self).location.direction, cosv as int, sinv as int),
            ),
            final(self).wf(),
            final(self).location.direction.z == old(self).location.direction.z,
    {
        let d = self.location.direction;
        proof {
            fx::lemma_fx_mul_bound(d.x as int, cosv as int, DIR_LIM as int, SCALE as int, DIR_LIM as int);
            fx::lemma_fx_mul_bound(d.y as int, sinv as int, DIR_LIM as int, SCALE as int, DIR_LIM as int);
            fx::lemma_fx_mul_bound(d.x as int, sinv as int, DIR_LIM as int, SCALE as int, DIR_LIM as int);
            fx::lemma_fx_mul_bound(d.y as int, cosv as int, DIR_LIM as int, SCALE as int, DIR_LIM as int);
        }
        let nx = fx::fx_mul(d.x, cosv) - fx::fx_mul(d.y, sinv);
        let ny = fx::fx_mul(d.x, sinv) + fx::fx_mul(d.y, cosv);
        if -DIR_LIM <= nx && nx <= DIR_LIM && -DIR_LIM <= ny && ny <= DIR_LIM {
            self.location.direction.x = nx;
            self.location.direction.y = ny;
        }
    }

    /// Renders one frame: a buffer of `height` rows by `width` columns,
    /// each pixel pinned to `pixel_spec`. Zero dimensions yield an empty
    /// buffer (the camera refuses to render).
    pub fn create_buffer(&self, scene: &Scene) -> (r: Vec<Vec<Rgba>>)
        requires
            self.wf(),
            scene.wf(),
        ensures
            self.width == 0 || self.height == 0 ==> r@.len() == 0,
            self.width > 0 && self.height > 0 ==> {
                &&& r@.len() == self.height
                &&& forall|i: int| 0 <= i < self.height ==> #[trigger] r@[i]@.len() == self.width
                &&& forall|i: int, j: int|
                    0 <= i < self.height && 0 <= j < self.width ==> #[trigger] r@[i]@[j]
                        == pixel_spec(*self, scene.spheres@, scene.lights@, i, j)
            },
    {
        if self.width == 0 || self.height == 0 {
            return Vec::new();
        }
        let fw = self.location.direction.normalize();
        let c1 = fw.cross(Vec3 { x: 0, y: 0, z: SCALE });
        proof {
            lemma_cross_range(
                fw,
                Vec3 { x: 0, y: 0, z: SCALE },
                SCALE as int,
                SCALE as int,
                2 * SCALE as int,
            );
            lemma_cross_range(
                fw,
                Vec3 { x: 0, y: SCALE, z: 0 },
                SCALE as int,
                SCALE as int,
                2 * SCALE as int,
            );
        }
        let cr = if c1.x == 0 && c1.y == 0 && c1.z == 0 {
            fw.cross(Vec3 { x: 0, y: SCALE, z: 0 })
        } else {
            c1
        };
        let right = cr.normalize();
        let upr = right.cross(fw);
        proof {
            lemma_cross_range(right, fw, SCALE as int, SCALE as int, 2 * SCALE as int);
        }
        let up = upr.normalize();
        proof {
            assert(basis_spec(self.location.direction) == (fw, right, up));
        }
        let mut buf: Vec<Vec<Rgba>> = Vec::new();
        let mut row: usize = 0;
        while row < self.height
            invariant
                self.wf(),
                scene.wf(),
                1 <= self.width <= DIM_MAX,
                1 <= self.height <= DIM_MAX,
                (fw, right, up) == basis_spec(self.location.direction),
                fw.in_range(SCALE as int),
                right.in_range(SCALE as int),
                up.in_range(SCALE as int),
                0 <= row <= self.height,
                buf@.len() == row,
                forall|i: int| 0 <= i < row ==> #[trigger] buf@[i]@.len() == self.width,
                forall|i: int, j: int|
                    0 <= i < row && 0 <= j < self.width ==> #[trigger] buf@[i]@[j] == pixel_spec(
                        *self,
                        scene.spheres@,
                        scene.lights@,
                        i,
                        j,
                    ),
            decreases self.height - row,
        {
            let mut line: Vec<Rgba> = Vec::new();
            let mut col: usize = 0;
            while col < self.width
                invariant
                    self.wf(),
                    scene.wf(),
                    1 <= self.width <= DIM_MAX,
                    1 <= self.height <= DIM_MAX,
                    (fw, right, up) == basis_spec(self.location.direction),
                    fw.in_range(SCALE as int),
                    right.in_range(SCALE as int),
                    up.in_range(SCALE as int),
                    0 <= row < self.height,
                    0 <= col <= self.width,
                    line@.len() == col,
                    forall|j: int|
                        0 <= j < col ==> #[trigger] line@[j] == pixel_spec(
                            *self,
                            scene.spheres@,
                            scene.lights@,
                            row as int,
                            j,
                        ),
                decreases self.width - col,
            {
                let p = self.render_pixel(scene, fw, right, up, row, col);
                line.push(p);
                col = col + 1;
            }
            buf.push(line);
            row = row + 1;
        }
        buf
    }

    /// One pixel: primary ray, nearest hit, shade or background.
    fn render_pixel(&self, scene: &Scene, fw: Vec3, right: Vec3, up: Vec3, row: usize, col: usize) -> (p: Rgba)
        requires
            self.wf(),
            scene.wf(),
            (fw, right, up) == basis_spec(self.location.direction),
            fw.in_range(SCALE as int),
            right.in_range(SCALE as int),
            up.in_range(SCALE as int),
            1 <= self.width <= DIM_MAX,
            1 <= self.height <= DIM_MAX,
            row < self.height,
            col < self.width,
        ensures
            p == pixel_spec(*self, scene.spheres@, scene.lights@, row as int, col as int),
    {
        let dir = ray_dir(fw, right, up, col, row, self.width, self.height);
        let ray = Ray { origin: self.location.origin, direction: dir };
        proof {
            lemma_query_nearest(scene.spheres@, ray);
        }
        match scene.query(&ray) {
            None => Rgba::background(),
            Some(h) => {
                proof {
                    let p = best_hit(scene.spheres@, ray)->Some_0;
                    assert(scene.spheres@[p.0].wf());
                }
                crate::light::shade(h.sphere.albedo, h.point, h.normal, &scene.lights)
            },
        }
    }
}

/// Computes the primary ray direction; exact mirror of `ray_dir_spec`.
pub fn ray_dir(fw: Vec3, right: Vec3, up: Vec3, col: usize, row: usize, w: usize, h: usize) -> (r:
    Vec3)
    requires
        fw.in_range(SCALE as int),
        right.in_range(SCALE as int),
        up.in_range(SCALE as int),
        1 <= w <= DIM_MAX,
        1 <= h <= DIM_MAX,
        col < w,
        row < h,
    ensures
        r == ray_dir_spec(fw, right, up, col as int, row as int, w as int, h as int),
        r.in_range(SCALE as int),
{
    let cnum = fx::prod(2 * (col as i64) + 1, SCALE);
    let rnum = fx::prod(2 * (row as i64) + 1, SCALE);
    proof {
        fx::lemma_tdiv_bound(cnum as int, 2 * (w as int), SCALE as int);
        fx::lemma_tdiv_nonneg(cnum as int, 2 * (w as int));
        fx::lemma_tdiv_bound(rnum as int, 2 * (h as int), SCALE as int);
        fx::lemma_tdiv_nonneg(rnum as int, 2 * (h as int));
    }
    let u = fx::tdiv128(cnum, 2 * (w as i128)) - HALF;
    let v = HALF - fx::tdiv128(rnum, 2 * (h as i128));
    proof {
        fx::lemma_fx_mul_bound(right.x as int, u as int, SCALE as int, SCALE as int, SCALE as int);
        fx::lemma_fx_mul_bound(right.y as int, u as int, SCALE as int, SCALE as int, SCALE as int);
        fx::lemma_fx_mul_bound(right.z as int, u as int, SCALE as int, SCALE as int, SCALE as int);
        fx::lemma_fx_mul_bound(up.x as int, v as int, SCALE as int, SCALE as int, SCALE as int);
        fx::lemma_fx_mul_bound(up.y as int, v as int, SCALE as int, SCALE as int, SCALE as int);
        fx::lemma_fx_mul_bound(up.z as int, v as int, SCALE as int, SCALE as int, SCALE as int);
    }
    let du = right.scale(u);
    let dv = up.scale(v);
    fw.add(du).add(dv).normalize()
}

/// Two full renders of one camera and scene agree pixel for pixel:
/// every pixel is a function of the camera, the scene and its own
/// coordinates alone, never of another pixel or of any visit order.
pub proof fn lemma_pixel_independence(
    cam: Camera,
    spheres: Seq<Sphere>,
    lights: Seq<Light>,
    b1: Seq<Vec<Rgba>>,
    b2: Seq<Vec<Rgba>>,
)
    requires
        b1.len() == cam.height,
        b2.len() == cam.height,
        forall|i: int, j: int|
            0 <= i < cam.height && 0 <= j < cam.width ==> #[trigger] b1[i]@[j] == pixel_spec(
                cam,
                spheres,
                lights,
                i,
                j,
            ),
        forall|i: int, j: int|
            0 <= i < cam.height && 0 <= j < cam.width ==> #[trigger] b2[i]@[j] == pixel_spec(
                cam,
                spheres,
                lights,
                i,
                j,
            ),
    ensures
        forall|i: int, j: int|
            0 <= i < cam.height && 0 <= j < cam.width ==> #[trigger] b1[i]@[j] == #[trigger] b2[i]@[j],
{
}

} // verus!
