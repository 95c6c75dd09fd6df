//! Ray/sphere intersection.
//!
//! Solves `|O + tD - C|^2 = r^2` in fixed point: with `L = O - C` the
//! coefficients are `a = D.D`, `b = 2 L.D`, `c = L.L - r^2` and the
//! discriminant `b^2 - 4ac` decides. The smallest root above `EPS` (and
//! within the far cutoff `T_FAR`) is the hit parameter. Degenerate input
//! (a zero direction, a negative discriminant) is a miss.

use crate::fx;
use crate::fx::{fx_mul_spec, sqrt_floor, tdiv, SCALE};
use crate::renderer::Ray;
use crate::sphere::Sphere;
use crate::vec3::{lemma_dot_bound, lemma_dot_self_nonneg, Vec3, POS_LIM};
use vstd::prelude::*;

verus! {

/// Hits at parameters this close to the origin are ignored.
pub const EPS: i64 = 100_000;

/// Far cutoff on the hit parameter; anything beyond is a miss.
pub const T_FAR: i64 = 10_000_000_000_000;

/// Largest direction-component magnitude a scene query accepts
/// (camera rays are unit length, well inside).
pub const DIR_RANGE: i64 = 2_000_000_000;

/// Largest component magnitude of a hit point built from in-range input.
pub const PT_LIM: i64 = 21_000_000_000_000;

/// The hit parameter of a ray against a sphere, or `None` on a miss.
pub open spec fn hit_t_spec(s: Sphere, ray: Ray) -> Option<int> {
    let a = ray.direction.dot_spec(ray.direction);
    let l = ray.origin.sub_spec(s.center);
    let b = 2 * l.dot_spec(ray.direction);
    let c = l.dot_spec(l) - fx_mul_spec(s.radius as int, s.radius as int);
    let delta = b * b - 4 * (a * c);
    if a <= 0 || delta < 0 {
        None
    } else {
        let q = sqrt_floor(delta as nat) as int;
        let t0 = tdiv((-b - q) * (SCALE as int), 2 * a);
        let t1 = tdiv((-b + q) * (SCALE as int), 2 * a);
        if EPS < t0 && t0 <= T_FAR {
            Some(t0)
        } else if EPS < t1 && t1 <= T_FAR {
            Some(t1)
        } else {
            None
        }
    }
}

/// Computes the hit parameter; exact mirror of `hit_t_spec`.
pub fn intersect(s: &Sphere, ray: &Ray) -> (r: Option<i64>)
    requires
        s.wf(),
        ray.origin.in_range(POS_LIM as int),
        ray.direction.in_range(DIR_RANGE as int),
    ensures
        match r {
            Some(t) => hit_t_spec(*s, *ray) == Some(t as int) && EPS < t <= T_FAR,
            None => hit_t_spec(*s, *ray) is None,
        },
{
    let a = ray.direction.dot(ray.direction);
    let l = ray.origin.sub(s.center);
    let b_half = l.dot(ray.direction);
    let ll = l.dot(l);
    let rr = fx::fx_mul(s.radius, s.radius);
    proof {
        lemma_dot_bound(ray.direction, ray.direction, DIR_RANGE as int, DIR_RANGE as int, 12_000_000_000);
        lemma_dot_self_nonneg(ray.direction);
        lemma_dot_bound(l, ray.direction, 2 * POS_LIM as int, DIR_RANGE as int, 12_000_000_000_000);
        lemma_dot_bound(l, l, 2 * POS_LIM as int, 2 * POS_LIM as int, 12_000_000_000_000_000);
        lemma_dot_self_nonneg(l);
        fx::lemma_fx_mul_bound(
            s.radius as int,
            s.radius as int,
            POS_LIM as int,
            POS_LIM as int,
            1_000_000_000_000_000,
        );
        fx::lemma_fx_mul_nonneg(s.radius as int, s.radius as int);
    }
    let b = 2 * b_half;
    let c = ll - rr;
    let pbb = fx::prod(b, b);
    let pac = fx::prod(a, c);
    proof {
        fx::lemma_prod_bound(b as int, b as int, 24_000_000_000_000, 24_000_000_000_000);
        fx::lemma_prod_bound(a as int, c as int, 12_000_000_000, 13_000_000_000_000_000);
    }
    let delta: i128 = pbb - 4 * pac;
    if a <= 0 || delta < 0 {
        return None;
    }
    let q64 = fx::isqrt(delta as u128);
    proof {
        fx::lemma_sqrt_floor(delta as nat);
        assert(q64 as int <= 35_000_000_000_000) by (nonlinear_arith)
            requires
                (q64 as nat) * (q64 as nat) <= 1_200_000_000_000_000_000_000_000_000nat;
    }
    let q = q64 as i64;
    let two_a: i128 = 2 * (a as i128);
    proof {
        fx::lemma_prod_bound((-b - q) as int, SCALE as int, 60_000_000_000_000, SCALE as int);
        fx::lemma_prod_bound((-b + q) as int, SCALE as int, 60_000_000_000_000, SCALE as int);
    }
    let t0 = fx::tdiv128w(fx::prod(-b - q, SCALE), two_a);
    if t0 > EPS as i128 && t0 <= T_FAR as i128 {
        return Some(t0 as i64);
    }
    let t1 = fx::tdiv128w(fx::prod(-b + q, SCALE), two_a);
    if t1 > EPS as i128 && t1 <= T_FAR as i128 {
        return Some(t1 as i64);
    }
    None
}

/// A ray fired straight at a sphere's center from outside hits at
/// parameter `t` within one unit of the exact distance `|O - C| - r`,
/// and the hit's normal is exactly the unit vector pointing back at the
/// ray, away from the center.
pub proof fn lemma_head_on_hit(s: Sphere, ray: Ray)
    requires
        s.wf(),
        s.radius >= SCALE,
        ray.origin.in_range(POS_LIM as int),
        ray.direction == (Vec3 { x: SCALE, y: 0, z: 0 }),
        ray.origin.y == s.center.y,
        ray.origin.z == s.center.z,
        ray.origin.x < s.center.x - s.radius - 2 * EPS,
    ensures
        hit_t_spec(s, ray) is Some,
        ({
            let d0 = s.center.x - ray.origin.x;
            let t = hit_t_spec(s, ray)->Some_0;
            &&& d0 - s.radius <= t <= d0 - s.radius + 1
            &&& hit_spec(s, ray, t).normal == (Vec3 { x: (-SCALE) as i64, y: 0, z: 0 })
        }),
{
    let sc = SCALE as int;
    let rad = s.radius as int;
    let lx = ray.origin.x - s.center.x;
    let d0 = -lx;
    let a = ray.direction.dot_spec(ray.direction);
    assert(a == tdiv(sc * sc, sc));
    vstd::arithmetic::div_mod::lemma_div_multiples_vanish(sc, sc);
    assert(a == sc);
    let l = ray.origin.sub_spec(s.center);
    assert(l == (Vec3 { x: lx as i64, y: 0, z: 0 }));
    let bh = l.dot_spec(ray.direction);
    assert(lx * sc + 0 * 0 + 0 * 0 == lx * sc) by (nonlinear_arith);
    assert(bh == tdiv(lx * sc, sc));
    assert(-(lx * sc) == sc * (-lx)) by (nonlinear_arith);
    vstd::arithmetic::div_mod::lemma_div_multiples_vanish(-lx, sc);
    assert(bh == lx);
    let b = 2 * bh;
    // c = floor(lx^2 / S) - floor(r^2 / S), with remainders e1 and e2
    let ll = l.dot_spec(l);
    assert(lx * lx + 0 * 0 + 0 * 0 == lx * lx) by (nonlinear_arith);
    assert(ll == tdiv(lx * lx, sc));
    assert(lx * lx >= 0) by (nonlinear_arith);
    assert(rad * rad >= sc * sc > 0) by (nonlinear_arith)
        requires
            rad >= sc,
            sc == SCALE as int;
    vstd::arithmetic::div_mod::lemma_fundamental_div_mod(lx * lx, sc);
    vstd::arithmetic::div_mod::lemma_mod_division_less_than_divisor(lx * lx, sc);
    vstd::arithmetic::div_mod::lemma_fundamental_div_mod(rad * rad, sc);
    vstd::arithmetic::div_mod::lemma_mod_division_less_than_divisor(rad * rad, sc);
    vstd::arithmetic::div_mod::lemma_div_pos_is_pos(lx * lx, sc);
    vstd::arithmetic::div_mod::lemma_div_pos_is_pos(rad * rad, sc);
    let e1 = (lx * lx) % sc;
    let e2 = (rad * rad) % sc;
    let c = ll - fx_mul_spec(rad, rad);
    assert(sc * c == lx * lx - e1 - (rad * rad - e2)) by (nonlinear_arith)
        requires
            lx * lx == sc * ((lx * lx) / sc) + e1,
            rad * rad == sc * ((rad * rad) / sc) + e2,
            c == (lx * lx) / sc - (rad * rad) / sc;
    let delta = b * b - 4 * (a * c);
    assert(delta == 4 * (rad * rad) + 4 * e1 - 4 * e2) by (nonlinear_arith)
        requires
            b == 2 * lx,
            a == sc,
            sc * c == lx * lx - (rad * rad) - e1 + e2,
            delta == b * b - 4 * (a * c);
    assert(delta > 0);
    // bracket the discriminant's square root between 2r - 2 and 2r
    let q = sqrt_floor(delta as nat) as int;
    fx::lemma_sqrt_floor(delta as nat);
    assert(delta < (2 * rad + 1) * (2 * rad + 1)) by (nonlinear_arith)
        requires
            delta <= 4 * (rad * rad) + 4 * e1 - 4 * e2,
            0 <= e1 < sc,
            0 <= e2,
            rad >= sc,
            sc == SCALE as int;
    assert((2 * rad - 2) * (2 * rad - 2) <= delta) by (nonlinear_arith)
        requires
            delta >= 4 * (rad * rad) + 4 * e1 - 4 * e2,
            0 <= e1,
            0 <= e2 < sc,
            rad >= sc,
            sc == SCALE as int;
    assert(q <= 2 * rad) by (nonlinear_arith)
        requires
            q * q <= delta,
            delta < (2 * rad + 1) * (2 * rad + 1),
            q >= 0,
            rad >= 1;
    assert(q >= 2 * rad - 2) by (nonlinear_arith)
        requires
            delta < (q + 1) * (q + 1),
            (2 * rad - 2) * (2 * rad - 2) <= delta,
            q >= 0,
            rad >= 1;
    // the smaller root: floor((2 d0 - q) / 2), within one of d0 - r
    let m = -b - q;
    assert(m == 2 * d0 - q);
    let t0 = tdiv(m * sc, 2 * a);
    lemma_half_scale(m);
    assert(t0 == m / 2);
    assert(d0 - rad <= t0 <= d0 - rad + 1) by (nonlinear_arith)
        requires
            t0 == m / 2,
            m == 2 * d0 - q,
            2 * rad - 2 <= q <= 2 * rad,
            m == 2 * (m / 2) + m % 2,
            0 <= m % 2 < 2;
    vstd::arithmetic::div_mod::lemma_fundamental_div_mod(m, 2);
    vstd::arithmetic::div_mod::lemma_mod_division_less_than_divisor(m, 2);
    assert(EPS < t0 <= T_FAR);
    assert(hit_t_spec(s, ray) == Some(t0));
    // the hit point is (O.x + t, O.y, O.z) exactly, and the normal
    // collapses to (-1, 0, 0)
    let t = t0;
    vstd::arithmetic::div_mod::lemma_div_multiples_vanish(t, sc);
    assert(sc * t == t * sc) by (nonlinear_arith);
    assert(fx_mul_spec(sc, t) == t);
    assert(0 * t == 0) by (nonlinear_arith);
    assert(fx_mul_spec(0, t) == 0) by {
        vstd::arithmetic::div_mod::lemma_div_of0(sc);
    }
    let point = ray.origin.add_spec(ray.direction.scale_spec(t));
    assert(point == (Vec3 {
        x: (ray.origin.x + t) as i64,
        y: ray.origin.y,
        z: ray.origin.z,
    }));
    let pc = point.sub_spec(s.center);
    let w = d0 - t;
    assert(rad - 1 <= w <= rad);
    assert(pc == (Vec3 { x: (-w) as i64, y: 0, z: 0 }));
    assert((-w) * (-w) == w * w && (-w) * (-w) + 0 * 0 + 0 * 0 == w * w && w * w < (w + 1) * (w
        + 1)) by (nonlinear_arith)
        requires
            w >= 1;
    assert(pc.norm2_spec() == w * w);
    fx::lemma_sqrt_floor_unique((w * w) as nat, w as nat);
    assert(pc.norm_spec() == w);
    assert((-w) * sc == -(w * sc) && w * sc == sc * w) by (nonlinear_arith);
    vstd::arithmetic::div_mod::lemma_div_multiples_vanish(sc, w);
    assert(tdiv((-w) * sc, w) == -sc);
    assert(0 * sc == 0) by (nonlinear_arith);
    assert(tdiv(0 * sc, w) == 0) by {
        vstd::arithmetic::div_mod::lemma_div_of0(w);
    }
    assert(pc.normalize_spec() == (Vec3 { x: (-sc) as i64, y: 0, z: 0 }));
}

/// `floor((m * SCALE) / (2 * SCALE)) == floor(m / 2)` for `m >= 0`.
proof fn lemma_half_scale(m: int)
    requires
        m >= 0,
    ensures
        tdiv(m * (SCALE as int), 2 * (SCALE as int)) == m / 2,
{
    let sc = SCALE as int;
    vstd::arithmetic::div_mod::lemma_fundamental_div_mod(m, 2);
    vstd::arithmetic::div_mod::lemma_mod_division_less_than_divisor(m, 2);
    let k = m / 2;
    let rem = m % 2;
    assert(m * sc == (2 * sc) * k + rem * sc) by (nonlinear_arith)
        requires
            m == 2 * k + rem;
    assert(m * sc >= 0) by (nonlinear_arith)
        requires
            m >= 0,
            sc > 0;
    assert(0 <= rem * sc < 2 * sc) by (nonlinear_arith)
        requires
            0 <= rem < 2,
            sc > 0;
    vstd::arithmetic::div_mod::lemma_div_multiples_vanish_fancy(k, rem * sc, 2 * sc);
}

/// A surface hit: parameter, point, outward unit normal and the sphere hit.
#[derive(Clone, Copy, PartialEq, Eq, Structural, Debug)]
pub struct Hit {
    pub t: i64,
    pub point: Vec3,
    pub normal: Vec3,
    pub sphere: Sphere,
}

/// The hit record at parameter `t`: point `O + t D`, outward normal
/// `normalize(P - C)`.
pub open spec fn hit_spec(s: Sphere, ray: Ray, t: int) -> Hit {
    let point = ray.origin.add_spec(ray.direction.scale_spec(t));
    let normal = point.sub_spec(s.center).normalize_spec();
    Hit { t: t as i64, point, normal, sphere: s }
}

pub fn make_hit(s: &Sphere, ray: &Ray, t: i64) -> (h: Hit)
    requires
        s.wf(),
        ray.origin.in_range(POS_LIM as int),
        ray.direction.in_range(DIR_RANGE as int),
        0 < t <= T_FAR,
    ensures
        h == hit_spec(*s, *ray, t as int),
        h.point.in_range(PT_LIM as int),
        h.normal.in_range(SCALE as int),
        h.sphere == *s,
        h.t == t,
{
    proof {
        fx::lemma_fx_mul_bound(
            ray.direction.x as int,
            t as int,
            DIR_RANGE as int,
            T_FAR as int,
            20_000_000_000_000,
        );
        fx::lemma_fx_mul_bound(
            ray.direction.y as int,
            t as int,
            DIR_RANGE as int,
            T_FAR as int,
            20_000_000_000_000,
        );
        fx::lemma_fx_mul_bound(
            ray.direction.z as int,
            t as int,
            DIR_RANGE as int,
            T_FAR as int,
            20_000_000_000_000,
        );
    }
    let sc = ray.direction.scale(t);
    let point = ray.origin.add(sc);
    let pc = point.sub(s.center);
    let normal = pc.normalize();
    Hit { t, point, normal, sphere: *s }
}

} // verus!
