//! Lights and shading.
//!
//! A hit is lit by every ambient light (albedo times intensity) and every
//! point light (albedo times intensity times the Lambert cosine, with an
//! optional distance falloff). Channels accumulate saturating at
//! `fx::ACC_CAP` and are clamped to `[0, SCALE]` at the end; a miss is the
//! background (black).

use crate::fx;
use crate::fx::{add_sat_spec, fx_mul_spec, tdiv, ACC_CAP, SCALE};
use crate::intersect::PT_LIM;
use crate::renderer::Rgba;
use crate::vec3::{lemma_dot_bound, lemma_norm_bound, Vec3, POS_LIM};
use vstd::prelude::*;

verus! {

/// Largest intensity channel a light may carry.
pub const INT_LIM: i64 = 10_000_000_000_000;

/// Saturation cap for the falloff power `d^k`.
pub const POW_CAP: i64 = 10_000_000_000_000;

/// Largest distance the shading math meets (diagonal across the scene).
pub const DIST_LIM: i64 = 39_000_000_000_000;

/// Largest channel of a single light's contribution.
pub const TERM_LIM: i64 = 30_000_000_000_000;

/// Non-negative color with bounded channels.
pub open spec fn color_wf(v: Vec3) -> bool {
    0 <= v.x <= INT_LIM && 0 <= v.y <= INT_LIM && 0 <= v.z <= INT_LIM
}

#[derive(Clone, Copy, PartialEq, Eq, Structural, Debug)]
pub struct PointLight {
    pub position: Vec3,
    pub intensity: Vec3,
    /// Optional falloff exponent `k`: attenuation `1 / (1 + d^k)`.
    pub falloff: Option<u32>,
}

#[derive(Clone, Copy, PartialEq, Eq, Structural, Debug)]
pub struct AmbientLight {
    pub intensity: Vec3,
}

#[derive(Clone, Copy, PartialEq, Eq, Structural, Debug)]
pub enum Light {
    Point(PointLight),
    Ambient(AmbientLight),
}

impl PointLight {
    pub open spec fn wf(self) -> bool {
        self.position.in_range(POS_LIM as int) && color_wf(self.intensity)
    }
}

impl AmbientLight {
    pub open spec fn wf(self) -> bool {
        color_wf(self.intensity)
    }
}

impl Light {
    pub open spec fn wf(self) -> bool {
        match self {
            Light::Point(p) => p.wf(),
            Light::Ambient(a) => a.wf(),
        }
    }
}

/// `d^k` in fixed point, saturating at `POW_CAP`.
pub open spec fn pow_sat_spec(d: int, k: nat) -> int
    decreases k,
{
    if k == 0 {
        SCALE as int
    } else {
        let m = fx_mul_spec(pow_sat_spec(d, (k - 1) as nat), d);
        if m > POW_CAP as int {
            POW_CAP as int
        } else {
            m
        }
    }
}

pub proof fn lemma_pow_sat_range(d: int, k: nat)
    requires
        0 <= d,
    ensures
        0 <= pow_sat_spec(d, k) <= POW_CAP as int,
    decreases k,
{
    if k > 0 {
        lemma_pow_sat_range(d, (k - 1) as nat);
        fx::lemma_fx_mul_nonneg(pow_sat_spec(d, (k - 1) as nat), d);
    }
}

pub fn pow_sat(d: i64, k: u32) -> (r: i64)
    requires
        0 <= d <= DIST_LIM,
    ensures
        r as int == pow_sat_spec(d as int, k as nat),
        0 <= r <= POW_CAP,
{
    let mut acc: i64 = SCALE;
    let mut i: u32 = 0;
    while i < k
        invariant
            0 <= i <= k,
            0 <= d <= DIST_LIM,
            acc as int == pow_sat_spec(d as int, i as nat),
            0 <= acc <= POW_CAP,
        decreases k - i,
    {
        proof {
            fx::lemma_fx_mul_nonneg(acc as int, d as int);
            fx::lemma_fx_mul_bound(
                acc as int,
                d as int,
                POW_CAP as int,
                DIST_LIM as int,
                390_000_000_000_000_000,
            );
        }
        let m = fx::fx_mul(acc, d);
        acc = if m > POW_CAP {
            POW_CAP
        } else {
            m
        };
        i = i + 1;
    }
    acc
}

/// Attenuation `1 / (1 + d^k)` in fixed point; `SCALE` when no falloff
/// exponent is configured.
pub open spec fn attenuation_spec(d: int, falloff: Option<u32>) -> int {
    match falloff {
        None => SCALE as int,
        Some(k) => tdiv(
            (SCALE as int) * (SCALE as int),
            SCALE as int + pow_sat_spec(d, k as nat),
        ),
    }
}

pub fn attenuation(d: i64, falloff: Option<u32>) -> (r: i64)
    requires
        0 <= d <= DIST_LIM,
    ensures
        r as int == attenuation_spec(d as int, falloff),
        0 <= r <= SCALE,
{
    match falloff {
        None => SCALE,
        Some(k) => {
            let p = pow_sat(d, k);
            let denom: i64 = SCALE + p;
            proof {
                assert((SCALE as int) * (SCALE as int) <= (SCALE as int) * (denom as int))
                    by (nonlinear_arith)
                    requires
                        SCALE as int <= denom as int;
                fx::lemma_tdiv_bound(
                    (SCALE as int) * (SCALE as int),
                    denom as int,
                    SCALE as int,
                );
                fx::lemma_tdiv_nonneg((SCALE as int) * (SCALE as int), denom as int);
            }
            fx::tdiv128(fx::prod(SCALE, SCALE), denom as i128)
        },
    }
}

/// One channel of a point light's contribution:
/// `albedo * intensity * cos * attenuation`, in fixed point.
pub open spec fn term_channel(al: int, it: int, cos: int, att: int) -> int {
    fx_mul_spec(fx_mul_spec(fx_mul_spec(al, it), cos), att)
}

/// The Lambert cosine at a hit: `max(0, normal . dir_to_light)`.
pub open spec fn lambert_cos_spec(normal: Vec3, point: Vec3, light: PointLight) -> int {
    let c = normal.dot_spec(light.position.sub_spec(point).normalize_spec());
    if c < 0 {
        0
    } else {
        c
    }
}

/// A point light's contribution to a hit, before clamping.
pub open spec fn point_term_spec(albedo: Vec3, point: Vec3, normal: Vec3, light: PointLight) -> Vec3 {
    let cos = lambert_cos_spec(normal, point, light);
    let d = light.position.sub_spec(point).norm_spec();
    let att = attenuation_spec(d, light.falloff);
    Vec3 {
        x: term_channel(albedo.x as int, light.intensity.x as int, cos, att) as i64,
        y: term_channel(albedo.y as int, light.intensity.y as int, cos, att) as i64,
        z: term_channel(albedo.z as int, light.intensity.z as int, cos, att) as i64,
    }
}

/// An ambient light's contribution: albedo times intensity.
pub open spec fn ambient_term_spec(albedo: Vec3, light: AmbientLight) -> Vec3 {
    albedo.hadamard_spec(light.intensity)
}

pub open spec fn light_term_spec(albedo: Vec3, point: Vec3, normal: Vec3, light: Light) -> Vec3 {
    match light {
        Light::Point(p) => point_term_spec(albedo, point, normal, p),
        Light::Ambient(a) => ambient_term_spec(albedo, a),
    }
}

/// Albedo channels lie in the unit interval.
pub open spec fn albedo_wf(albedo: Vec3) -> bool {
    0 <= albedo.x <= SCALE && 0 <= albedo.y <= SCALE && 0 <= albedo.z <= SCALE
}

/// Every term channel is within `[0, TERM_LIM]`.
pub proof fn lemma_term_range(albedo: Vec3, point: Vec3, normal: Vec3, light: Light)
    requires
        albedo_wf(albedo),
        point.in_range(PT_LIM as int),
        normal.in_range(SCALE as int),
        light.wf(),
    ensures
        0 <= light_term_spec(albedo, point, normal, light).x <= TERM_LIM,
        0 <= light_term_spec(albedo, point, normal, light).y <= TERM_LIM,
        0 <= light_term_spec(albedo, point, normal, light).z <= TERM_LIM,
{
    match light {
        Light::Ambient(a) => {
            lemma_channel_range(albedo.x as int, a.intensity.x as int);
            lemma_channel_range(albedo.y as int, a.intensity.y as int);
            lemma_channel_range(albedo.z as int, a.intensity.z as int);
        },
        Light::Point(p) => {
            let lv = p.position.sub_spec(point);
            let ldir = lv.normalize_spec();
            lemma_normalize_range(lv);
            lemma_dot_bound(normal, ldir, SCALE as int, SCALE as int, 3 * SCALE as int);
            let cos = lambert_cos_spec(normal, point, p);
            let d = lv.norm_spec();
            lemma_norm_bound(lv, 22_000_000_000_000, DIST_LIM as int);
            lemma_attenuation_range(d, p.falloff);
            let att = attenuation_spec(d, p.falloff);
            lemma_term_channel_range(albedo.x as int, p.intensity.x as int, cos, att);
            lemma_term_channel_range(albedo.y as int, p.intensity.y as int, cos, att);
            lemma_term_channel_range(albedo.z as int, p.intensity.z as int, cos, att);
        },
    }
}

/// The normalized vector has components in `[-SCALE, SCALE]`.
pub proof fn lemma_normalize_range(v: Vec3)
    ensures
        v.normalize_spec().in_range(SCALE as int),
{
    let n = v.norm_spec();
    fx::lemma_sqrt_floor(v.norm2_spec() as nat);
    if n != 0 {
        assert((v.x as int) * (v.x as int) <= v.norm2_spec() && (v.y as int) * (v.y as int)
            <= v.norm2_spec() && (v.z as int) * (v.z as int) <= v.norm2_spec())
            by (nonlinear_arith)
            requires
                v.norm2_spec() == (v.x as int) * (v.x as int) + (v.y as int) * (v.y as int) + (
                v.z as int) * (v.z as int);
        lemma_unit_comp(v.x as int, v.norm2_spec(), n);
        lemma_unit_comp(v.y as int, v.norm2_spec(), n);
        lemma_unit_comp(v.z as int, v.norm2_spec(), n);
    }
}

proof fn lemma_unit_comp(x: int, n2: int, n: int)
    requires
        n >= 1,
        x * x <= n2,
        n2 < (n + 1) * (n + 1),
    ensures
        -(SCALE as int) <= tdiv(x * (SCALE as int), n) <= SCALE as int,
{
    assert(-n <= x <= n) by (nonlinear_arith)
        requires
            n >= 1,
            x * x <= n2,
            n2 < (n + 1) * (n + 1);
    assert(-((SCALE as int) * n) <= x * (SCALE as int) <= (SCALE as int) * n) by (nonlinear_arith)
        requires
            -n <= x <= n;
    fx::lemma_tdiv_bound(x * (SCALE as int), n, SCALE as int);
}

pub proof fn lemma_attenuation_range(d: int, falloff: Option<u32>)
    requires
        0 <= d,
    ensures
        0 <= attenuation_spec(d, falloff) <= SCALE as int,
{
    match falloff {
        None => {},
        Some(k) => {
            lemma_pow_sat_range(d, k as nat);
            let denom = SCALE as int + pow_sat_spec(d, k as nat);
            assert((SCALE as int) * (SCALE as int) <= (SCALE as int) * denom) by (nonlinear_arith)
                requires
                    SCALE as int <= denom;
            fx::lemma_tdiv_bound((SCALE as int) * (SCALE as int), denom, SCALE as int);
            fx::lemma_tdiv_nonneg((SCALE as int) * (SCALE as int), denom);
        },
    }
}

/// One ambient channel lies in `[0, TERM_LIM]`.
proof fn lemma_channel_range(al: int, it: int)
    requires
        0 <= al <= SCALE as int,
        0 <= it <= INT_LIM as int,
    ensures
        0 <= fx_mul_spec(al, it) <= TERM_LIM as int,
{
    fx::lemma_fx_mul_nonneg(al, it);
    fx::lemma_fx_mul_bound(al, it, SCALE as int, INT_LIM as int, TERM_LIM as int);
}

proof fn lemma_term_channel_range(al: int, it: int, cos: int, att: int)
    requires
        0 <= al <= SCALE as int,
        0 <= it <= INT_LIM as int,
        0 <= cos <= 3 * (SCALE as int),
        0 <= att <= SCALE as int,
    ensures
        0 <= term_channel(al, it, cos, att) <= TERM_LIM as int,
{
    fx::lemma_fx_mul_nonneg(al, it);
    fx::lemma_fx_mul_bound(al, it, SCALE as int, INT_LIM as int, INT_LIM as int);
    let m1 = fx_mul_spec(al, it);
    fx::lemma_fx_mul_nonneg(m1, cos);
    fx::lemma_fx_mul_bound(m1, cos, INT_LIM as int, 3 * (SCALE as int), TERM_LIM as int);
    let m2 = fx_mul_spec(m1, cos);
    fx::lemma_fx_mul_nonneg(m2, att);
    fx::lemma_fx_mul_bound(m2, att, TERM_LIM as int, SCALE as int, TERM_LIM as int);
}

/// Computes a point light's contribution; exact mirror of
/// `point_term_spec`.
pub fn point_term(albedo: Vec3, point: Vec3, normal: Vec3, light: &PointLight) -> (r: Vec3)
    requires
        albedo_wf(albedo),
        point.in_range(PT_LIM as int),
        normal.in_range(SCALE as int),
        light.wf(),
    ensures
        r == point_term_spec(albedo, point, normal, *light),
{
    let lv = light.position.sub(point);
    let ldir = lv.normalize();
    let c = normal.dot(ldir);
    let cos = if c < 0 {
        0
    } else {
        c
    };
    let d = lv.norm();
    proof {
        lemma_norm_bound(lv, 22_000_000_000_000, DIST_LIM as int);
        lemma_dot_bound(normal, ldir, SCALE as int, SCALE as int, 3 * SCALE as int);
    }
    let att = attenuation(d, light.falloff);
    proof {
        fx::lemma_fx_mul_nonneg(albedo.x as int, light.intensity.x as int);
        fx::lemma_fx_mul_nonneg(albedo.y as int, light.intensity.y as int);
        fx::lemma_fx_mul_nonneg(albedo.z as int, light.intensity.z as int);
        fx::lemma_fx_mul_bound(
            albedo.x as int,
            light.intensity.x as int,
            SCALE as int,
            INT_LIM as int,
            INT_LIM as int,
        );
        fx::lemma_fx_mul_bound(
            albedo.y as int,
            light.intensity.y as int,
            SCALE as int,
            INT_LIM as int,
            INT_LIM as int,
        );
        fx::lemma_fx_mul_bound(
            albedo.z as int,
            light.intensity.z as int,
            SCALE as int,
            INT_LIM as int,
            INT_LIM as int,
        );
    }
    let m1x = fx::fx_mul(albedo.x, light.intensity.x);
    let m1y = fx::fx_mul(albedo.y, light.intensity.y);
    let m1z = fx::fx_mul(albedo.z, light.intensity.z);
    proof {
        fx::lemma_fx_mul_bound(m1x as int, cos as int, INT_LIM as int, 3 * (SCALE as int), TERM_LIM as int);
        fx::lemma_fx_mul_bound(m1y as int, cos as int, INT_LIM as int, 3 * (SCALE as int), TERM_LIM as int);
        fx::lemma_fx_mul_bound(m1z as int, cos as int, INT_LIM as int, 3 * (SCALE as int), TERM_LIM as int);
    }
    let m2x = fx::fx_mul(m1x, cos);
    let m2y = fx::fx_mul(m1y, cos);
    let m2z = fx::fx_mul(m1z, cos);
    Vec3 { x: fx::fx_mul(m2x, att), y: fx::fx_mul(m2y, att), z: fx::fx_mul(m2z, att) }
}

/// Accumulated (unclamped) color over a sequence of lights, folded from
/// the front, saturating at `ACC_CAP` per channel.
pub open spec fn shade_acc_spec(albedo: Vec3, point: Vec3, normal: Vec3, lights: Seq<Light>) -> Vec3
    decreases lights.len(),
{
    if lights.len() == 0 {
        Vec3 { x: 0, y: 0, z: 0 }
    } else {
        let prev = shade_acc_spec(albedo, point, normal, lights.drop_last());
        let term = light_term_spec(albedo, point, normal, lights.last());
        Vec3 {
            x: add_sat_spec(prev.x as int, term.x as int) as i64,
            y: add_sat_spec(prev.y as int, term.y as int) as i64,
            z: add_sat_spec(prev.z as int, term.z as int) as i64,
        }
    }
}

/// The shaded color of a hit: accumulated light, clamped, opaque.
pub open spec fn shade_spec(albedo: Vec3, point: Vec3, normal: Vec3, lights: Seq<Light>) -> Rgba {
    Rgba::from_rgb_spec(shade_acc_spec(albedo, point, normal, lights).clamp01_spec())
}

/// Shades a hit against the given lights; exact mirror of `shade_spec`.
pub fn shade(albedo: Vec3, point: Vec3, normal: Vec3, lights: &Vec<Light>) -> (r: Rgba)
    requires
        albedo_wf(albedo),
        point.in_range(PT_LIM as int),
        normal.in_range(SCALE as int),
        forall|i: int| 0 <= i < lights@.len() ==> #[trigger] lights@[i].wf(),
    ensures
        r == shade_spec(albedo, point, normal, lights@),
        r.wf(),
{
    let mut acc = Vec3 { x: 0, y: 0, z: 0 };
    let mut i: usize = 0;
    proof {
        assert(lights@.take(0) =~= Seq::<Light>::empty());
    }
    while i < lights.len()
        invariant
            0 <= i <= lights@.len(),
            albedo_wf(albedo),
            point.in_range(PT_LIM as int),
            normal.in_range(SCALE as int),
            forall|j: int| 0 <= j < lights@.len() ==> #[trigger] lights@[j].wf(),
            acc == shade_acc_spec(albedo, point, normal, lights@.take(i as int)),
            0 <= acc.x <= ACC_CAP,
            0 <= acc.y <= ACC_CAP,
            0 <= acc.z <= ACC_CAP,
        decreases lights@.len() - i,
    {
        proof {
            assert(lights@[i as int].wf());
        }
        let lt = lights[i];
        let term = match lt {
            Light::Point(p) => point_term(albedo, point, normal, &p),
            Light::Ambient(a) => albedo.hadamard(a.intensity),
        };
        proof {
            lemma_term_range(albedo, point, normal, lights@[i as int]);
            assert(lights@.take(i as int + 1).drop_last() =~= lights@.take(i as int));
            assert(lights@.take(i as int + 1).last() == lights@[i as int]);
        }
        acc = Vec3 {
            x: fx::add_sat(acc.x, term.x),
            y: fx::add_sat(acc.y, term.y),
            z: fx::add_sat(acc.z, term.z),
        };
        i = i + 1;
    }
    proof {
        assert(lights@.take(lights@.len() as int) =~= lights@);
    }
    Rgba::from_rgb(acc.clamp01())
}

/// Doubling a point light's intensity at least doubles that light's
/// contribution to a hit, channel by channel, before clamping.
pub proof fn lemma_point_term_double(
    albedo: Vec3,
    point: Vec3,
    normal: Vec3,
    l1: PointLight,
    l2: PointLight,
)
    requires
        albedo_wf(albedo),
        point.in_range(PT_LIM as int),
        normal.in_range(SCALE as int),
        l1.wf(),
        color_wf(l2.intensity),
        l2.position == l1.position,
        l2.falloff == l1.falloff,
        l2.intensity.x == 2 * l1.intensity.x,
        l2.intensity.y == 2 * l1.intensity.y,
        l2.intensity.z == 2 * l1.intensity.z,
    ensures
        point_term_spec(albedo, point, normal, l2).x >= 2 * point_term_spec(
            albedo,
            point,
            normal,
            l1,
        ).x,
        point_term_spec(albedo, point, normal, l2).y >= 2 * point_term_spec(
            albedo,
            point,
            normal,
            l1,
        ).y,
        point_term_spec(albedo, point, normal, l2).z >= 2 * point_term_spec(
            albedo,
            point,
            normal,
            l1,
        ).z,
{
    let lv = l1.position.sub_spec(point);
    let cos = lambert_cos_spec(normal, point, l1);
    let d = lv.norm_spec();
    let att = attenuation_spec(d, l1.falloff);
    assert(lambert_cos_spec(normal, point, l2) == cos);
    lemma_normalize_range(lv);
    lemma_dot_bound(normal, lv.normalize_spec(), SCALE as int, SCALE as int, 3 * SCALE as int);
    lemma_attenuation_range(d, l1.falloff);
    lemma_term_channel_range(albedo.x as int, l1.intensity.x as int, cos, att);
    lemma_term_channel_range(albedo.y as int, l1.intensity.y as int, cos, att);
    lemma_term_channel_range(albedo.z as int, l1.intensity.z as int, cos, att);
    lemma_term_channel_range(albedo.x as int, l2.intensity.x as int, cos, att);
    lemma_term_channel_range(albedo.y as int, l2.intensity.y as int, cos, att);
    lemma_term_channel_range(albedo.z as int, l2.intensity.z as int, cos, att);
    lemma_term_channel_double(albedo.x as int, l1.intensity.x as int, cos, att);
    lemma_term_channel_double(albedo.y as int, l1.intensity.y as int, cos, att);
    lemma_term_channel_double(albedo.z as int, l1.intensity.z as int, cos, att);
}

proof fn lemma_term_channel_double(al: int, it: int, cos: int, att: int)
    requires
        0 <= al,
        0 <= it,
        0 <= cos,
        0 <= att,
    ensures
        term_channel(al, 2 * it, cos, att) >= 2 * term_channel(al, it, cos, att),
{
    assert(al * (2 * it) == 2 * (al * it) && 0 <= al * it) by (nonlinear_arith)
        requires
            0 <= al,
            0 <= it;
    fx::lemma_tdiv_double(al * it, SCALE as int);
    fx::lemma_tdiv_nonneg(al * it, SCALE as int);
    let m1 = fx_mul_spec(al, it);
    let m1d = fx_mul_spec(al, 2 * it);
    lemma_fx_mul_double_mono(m1, m1d, cos);
    let m2 = fx_mul_spec(m1, cos);
    let m2d = fx_mul_spec(m1d, cos);
    fx::lemma_fx_mul_nonneg(m1, cos);
    lemma_fx_mul_double_mono(m2, m2d, att);
}

/// If `0 <= 2a <= b`, the fixed-point product with a non-negative factor
/// keeps that gap: `fx_mul(b, c) >= 2 fx_mul(a, c)`.
proof fn lemma_fx_mul_double_mono(a: int, b: int, c: int)
    requires
        0 <= a,
        2 * a <= b,
        0 <= c,
    ensures
        fx_mul_spec(b, c) >= 2 * fx_mul_spec(a, c),
        fx_mul_spec(a, c) >= 0,
{
    assert(0 <= 2 * (a * c) && (2 * a) * c == 2 * (a * c) && (2 * a) * c <= b * c)
        by (nonlinear_arith)
        requires
            0 <= a,
            2 * a <= b,
            0 <= c;
    fx::lemma_tdiv_mono(2 * (a * c), b * c, SCALE as int);
    fx::lemma_tdiv_double(a * c, SCALE as int);
    fx::lemma_tdiv_nonneg(a * c, SCALE as int);
}

/// A surface facing away from a point light (the Lambert cosine term is
/// not positive) receives nothing from it.
pub proof fn lemma_point_term_opposed(albedo: Vec3, point: Vec3, normal: Vec3, light: PointLight)
    requires
        normal.dot_spec(light.position.sub_spec(point).normalize_spec()) <= 0,
    ensures
        point_term_spec(albedo, point, normal, light) == (Vec3 { x: 0, y: 0, z: 0 }),
{
    let cos = lambert_cos_spec(normal, point, light);
    assert(cos == 0);
    let d = light.position.sub_spec(point).norm_spec();
    let att = attenuation_spec(d, light.falloff);
    lemma_term_channel_zero_cos(albedo.x as int, light.intensity.x as int, att);
    lemma_term_channel_zero_cos(albedo.y as int, light.intensity.y as int, att);
    lemma_term_channel_zero_cos(albedo.z as int, light.intensity.z as int, att);
}

proof fn lemma_term_channel_zero_cos(al: int, it: int, att: int)
    ensures
        term_channel(al, it, 0, att) == 0,
{
    let m1 = fx_mul_spec(al, it);
    assert(m1 * 0 == 0) by (nonlinear_arith);
    assert(fx_mul_spec(m1, 0) == tdiv(0, SCALE as int));
    assert(tdiv(0, SCALE as int) == 0) by {
        vstd::arithmetic::div_mod::lemma_div_of0(SCALE as int);
    }
    assert(0 * att == 0) by (nonlinear_arith);
    assert(term_channel(al, it, 0, att) == 0);
}

} // verus!
