//! Three-component vectors in fixed point.
//!
//! Components are multiples of `1 / fx::SCALE`. Every operation's result
//! is pinned exactly by a spec-function mirror, so two computations over
//! the same inputs are provably equal.

use crate::fx;
use crate::fx::{clamp01_spec, fx_mul_spec, sqrt_floor, tdiv, FXM, SCALE};
use vstd::prelude::*;

verus! {

/// Largest magnitude of a position-like coordinate: 1000.0 in real units.
pub const POS_LIM: i64 = 1_000_000_000_000;

/// Largest magnitude accepted by the dot product, norm and normalization;
/// covers every vector the renderer forms out of in-range positions.
pub const VLIM: i64 = 30_000_000_000_000;

#[derive(Clone, Copy, PartialEq, Eq, Structural, Debug)]
pub struct Vec3 {
    pub x: i64,
    pub y: i64,
    pub z: i64,
}

impl Vec3 {
    /// All three components lie in `[-b, b]`.
    pub open spec fn in_range(self, b: int) -> bool {
        -b <= self.x <= b && -b <= self.y <= b && -b <= self.z <= b
    }

    pub open spec fn add_spec(self, o: Vec3) -> Vec3 {
        Vec3 { x: (self.x + o.x) as i64, y: (self.y + o.y) as i64, z: (self.z + o.z) as i64 }
    }

    pub open spec fn sub_spec(self, o: Vec3) -> Vec3 {
        Vec3 { x: (self.x - o.x) as i64, y: (self.y - o.y) as i64, z: (self.z - o.z) as i64 }
    }

    /// Componentwise fixed-point scaling by `s`.
    pub open spec fn scale_spec(self, s: int) -> Vec3 {
        Vec3 {
            x: fx_mul_spec(self.x as int, s) as i64,
            y: fx_mul_spec(self.y as int, s) as i64,
            z: fx_mul_spec(self.z as int, s) as i64,
        }
    }

    /// Componentwise (Hadamard) fixed-point product, used for colors.
    pub open spec fn hadamard_spec(self, o: Vec3) -> Vec3 {
        Vec3 {
            x: fx_mul_spec(self.x as int, o.x as int) as i64,
            y: fx_mul_spec(self.y as int, o.y as int) as i64,
            z: fx_mul_spec(self.z as int, o.z as int) as i64,
        }
    }

    /// Dot product, scaled back to fixed point.
    pub open spec fn dot_spec(self, o: Vec3) -> int {
        tdiv(
            (self.x as int) * (o.x as int) + (self.y as int) * (o.y as int) + (self.z as int) * (
            o.z as int),
            SCALE as int,
        )
    }

    /// Squared Euclidean norm, in raw units of `SCALE^2`.
    pub open spec fn norm2_spec(self) -> int {
        (self.x as int) * (self.x as int) + (self.y as int) * (self.y as int) + (self.z as int)
            * (self.z as int)
    }

    /// Euclidean norm in fixed point: the floor square root of `norm2_spec`.
    pub open spec fn norm_spec(self) -> int {
        sqrt_floor(self.norm2_spec() as nat) as int
    }

    /// Unit vector in the direction of `self`; the zero vector stays zero.
    pub open spec fn normalize_spec(self) -> Vec3 {
        let n = self.norm_spec();
        if n == 0 {
            Vec3 { x: 0, y: 0, z: 0 }
        } else {
            Vec3 {
                x: tdiv((self.x as int) * (SCALE as int), n) as i64,
                y: tdiv((self.y as int) * (SCALE as int), n) as i64,
                z: tdiv((self.z as int) * (SCALE as int), n) as i64,
            }
        }
    }

    pub open spec fn cross_spec(self, o: Vec3) -> Vec3 {
        Vec3 {
            x: tdiv(
                (self.y as int) * (o.z as int) - (self.z as int) * (o.y as int),
                SCALE as int,
            ) as i64,
            y: tdiv(
                (self.z as int) * (o.x as int) - (self.x as int) * (o.z as int),
                SCALE as int,
            ) as i64,
            z: tdiv(
                (self.x as int) * (o.y as int) - (self.y as int) * (o.x as int),
                SCALE as int,
            ) as i64,
        }
    }

    /// Each channel clamped to `[0, SCALE]`.
    pub open spec fn clamp01_spec(self) -> Vec3 {
        Vec3 {
            x: clamp01_spec(self.x as int) as i64,
            y: clamp01_spec(self.y as int) as i64,
            z: clamp01_spec(self.z as int) as i64,
        }
    }

    pub fn add(self, o: Vec3) -> (r: Vec3)
        requires
            self.in_range(100_000_000_000_000_000),
            o.in_range(100_000_000_000_000_000),
        ensures
            r == self.add_spec(o),
    {
        Vec3 { x: self.x + o.x, y: self.y + o.y, z: self.z + o.z }
    }

    pub fn sub(self, o: Vec3) -> (r: Vec3)
        requires
            self.in_range(100_000_000_000_000_000),
            o.in_range(100_000_000_000_000_000),
        ensures
            r == self.sub_spec(o),
    {
        Vec3 { x: self.x - o.x, y: self.y - o.y, z: self.z - o.z }
    }

    pub fn scale(self, s: i64) -> (r: Vec3)
        requires
            self.in_range(FXM as int),
            -FXM <= s <= FXM,
        ensures
            r == self.scale_spec(s as int),
    {
        Vec3 { x: fx::fx_mul(self.x, s), y: fx::fx_mul(self.y, s), z: fx::fx_mul(self.z, s) }
    }

    pub fn hadamard(self, o: Vec3) -> (r: Vec3)
        requires
            self.in_range(FXM as int),
            o.in_range(FXM as int),
        ensures
            r == self.hadamard_spec(o),
    {
        Vec3 {
            x: fx::fx_mul(self.x, o.x),
            y: fx::fx_mul(self.y, o.y),
            z: fx::fx_mul(self.z, o.z),
        }
    }

    pub fn clamp01(self) -> (r: Vec3)
        ensures
            r == self.clamp01_spec(),
    {
        Vec3 { x: fx::clamp01(self.x), y: fx::clamp01(self.y), z: fx::clamp01(self.z) }
    }

    pub fn dot(self, o: Vec3) -> (r: i64)
        requires
            self.in_range(VLIM as int),
            o.in_range(VLIM as int),
        ensures
            r as int == self.dot_spec(o),
    {
        let px = fx::prod(self.x, o.x);
        let py = fx::prod(self.y, o.y);
        let pz = fx::prod(self.z, o.z);
        proof {
            lemma_prod_range(self.x as int, o.x as int, VLIM as int);
            lemma_prod_range(self.y as int, o.y as int, VLIM as int);
            lemma_prod_range(self.z as int, o.z as int, VLIM as int);
            fx::lemma_tdiv_bound(
                px as int + py as int + pz as int,
                SCALE as int,
                3_000_000_000_000_000_000,
            );
        }
        fx::tdiv128(px + py + pz, SCALE as i128)
    }

    /// Squared norm in raw units, exact.
    pub fn norm2(self) -> (r: i128)
        requires
            self.in_range(VLIM as int),
        ensures
            r as int == self.norm2_spec(),
            0 <= r as int <= 2_700_000_000_000_000_000_000_000_000,
    {
        let px = fx::prod(self.x, self.x);
        let py = fx::prod(self.y, self.y);
        let pz = fx::prod(self.z, self.z);
        proof {
            lemma_sq_range(self.x as int, VLIM as int);
            lemma_sq_range(self.y as int, VLIM as int);
            lemma_sq_range(self.z as int, VLIM as int);
        }
        px + py + pz
    }

    pub fn norm(self) -> (r: i64)
        requires
            self.in_range(VLIM as int),
        ensures
            r as int == self.norm_spec(),
            0 <= r,
    {
        let n2 = self.norm2();
        let r = fx::isqrt(n2 as u128);
        proof {
            fx::lemma_sqrt_floor(self.norm2_spec() as nat);
            assert((r as nat) * (r as nat) <= 2_700_000_000_000_000_000_000_000_000nat);
            assert(r as nat <= 60_000_000_000_000nat) by (nonlinear_arith)
                requires
                    (r as nat) * (r as nat) <= 2_700_000_000_000_000_000_000_000_000nat;
        }
        r as i64
    }

    pub fn normalize(self) -> (r: Vec3)
        requires
            self.in_range(VLIM as int),
        ensures
            r == self.normalize_spec(),
            r.in_range(SCALE as int),
    {
        let n = self.norm();
        if n == 0 {
            Vec3 { x: 0, y: 0, z: 0 }
        } else {
            proof {
                fx::lemma_sqrt_floor(self.norm2_spec() as nat);
                assert((self.x as int) * (self.x as int) <= self.norm2_spec() && (self.y as int)
                    * (self.y as int) <= self.norm2_spec() && (self.z as int) * (self.z as int)
                    <= self.norm2_spec()) by (nonlinear_arith)
                    requires
                        self.norm2_spec() == (self.x as int) * (self.x as int) + (self.y as int)
                            * (self.y as int) + (self.z as int) * (self.z as int);
                lemma_comp_div_bound(self.x as int, self.norm2_spec(), n as int);
                lemma_comp_div_bound(self.y as int, self.norm2_spec(), n as int);
                lemma_comp_div_bound(self.z as int, self.norm2_spec(), n as int);
            }
            Vec3 {
                x: fx::tdiv128(fx::prod(self.x, SCALE), n as i128),
                y: fx::tdiv128(fx::prod(self.y, SCALE), n as i128),
                z: fx::tdiv128(fx::prod(self.z, SCALE), n as i128),
            }
        }
    }

    pub fn cross(self, o: Vec3) -> (r: Vec3)
        requires
            self.in_range(VLIM as int),
            o.in_range(VLIM as int),
        ensures
            r == self.cross_spec(o),
    {
        let ayz = fx::prod(self.y, o.z);
        let azy = fx::prod(self.z, o.y);
        let azx = fx::prod(self.z, o.x);
        let axz = fx::prod(self.x, o.z);
        let axy = fx::prod(self.x, o.y);
        let ayx = fx::prod(self.y, o.x);
        proof {
            lemma_prod_range(self.y as int, o.z as int, VLIM as int);
            lemma_prod_range(self.z as int, o.y as int, VLIM as int);
            lemma_prod_range(self.z as int, o.x as int, VLIM as int);
            lemma_prod_range(self.x as int, o.z as int, VLIM as int);
            lemma_prod_range(self.x as int, o.y as int, VLIM as int);
            lemma_prod_range(self.y as int, o.x as int, VLIM as int);
            fx::lemma_tdiv_bound(ayz as int - azy as int, SCALE as int, 2_000_000_000_000_000_000);
            fx::lemma_tdiv_bound(azx as int - axz as int, SCALE as int, 2_000_000_000_000_000_000);
            fx::lemma_tdiv_bound(axy as int - ayx as int, SCALE as int, 2_000_000_000_000_000_000);
        }
        Vec3 {
            x: fx::tdiv128(ayz - azy, SCALE as i128),
            y: fx::tdiv128(azx - axz, SCALE as i128),
            z: fx::tdiv128(axy - ayx, SCALE as i128),
        }
    }
}

/// Bound on a dot product from bounds on the operands:
/// if `3 * la * lb <= k * SCALE` then the dot product lies in `[-k, k]`.
pub proof fn lemma_dot_bound(a: Vec3, b: Vec3, la: int, lb: int, k: int)
    requires
        0 <= la,
        0 <= lb,
        0 <= k,
        a.in_range(la),
        b.in_range(lb),
        3 * (la * lb) <= k * (SCALE as int),
    ensures
        -k <= a.dot_spec(b) <= k,
{
    fx::lemma_prod_bound(a.x as int, b.x as int, la, lb);
    fx::lemma_prod_bound(a.y as int, b.y as int, la, lb);
    fx::lemma_prod_bound(a.z as int, b.z as int, la, lb);
    fx::lemma_tdiv_bound(
        (a.x as int) * (b.x as int) + (a.y as int) * (b.y as int) + (a.z as int) * (b.z as int),
        SCALE as int,
        k,
    );
}

/// A vector's dot product with itself is non-negative.
pub proof fn lemma_dot_self_nonneg(a: Vec3)
    ensures
        0 <= a.dot_spec(a),
        0 <= a.norm2_spec(),
{
    assert(0 <= (a.x as int) * (a.x as int) && 0 <= (a.y as int) * (a.y as int) && 0 <= (
    a.z as int) * (a.z as int)) by (nonlinear_arith);
    fx::lemma_tdiv_nonneg(a.norm2_spec(), SCALE as int);
}

/// Squared truncation error of one normalized component: with
/// `c = tdiv(x * SCALE, n)`, the product `n^2 c^2` stays below
/// `SCALE^2 x^2` by at most `2 n^2 SCALE + n^2`.
proof fn lemma_comp_sq_err(x: int, n: int)
    requires
        n >= 1,
        -n <= x <= n,
    ensures
        ({
            let c = tdiv(x * (SCALE as int), n);
            &&& (n * n) * (c * c) <= ((SCALE as int) * (SCALE as int)) * (x * x)
            &&& ((SCALE as int) * (SCALE as int)) * (x * x) - (n * n) * (c * c) <= 2 * ((n * n) * (
            SCALE as int)) + n * n
        }),
{
    let sc = SCALE as int;
    if x >= 0 {
        let a = x * sc;
        assert(0 <= a <= n * sc) by (nonlinear_arith)
            requires
                a == x * sc,
                0 <= x <= n,
                sc > 0;
        vstd::arithmetic::div_mod::lemma_fundamental_div_mod(a, n);
        vstd::arithmetic::div_mod::lemma_mod_division_less_than_divisor(a, n);
        fx::lemma_tdiv_bound(a, n, sc);
        let c = tdiv(a, n);
        let r = a % n;
        assert((n * n) * (c * c) <= a * a && a * a - (n * n) * (c * c) <= 2 * ((n * n) * sc) + n
            * n) by (nonlinear_arith)
            requires
                a == n * c + r,
                0 <= r < n,
                0 <= c <= sc,
                n >= 1;
        assert(a * a == (sc * sc) * (x * x)) by (nonlinear_arith)
            requires
                a == x * sc;
    } else {
        let a = x * sc;
        assert(0 <= -a <= n * sc) by (nonlinear_arith)
            requires
                a == x * sc,
                -n <= x < 0,
                sc > 0;
        vstd::arithmetic::div_mod::lemma_fundamental_div_mod(-a, n);
        vstd::arithmetic::div_mod::lemma_mod_division_less_than_divisor(-a, n);
        fx::lemma_tdiv_bound(a, n, sc);
        let c = tdiv(a, n);
        let r = (-a) % n;
        assert((n * n) * (c * c) <= a * a && a * a - (n * n) * (c * c) <= 2 * ((n * n) * sc) + n
            * n) by (nonlinear_arith)
            requires
                -a == n * (-c) + r,
                0 <= r < n,
                -sc <= c <= 0,
                n >= 1;
        assert(a * a == (sc * sc) * (x * x)) by (nonlinear_arith)
            requires
                a == x * sc;
    }
}

/// Normalization yields a unit vector: for input of norm at least 0.01,
/// the result's norm is within one millionth of 1.0.
pub proof fn lemma_normalize_unit(v: Vec3)
    requires
        v.in_range(VLIM as int),
        v.norm2_spec() >= 100_000_000_000_000,
    ensures
        (SCALE - 1000) as int <= v.normalize_spec().norm_spec() <= (SCALE + 1000) as int,
{
    let sc = SCALE as int;
    let nn = v.norm2_spec();
    fx::lemma_sqrt_floor(nn as nat);
    let n = v.norm_spec();
    assert(n >= 10_000_000) by (nonlinear_arith)
        requires
            nn < (n + 1) * (n + 1),
            nn >= 100_000_000_000_000,
            n >= 0;
    assert((v.x as int) * (v.x as int) <= nn && (v.y as int) * (v.y as int) <= nn && (v.z as int)
        * (v.z as int) <= nn) by (nonlinear_arith)
        requires
            nn == (v.x as int) * (v.x as int) + (v.y as int) * (v.y as int) + (v.z as int) * (
            v.z as int);
    lemma_comp_div_bound(v.x as int, nn, n);
    lemma_comp_div_bound(v.y as int, nn, n);
    lemma_comp_div_bound(v.z as int, nn, n);
    assert(-n <= v.x as int <= n && -n <= v.y as int <= n && -n <= v.z as int <= n)
        by (nonlinear_arith)
        requires
            n >= 1,
            (v.x as int) * (v.x as int) <= nn,
            (v.y as int) * (v.y as int) <= nn,
            (v.z as int) * (v.z as int) <= nn,
            nn < (n + 1) * (n + 1);
    lemma_comp_sq_err(v.x as int, n);
    lemma_comp_sq_err(v.y as int, n);
    lemma_comp_sq_err(v.z as int, n);
    let u = v.normalize_spec();
    let cx = tdiv((v.x as int) * sc, n);
    let cy = tdiv((v.y as int) * sc, n);
    let cz = tdiv((v.z as int) * sc, n);
    assert(u.x as int == cx && u.y as int == cy && u.z as int == cz);
    let mm = u.norm2_spec();
    assert(mm == cx * cx + cy * cy + cz * cz);
    assert(mm >= 0) by (nonlinear_arith)
        requires
            mm == cx * cx + cy * cy + cz * cz;
    assert((n * n) * mm == (n * n) * (cx * cx) + (n * n) * (cy * cy) + (n * n) * (cz * cz) && (sc
        * sc) * nn == (sc * sc) * ((v.x as int) * (v.x as int)) + (sc * sc) * ((v.y as int) * (
    v.y as int)) + (sc * sc) * ((v.z as int) * (v.z as int))) by (nonlinear_arith)
        requires
            mm == cx * cx + cy * cy + cz * cz,
            nn == (v.x as int) * (v.x as int) + (v.y as int) * (v.y as int) + (v.z as int) * (
            v.z as int);
    assert((n * n) * mm <= (sc * sc) * nn);
    assert((sc * sc) * nn - (n * n) * mm <= 6 * ((n * n) * sc) + 3 * (n * n));
    fx::lemma_sqrt_floor(mm as nat);
    let m = u.norm_spec();
    assert(m <= sc + 1000) by (nonlinear_arith)
        requires
            m >= 0,
            n >= 10_000_000,
            m * m <= mm,
            (n * n) * mm <= (sc * sc) * nn,
            nn < (n + 1) * (n + 1),
            sc == 1_000_000_000;
    assert(m >= sc - 1000) by (nonlinear_arith)
        requires
            m >= 0,
            n >= 10_000_000,
            mm < (m + 1) * (m + 1),
            (sc * sc) * nn - (n * n) * mm <= 6 * ((n * n) * sc) + 3 * (n * n),
            n * n <= nn,
            sc == 1_000_000_000;
}

/// Bound on a cross product from bounds on the operands:
/// if `2 * la * lb <= k * SCALE` then every component lies in `[-k, k]`.
pub proof fn lemma_cross_range(a: Vec3, b: Vec3, la: int, lb: int, k: int)
    requires
        0 <= la,
        0 <= lb,
        0 <= k <= i64::MAX as int,
        a.in_range(la),
        b.in_range(lb),
        2 * (la * lb) <= k * (SCALE as int),
    ensures
        a.cross_spec(b).in_range(k),
{
    fx::lemma_prod_bound(a.y as int, b.z as int, la, lb);
    fx::lemma_prod_bound(a.z as int, b.y as int, la, lb);
    fx::lemma_prod_bound(a.z as int, b.x as int, la, lb);
    fx::lemma_prod_bound(a.x as int, b.z as int, la, lb);
    fx::lemma_prod_bound(a.x as int, b.y as int, la, lb);
    fx::lemma_prod_bound(a.y as int, b.x as int, la, lb);
    fx::lemma_tdiv_bound(
        (a.y as int) * (b.z as int) - (a.z as int) * (b.y as int),
        SCALE as int,
        k,
    );
    fx::lemma_tdiv_bound(
        (a.z as int) * (b.x as int) - (a.x as int) * (b.z as int),
        SCALE as int,
        k,
    );
    fx::lemma_tdiv_bound(
        (a.x as int) * (b.y as int) - (a.y as int) * (b.x as int),
        SCALE as int,
        k,
    );
}

/// Bound on the norm from a bound on the components:
/// if `3 * l^2 <= k^2` then the norm is at most `k`.
pub proof fn lemma_norm_bound(v: Vec3, l: int, k: int)
    requires
        0 <= l,
        0 <= k,
        v.in_range(l),
        3 * (l * l) <= k * k,
    ensures
        0 <= v.norm_spec() <= k,
{
    lemma_sq_range(v.x as int, l);
    lemma_sq_range(v.y as int, l);
    lemma_sq_range(v.z as int, l);
    fx::lemma_sqrt_floor(v.norm2_spec() as nat);
    let s = v.norm_spec();
    assert(s <= k) by (nonlinear_arith)
        requires
            0 <= s,
            0 <= k,
            s * s <= 3 * (l * l),
            3 * (l * l) <= k * k;
}

/// Product of two values bounded by `l` is bounded by `l * l`.
proof fn lemma_prod_range(a: int, b: int, l: int)
    requires
        0 <= l,
        -l <= a <= l,
        -l <= b <= l,
    ensures
        -(l * l) <= a * b <= l * l,
{
    assert(-(l * l) <= a * b <= l * l) by (nonlinear_arith)
        requires
            -l <= a <= l,
            -l <= b <= l;
}

/// Square of a value bounded by `l` lies in `[0, l * l]`.
proof fn lemma_sq_range(a: int, l: int)
    requires
        -l <= a <= l,
    ensures
        0 <= a * a <= l * l,
{
    assert(0 <= a * a <= l * l) by (nonlinear_arith)
        requires
            -l <= a <= l;
}

/// A component of a vector is no longer than the vector's norm, so the
/// normalized component lies in `[-SCALE, SCALE]`.
proof fn lemma_comp_div_bound(x: int, n2: int, n: int)
    requires
        n >= 1,
        x * x <= n2,
        n2 < (n + 1) * (n + 1),
    ensures
        -n <= x <= n,
        -(SCALE as int) <= tdiv(x * (SCALE as int), n) <= SCALE as int,
{
    assert(-n <= x <= n) by (nonlinear_arith)
        requires
            n >= 1,
            x * x <= n2,
            n2 < (n + 1) * (n + 1);
    assert(-((SCALE as int) * n) <= x * (SCALE as int) <= (SCALE as int) * n) by (nonlinear_arith)
        requires
            -n <= x <= n;
    fx::lemma_tdiv_bound(x * (SCALE as int), n, SCALE as int);
}

} // verus!
