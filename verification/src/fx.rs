//! Fixed-point scalars.
//!
//! A quantity of 1.0 is stored as the integer `SCALE`; all products and
//! quotients round toward zero. The spec functions here (`tdiv`,
//! `fx_mul_spec`, `sqrt_floor`) are the mathematical model every other
//! module's contracts are written over.

use vstd::prelude::*;

verus! {

/// Number of fixed-point units in 1.0.
pub const SCALE: i64 = 1_000_000_000;

/// Largest magnitude accepted by `fx_mul`: the product of two such
/// values, divided by `SCALE`, still fits in an `i64`.
pub const FXM: i64 = 90_000_000_000_000;

/// Division rounding toward zero, the rounding of every fixed-point
/// operation in this crate (`/` on `int` rounds toward negative infinity).
pub open spec fn tdiv(a: int, b: int) -> int
    recommends
        b > 0,
{
    if a >= 0 {
        a / b
    } else {
        -((-a) / b)
    }
}

/// The fixed-point product: `(a * b) / SCALE`, rounded toward zero.
pub open spec fn fx_mul_spec(a: int, b: int) -> int {
    tdiv(a * b, SCALE as int)
}

/// Floor of the square root, defined by counting up.
pub open spec fn sqrt_floor(n: nat) -> nat
    decreases n,
{
    if n == 0 {
        0
    } else {
        let s = sqrt_floor((n - 1) as nat);
        if (s + 1) * (s + 1) <= n {
            s + 1
        } else {
            s
        }
    }
}

/// `sqrt_floor(n)` is the unique `r` with `r^2 <= n < (r+1)^2`.
pub proof fn lemma_sqrt_floor(n: nat)
    ensures
        sqrt_floor(n) * sqrt_floor(n) <= n,
        n < (sqrt_floor(n) + 1) * (sqrt_floor(n) + 1),
        sqrt_floor(n) <= n,
    decreases n,
{
    let r = sqrt_floor(n);
    if n == 0 {
        assert(r == 0);
        assert(r * r <= n && n < (r + 1) * (r + 1)) by (nonlinear_arith)
            requires
                r == 0nat,
                n == 0nat;
    } else {
        lemma_sqrt_floor((n - 1) as nat);
        let s = sqrt_floor((n - 1) as nat);
        if (s + 1) * (s + 1) <= n {
            assert(r == s + 1);
            assert(r * r <= n && n < (r + 1) * (r + 1) && r <= n) by (nonlinear_arith)
                requires
                    r == s + 1,
                    (s + 1) * (s + 1) <= n,
                    n <= (s + 1) * (s + 1) + 1 - 1;
        } else {
            assert(r == s);
            assert(r * r <= n && n < (r + 1) * (r + 1)) by (nonlinear_arith)
                requires
                    r == s,
                    n >= 1,
                    s * s <= n - 1,
                    !((s + 1) * (s + 1) <= n);
        }
    }
}

/// Any `r` with `r^2 <= n < (r+1)^2` equals `sqrt_floor(n)`.
pub proof fn lemma_sqrt_floor_unique(n: nat, r: nat)
    requires
        r * r <= n,
        n < (r + 1) * (r + 1),
    ensures
        r == sqrt_floor(n),
{
    lemma_sqrt_floor(n);
    let s = sqrt_floor(n);
    if r < s {
        assert((r + 1) * (r + 1) <= s * s) by (nonlinear_arith)
            requires
                r + 1 <= s;
    }
    if s < r {
        assert((s + 1) * (s + 1) <= r * r) by (nonlinear_arith)
            requires
                s + 1 <= r;
    }
}

/// Truncating division of an `i128` by a positive `i128`, for quotients
/// that fit in an `i64`.
pub fn tdiv128(a: i128, b: i128) -> (r: i64)
    requires
        b > 0,
        a != i128::MIN,
        -(i64::MAX as int) <= tdiv(a as int, b as int) <= i64::MAX as int,
    ensures
        r as int == tdiv(a as int, b as int),
{
    if a >= 0 {
        let q: u128 = (a as u128) / (b as u128);
        q as i64
    } else {
        let q: u128 = ((-a) as u128) / (b as u128);
        -(q as i64)
    }
}

/// The fixed-point product of two bounded values.
pub fn fx_mul(a: i64, b: i64) -> (r: i64)
    requires
        -FXM <= a <= FXM,
        -FXM <= b <= FXM,
    ensures
        r as int == fx_mul_spec(a as int, b as int),
{
    proof {
        assert((-(FXM as int)) * (FXM as int) <= (a as int) * (b as int) <= (FXM as int) * (
        FXM as int)) by (nonlinear_arith)
            requires
                -(FXM as int) <= a as int <= FXM as int,
                -(FXM as int) <= b as int <= FXM as int;
    }
    let p: i128 = (a as i128) * (b as i128);
    proof {
        lemma_tdiv_bound(p as int, SCALE as int, i64::MAX as int);
    }
    tdiv128(p, SCALE as i128)
}

/// Exact product of two `i64` values, carried in an `i128`.
pub fn prod(a: i64, b: i64) -> (r: i128)
    ensures
        r as int == (a as int) * (b as int),
{
    proof {
        assert((i128::MIN as int) < (a as int) * (b as int) < (i128::MAX as int))
            by (nonlinear_arith)
            requires
                i64::MIN as int <= a as int <= i64::MAX as int,
                i64::MIN as int <= b as int <= i64::MAX as int;
    }
    (a as i128) * (b as i128)
}

/// Floor square root of a `u128`.
pub fn isqrt(n: u128) -> (r: u64)
    ensures
        r as nat == sqrt_floor(n as nat),
{
    let mut lo: u128 = 0;
    let mut hi: u128 = 0x1_0000_0000_0000_0000;
    proof {
        assert((hi as nat) * (hi as nat) > n as nat) by (nonlinear_arith)
            requires
                hi as nat == 0x1_0000_0000_0000_0000,
                n as nat <= u128::MAX as nat;
    }
    while lo + 1 < hi
        invariant
            lo < hi <= 0x1_0000_0000_0000_0000,
            (lo as nat) * (lo as nat) <= n as nat,
            (n as nat) < (hi as nat) * (hi as nat),
        decreases hi - lo,
    {
        let mid: u128 = lo + (hi - lo) / 2;
        proof {
            assert((mid as nat) * (mid as nat) <= (u128::MAX as nat)) by (nonlinear_arith)
                requires
                    (mid as nat) < 0x1_0000_0000_0000_0000;
        }
        if mid * mid <= n {
            lo = mid;
        } else {
            hi = mid;
        }
    }
    proof {
        lemma_sqrt_floor_unique(n as nat, lo as nat);
    }
    lo as u64
}

/// Truncating division of an `i128` by a positive `i128`, with the
/// quotient kept wide.
pub fn tdiv128w(a: i128, b: i128) -> (r: i128)
    requires
        b > 0,
        a != i128::MIN,
    ensures
        r as int == tdiv(a as int, b as int),
{
    if a >= 0 {
        proof {
            vstd::arithmetic::div_mod::lemma_div_nonincreasing(a as int, b as int);
            vstd::arithmetic::div_mod::lemma_div_pos_is_pos(a as int, b as int);
        }
        let q: u128 = (a as u128) / (b as u128);
        q as i128
    } else {
        proof {
            vstd::arithmetic::div_mod::lemma_div_nonincreasing(-(a as int), b as int);
            vstd::arithmetic::div_mod::lemma_div_pos_is_pos(-(a as int), b as int);
        }
        let q: u128 = ((-a) as u128) / (b as u128);
        -(q as i128)
    }
}

/// Ceiling on accumulated light along one channel.
pub const ACC_CAP: i64 = 1_000_000_000_000_000;

/// Addition of non-negative channels, saturating at `ACC_CAP`.
pub open spec fn add_sat_spec(a: int, b: int) -> int {
    if a + b > ACC_CAP as int {
        ACC_CAP as int
    } else {
        a + b
    }
}

pub fn add_sat(a: i64, b: i64) -> (r: i64)
    requires
        0 <= a <= ACC_CAP,
        0 <= b <= 1_000_000_000_000_000_000,
    ensures
        r as int == add_sat_spec(a as int, b as int),
        0 <= r <= ACC_CAP,
{
    if a + b > ACC_CAP {
        ACC_CAP
    } else {
        a + b
    }
}

/// Bound on a product from bounds on its factors.
pub proof fn lemma_prod_bound(a: int, b: int, la: int, lb: int)
    requires
        0 <= la,
        0 <= lb,
        -la <= a <= la,
        -lb <= b <= lb,
    ensures
        -(la * lb) <= a * b <= la * lb,
{
    assert(-(la * lb) <= a * b <= la * lb) by (nonlinear_arith)
        requires
            -la <= a <= la,
            -lb <= b <= lb;
}

/// Bound on a fixed-point product from bounds on its factors:
/// if `la * lb <= k * SCALE` then the product lies in `[-k, k]`.
pub proof fn lemma_fx_mul_bound(a: int, b: int, la: int, lb: int, k: int)
    requires
        0 <= la,
        0 <= lb,
        0 <= k,
        -la <= a <= la,
        -lb <= b <= lb,
        la * lb <= k * (SCALE as int),
    ensures
        -k <= fx_mul_spec(a, b) <= k,
{
    lemma_prod_bound(a, b, la, lb);
    lemma_tdiv_bound(a * b, SCALE as int, k);
}

/// The fixed-point product of non-negative values is non-negative.
pub proof fn lemma_fx_mul_nonneg(a: int, b: int)
    requires
        0 <= a,
        0 <= b,
    ensures
        0 <= fx_mul_spec(a, b),
{
    assert(0 <= a * b) by (nonlinear_arith)
        requires
            0 <= a,
            0 <= b;
    lemma_tdiv_nonneg(a * b, SCALE as int);
}

/// Clamp a channel to the unit interval `[0, SCALE]`.
pub open spec fn clamp01_spec(c: int) -> int {
    if c < 0 {
        0
    } else if c > SCALE as int {
        SCALE as int
    } else {
        c
    }
}

pub fn clamp01(c: i64) -> (r: i64)
    ensures
        r as int == clamp01_spec(c as int),
{
    if c < 0 {
        0
    } else if c > SCALE {
        SCALE
    } else {
        c
    }
}

/// `|tdiv(a, b)| <= k` whenever `|a| <= k * b`.
pub proof fn lemma_tdiv_bound(a: int, b: int, k: int)
    requires
        b > 0,
        k >= 0,
        -(k * b) <= a <= k * b,
    ensures
        -k <= tdiv(a, b) <= k,
{
    vstd::arithmetic::mul::lemma_mul_is_commutative(k, b);
    vstd::arithmetic::div_mod::lemma_div_multiples_vanish(k, b);
    if a >= 0 {
        vstd::arithmetic::div_mod::lemma_div_is_ordered(a, k * b, b);
        vstd::arithmetic::div_mod::lemma_div_pos_is_pos(a, b);
    } else {
        vstd::arithmetic::div_mod::lemma_div_is_ordered(-a, k * b, b);
        vstd::arithmetic::div_mod::lemma_div_pos_is_pos(-a, b);
    }
}

/// Truncating division of a non-negative value by a positive one is
/// non-negative, and monotone in the numerator.
pub proof fn lemma_tdiv_nonneg(a: int, b: int)
    requires
        a >= 0,
        b > 0,
    ensures
        tdiv(a, b) >= 0,
{
    vstd::arithmetic::div_mod::lemma_div_pos_is_pos(a, b);
}

pub proof fn lemma_tdiv_mono(a1: int, a2: int, b: int)
    requires
        a1 <= a2,
        0 <= a1,
        b > 0,
    ensures
        tdiv(a1, b) <= tdiv(a2, b),
{
    vstd::arithmetic::div_mod::lemma_div_is_ordered(a1, a2, b);
}

/// Doubling a non-negative numerator at least doubles the quotient.
pub proof fn lemma_tdiv_double(a: int, b: int)
    requires
        a >= 0,
        b > 0,
    ensures
        tdiv(2 * a, b) >= 2 * tdiv(a, b),
{
    vstd::arithmetic::div_mod::lemma_fundamental_div_mod(a, b);
    vstd::arithmetic::div_mod::lemma_mod_division_less_than_divisor(a, b);
    let q = a / b;
    let m = a % b;
    assert(2 * a == b * (2 * q) + 2 * m) by (nonlinear_arith)
        requires
            a == b * q + m;
    if 2 * m < b {
        vstd::arithmetic::div_mod::lemma_div_multiples_vanish_fancy(2 * q, 2 * m, b);
        assert(tdiv(2 * a, b) == 2 * q);
    } else {
        assert(2 * a == b * (2 * q + 1) + (2 * m - b)) by (nonlinear_arith)
            requires
                2 * a == b * (2 * q) + 2 * m;
        vstd::arithmetic::div_mod::lemma_div_multiples_vanish_fancy(2 * q + 1, 2 * m - b, b);
    }
}

} // verus!
