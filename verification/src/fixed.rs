//! Fixed-point scalars and the integer square root.
//!
//! A scalar is an `i64` counting raw steps of size `1 / SCALE` world units,
//! so `SCALE` raw steps make one world unit. Lengths are computed with an
//! exact integer square root; division truncates toward zero, as the
//! corresponding binary operation on magnitudes does.

use vstd::prelude::*;

verus! {

/// Raw steps per world unit: `SCALE` as an `i64` is 1.0 in world units.
pub const SCALE: i64 = 1_000_000;

/// Below this length (0.001 world units) a vector normalizes to zero.
pub const NORM_EPS: i64 = 1_000;

/// Below this deflection length (0.1 world units) steering falls back to
/// the straight line toward the target.
pub const FALLBACK_EPS: i64 = 100_000;

/// Steering considers an obstacle only if the dot product of the goal
/// direction with the obstacle direction exceeds this threshold (-0.1 in
/// world units squared, expressed in raw-squared steps).
pub const DOT_EPS: i64 = -100_000_000_000;

/// Largest magnitude of a world coordinate (about 1050 world units).
pub const PT_LIMIT: i64 = 1_050_000_000;

/// Largest magnitude of a vector component accepted by length and
/// normalization routines; steering intermediates stay within it.
pub const VEC_LIMIT: i64 = 4_000_000_000_000;

/// Largest magnitude accepted per component by the dot product.
pub const DOT_LIMIT: i64 = 2_100_000_000;

/// Largest radius or placement separation (100 world units).
pub const R_LIMIT: i64 = 100_000_000;

/// Largest per-tick speed (100 world units per tick).
pub const SPEED_LIMIT: i64 = 100_000_000;

/// Largest obstacle count accepted by the steering engine.
pub const MAX_OBS: usize = 10_000;

/// The integer square root, rounded down: the largest `r` with `r * r <= n`.
pub open spec fn sqrt_floor(n: nat) -> nat
    decreases n,
{
    if n == 0 {
        0
    } else {
        let p = sqrt_floor((n - 1) as nat);
        if (p + 1) * (p + 1) <= n {
            p + 1
        } else {
            p
        }
    }
}

/// The integer square root, rounded up: the smallest `r` with `n <= r * r`.
pub open spec fn sqrt_ceil(n: nat) -> nat {
    let p = sqrt_floor(n);
    if p * p == n {
        p
    } else {
        p + 1
    }
}

/// Division truncating toward zero (the rounding of hardware division),
/// for a positive divisor.
pub open spec fn tdiv(a: int, b: int) -> int {
    if a >= 0 {
        a / b
    } else {
        -((-a) / b)
    }
}

pub proof fn lemma_sqrt_floor_bounds(n: nat)
    ensures
        sqrt_floor(n) * sqrt_floor(n) <= n,
        n < (sqrt_floor(n) + 1) * (sqrt_floor(n) + 1),
    decreases n,
{
    if n == 0 {
        assert(sqrt_floor(0) == 0);
        assert(0 < (0 + 1) * (0 + 1)) by (nonlinear_arith);
    } else {
        let m = (n - 1) as nat;
        lemma_sqrt_floor_bounds(m);
        let p = sqrt_floor(m);
        assert(p * p <= m);
        assert(m < (p + 1) * (p + 1));
        if (p + 1) * (p + 1) <= n {
            assert(sqrt_floor(n) == p + 1);
            assert(n == (p + 1) * (p + 1));
            assert((p + 1) * (p + 1) < (p + 2) * (p + 2)) by (nonlinear_arith);
        } else {
            assert(sqrt_floor(n) == p);
            assert(p * p <= n);
            assert(n < (p + 1) * (p + 1));
        }
    }
}

pub proof fn lemma_sqrt_floor_unique(n: nat, r: nat)
    requires
        r * r <= n,
        n < (r + 1) * (r + 1),
    ensures
        r == sqrt_floor(n),
{
    let s = sqrt_floor(n);
    lemma_sqrt_floor_bounds(n);
    if s < r {
        assert(r * r >= (s + 1) * (s + 1)) by (nonlinear_arith)
            requires
                r >= s + 1,
        ;
    }
    if r < s {
        assert(s * s >= (r + 1) * (r + 1)) by (nonlinear_arith)
            requires
                s >= r + 1,
        ;
    }
}

pub proof fn lemma_sqrt_ceil_bounds(n: nat)
    ensures
        n <= sqrt_ceil(n) * sqrt_ceil(n),
        sqrt_floor(n) <= sqrt_ceil(n) <= sqrt_floor(n) + 1,
        n > 0 ==> sqrt_ceil(n) >= 1,
        n > 0 ==> (sqrt_ceil(n) - 1) * (sqrt_ceil(n) - 1) < n,
{
    lemma_sqrt_floor_bounds(n);
    let p = sqrt_floor(n);
    if n > 0 {
        if p * p == n {
            assert(p >= 1) by (nonlinear_arith)
                requires
                    p * p == n,
                    n > 0,
            ;
            assert((p - 1) * (p - 1) < p * p) by (nonlinear_arith)
                requires
                    p >= 1,
            ;
        }
    }
}

/// The square root rounded down is monotone.
pub proof fn lemma_sqrt_floor_monotone(a: nat, b: nat)
    requires
        a <= b,
    ensures
        sqrt_floor(a) <= sqrt_floor(b),
{
    let sa = sqrt_floor(a);
    let sb = sqrt_floor(b);
    lemma_sqrt_floor_bounds(a);
    lemma_sqrt_floor_bounds(b);
    if sb < sa {
        assert(sa * sa > (sb + 1) * (sb + 1) - 1) by (nonlinear_arith)
            requires
                sa >= sb + 1,
        ;
    }
}

/// The integer square root, computed by binary search on the answer.
pub fn isqrt(n: u128) -> (r: u64)
    ensures
        r as nat == sqrt_floor(n as nat),
{
    if n == 0 {
        proof {
            assert((0 + 1) * (0 + 1) == 1) by (nonlinear_arith);
            lemma_sqrt_floor_unique(0, 0);
        }
        return 0;
    }
    let mut lo: u128 = 0;
    let mut hi: u128 = 0x1_0000_0000_0000_0000;
    proof {
        assert((0x1_0000_0000_0000_0000u128 as nat) * (0x1_0000_0000_0000_0000u128 as nat)
            > u128::MAX as nat) by (nonlinear_arith);
    }
    while lo + 1 < hi
        invariant
            lo < hi <= 0x1_0000_0000_0000_0000,
            (lo as nat) * (lo as nat) <= n as nat,
            (n as nat) < (hi as nat) * (hi as nat),
        decreases hi - lo,
    {
        let mid = lo + (hi - lo) / 2;
        assert((mid as nat) * (mid as nat) <= (0xFFFF_FFFF_FFFF_FFFFu128 as nat) * (
        0xFFFF_FFFF_FFFF_FFFFu128 as nat)) by (nonlinear_arith)
            requires
                mid <= 0xFFFF_FFFF_FFFF_FFFFu128,
        ;
        assert((0xFFFF_FFFF_FFFF_FFFFu128 as nat) * (0xFFFF_FFFF_FFFF_FFFFu128 as nat)
            <= u128::MAX as nat) by (nonlinear_arith);
        if mid * mid <= n {
            lo = mid;
        } else {
            hi = mid;
        }
    }
    proof {
        lemma_sqrt_floor_unique(n as nat, lo as nat);
    }
    lo as u64
}

/// The square root of an exact square.
pub proof fn lemma_sqrt_floor_square(s: nat)
    ensures
        sqrt_floor(s * s) == s,
{
    assert(s * s < (s + 1) * (s + 1)) by (nonlinear_arith);
    lemma_sqrt_floor_unique(s * s, s);
}

/// Squaring a quotient recovers at most the squared dividend.
pub proof fn lemma_div_sq_upper(a: int, l: int)
    requires
        a >= 0,
        l >= 1,
    ensures
        (a / l) * (a / l) * l * l <= a * a,
{
    let q = a / l;
    let r = a % l;
    vstd::arithmetic::div_mod::lemma_fundamental_div_mod(a, l);
    vstd::arithmetic::div_mod::lemma_mod_bound(a, l);
    vstd::arithmetic::div_mod::lemma_div_pos_is_pos(a, l);
    assert(q * q * l * l <= a * a) by (nonlinear_arith)
        requires
            a == l * q + r,
            0 <= r,
            q >= 0,
            l >= 1,
    ;
}

/// Squaring a quotient loses at most `2 * a * l` against the squared
/// dividend.
pub proof fn lemma_div_sq_lower(a: int, l: int)
    requires
        a >= 0,
        l >= 1,
    ensures
        (a / l) * (a / l) * l * l >= a * a - 2 * a * l,
{
    let q = a / l;
    let r = a % l;
    vstd::arithmetic::div_mod::lemma_fundamental_div_mod(a, l);
    vstd::arithmetic::div_mod::lemma_mod_bound(a, l);
    vstd::arithmetic::div_mod::lemma_div_pos_is_pos(a, l);
    assert(q * q * l * l >= a * a - 2 * a * l) by (nonlinear_arith)
        requires
            a == l * q + r,
            0 <= r < l,
            q >= 0,
            a >= 0,
            l >= 1,
    ;
}

/// Truncating division never grows the magnitude.
pub proof fn lemma_tdiv_mag(a: int, b: int)
    requires
        b > 0,
    ensures
        a >= 0 ==> 0 <= tdiv(a, b) <= a,
        a < 0 ==> a <= tdiv(a, b) <= 0,
{
    if a >= 0 {
        vstd::arithmetic::div_mod::lemma_div_pos_is_pos(a, b);
        vstd::arithmetic::div_mod::lemma_div_nonincreasing(a, b);
    } else {
        vstd::arithmetic::div_mod::lemma_div_pos_is_pos(-a, b);
        vstd::arithmetic::div_mod::lemma_div_nonincreasing(-a, b);
    }
}

/// A bound on the magnitude survives truncating division.
pub proof fn lemma_tdiv_bound_by(a: int, b: int, m: int)
    requires
        b > 0,
        -m <= a <= m,
    ensures
        -m <= tdiv(a, b) <= m,
{
    lemma_tdiv_mag(a, b);
}

/// Scaling a scalar no larger than `l` by `s / l` stays within `s`.
pub proof fn lemma_tdiv_scaled_bound(a: int, l: int, s: int)
    requires
        l > 0,
        s >= 0,
        -l <= a <= l,
    ensures
        -s <= tdiv(a * s, l) <= s,
{
    if a >= 0 {
        assert(0 <= a * s <= l * s) by (nonlinear_arith)
            requires
                0 <= a <= l,
                0 <= s,
        ;
        vstd::arithmetic::div_mod::lemma_div_pos_is_pos(a * s, l);
        vstd::arithmetic::div_mod::lemma_div_is_ordered(a * s, l * s, l);
        vstd::arithmetic::div_mod::lemma_div_multiples_vanish(s, l);
        assert(l * s == s * l) by (nonlinear_arith);
        assert((l * s) / l == s);
    } else {
        assert(0 <= (-a) * s <= l * s) by (nonlinear_arith)
            requires
                0 <= -a <= l,
                0 <= s,
        ;
        assert(-(a * s) == (-a) * s) by (nonlinear_arith);
        if a * s >= 0 {
            assert(a * s == 0);
            vstd::arithmetic::div_mod::lemma_div_of0(l);
        } else {
            vstd::arithmetic::div_mod::lemma_div_pos_is_pos((-a) * s, l);
            vstd::arithmetic::div_mod::lemma_div_is_ordered((-a) * s, l * s, l);
            vstd::arithmetic::div_mod::lemma_div_multiples_vanish(s, l);
            assert(l * s == s * l) by (nonlinear_arith);
        }
    }
}

/// Division truncating toward zero, through unsigned magnitudes.
pub fn div_trunc(a: i64, b: i64) -> (q: i64)
    requires
        b > 0,
        a > i64::MIN,
    ensures
        q == tdiv(a as int, b as int),
        -(if a >= 0 {
            a as int
        } else {
            -(a as int)
        }) <= q <= (if a >= 0 {
            a as int
        } else {
            -(a as int)
        }),
{
    if a >= 0 {
        let q = (a as u64) / (b as u64);
        q as i64
    } else {
        let m = (-a) as u64;
        let q = m / (b as u64);
        -(q as i64)
    }
}

} // verus!
