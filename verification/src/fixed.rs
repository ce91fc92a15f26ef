//! Fixed-point scalars: an `i64` raw value `r` stands for the real number
//! `r / SCALE`. All rounding is truncation toward zero, and each executable
//! operation is pinned to the matching spec function exactly.

use vstd::arithmetic::div_mod::{
    lemma_div_is_ordered, lemma_div_multiples_vanish, lemma_div_nonincreasing,
    lemma_div_pos_is_pos, lemma_fundamental_div_mod, lemma_mod_division_less_than_divisor,
};
use vstd::prelude::*;

verus! {

/// Scale factor: one whole unit in fixed-point form (2^16).
pub const SCALE: i64 = 65536;

/// Magnitude of an integer.
pub open spec fn sabs(a: int) -> int {
    if a >= 0 {
        a
    } else {
        -a
    }
}

/// Division truncated toward zero, the rounding used by all executable code here.
pub open spec fn tdiv(a: int, b: int) -> int {
    if (a < 0) == (b < 0) {
        sabs(a) / sabs(b)
    } else {
        -(sabs(a) / sabs(b))
    }
}

/// Fixed-point product: `(a * b) / SCALE`, truncated toward zero.
pub open spec fn fmul(a: int, b: int) -> int {
    tdiv(a * b, SCALE as int)
}

/// Fixed-point quotient: `(a * SCALE) / b`, truncated toward zero.
pub open spec fn fdiv(a: int, b: int) -> int {
    tdiv(a * (SCALE as int), b)
}

/// Integer square root, rounded down.
pub open spec fn isqrt(n: nat) -> nat
    decreases n,
{
    if n == 0 {
        0
    } else {
        let r = 2 * isqrt((n / 4) as nat);
        if (r + 1) * (r + 1) <= n {
            (r + 1) as nat
        } else {
            r
        }
    }
}

/// Fixed-point square root of a nonnegative fixed-point value:
/// the raw result is `isqrt(a * SCALE)`.
pub open spec fn fsqrt(a: int) -> int {
    isqrt((a * (SCALE as int)) as nat) as int
}

/// `isqrt(n)` is the exact rounded-down square root.
pub proof fn lemma_isqrt_bounds(n: nat)
    ensures
        isqrt(n) * isqrt(n) <= n,
        n < (isqrt(n) + 1) * (isqrt(n) + 1),
    decreases n,
{
    if n == 0 {
        assert(isqrt(0) == 0);
        assert(isqrt(n) * isqrt(n) <= n);
        assert((isqrt(n) + 1) * (isqrt(n) + 1) == 1) by (nonlinear_arith)
            requires
                isqrt(n) == 0,
        ;
    } else {
        let m = (n / 4) as nat;
        assert(m < n) by {
            lemma_div_nonincreasing(n as int, 4);
            if m == n {
                lemma_fundamental_div_mod(n as int, 4);
                lemma_mod_division_less_than_divisor(n as int, 4);
                assert(n as int == 4 * (n as int / 4) + n as int % 4);
                assert(false);
            }
        }
        lemma_isqrt_bounds(m);
        let r0 = isqrt(m);
        lemma_fundamental_div_mod(n as int, 4);
        lemma_mod_division_less_than_divisor(n as int, 4);
        assert(4 * m <= n <= 4 * m + 3);
        assert((2 * r0) * (2 * r0) <= 4 * m) by (nonlinear_arith)
            requires
                r0 * r0 <= m,
        ;
        assert(n < 4 * ((r0 + 1) * (r0 + 1))) by (nonlinear_arith)
            requires
                m < (r0 + 1) * (r0 + 1),
                n <= 4 * m + 3,
        ;
        assert((2 * r0 + 2) * (2 * r0 + 2) == 4 * ((r0 + 1) * (r0 + 1))) by (nonlinear_arith);
        if (2 * r0 + 1) * (2 * r0 + 1) <= n {
            assert(isqrt(n) == 2 * r0 + 1);
            assert(isqrt(n) * isqrt(n) <= n);
            assert(n < (isqrt(n) + 1) * (isqrt(n) + 1));
        } else {
            assert(isqrt(n) == 2 * r0);
            assert(isqrt(n) * isqrt(n) <= n);
            assert(n < (isqrt(n) + 1) * (isqrt(n) + 1));
        }
    }
}

/// Rounded-down square roots are unique: any `r` between the same squares is `isqrt(n)`.
pub proof fn lemma_isqrt_unique(n: nat, r: nat)
    requires
        r * r <= n,
        n < (r + 1) * (r + 1),
    ensures
        r == isqrt(n),
{
    lemma_isqrt_bounds(n);
    let s = isqrt(n);
    if r < s {
        assert((r + 1) * (r + 1) <= s * s) by (nonlinear_arith)
            requires
                r + 1 <= s,
        ;
        assert(false);
    }
    if s < r {
        assert((s + 1) * (s + 1) <= r * r) by (nonlinear_arith)
            requires
                s + 1 <= r,
        ;
        assert(false);
    }
}

/// Truncating division never grows the magnitude: `|tdiv(a, b)| * |b| <= |a|`.
pub proof fn lemma_tdiv_mag(a: int, b: int)
    requires
        b != 0,
    ensures
        0 <= sabs(tdiv(a, b)),
        sabs(tdiv(a, b)) * sabs(b) <= sabs(a),
        sabs(tdiv(a, b)) <= sabs(a),
{
    let ua = sabs(a);
    let ub = sabs(b);
    lemma_div_pos_is_pos(ua, ub);
    lemma_fundamental_div_mod(ua, ub);
    lemma_mod_division_less_than_divisor(ua, ub);
    assert(sabs(tdiv(a, b)) == ua / ub);
    assert((ua / ub) * ub == ub * (ua / ub)) by (nonlinear_arith);
    lemma_div_nonincreasing(ua, ub);
}

/// A magnitude bound for fixed-point products, in product form so that call
/// sites with literal bounds can conclude `|fmul(a, b)| <= ba * bb / SCALE`.
pub proof fn lemma_fmul_bound(a: int, b: int, ba: int, bb: int)
    requires
        sabs(a) <= ba,
        sabs(b) <= bb,
    ensures
        sabs(fmul(a, b)) * (SCALE as int) <= ba * bb,
        0 <= sabs(fmul(a, b)),
{
    assert(sabs(a * b) <= ba * bb) by (nonlinear_arith)
        requires
            sabs(a) <= ba,
            sabs(b) <= bb,
    ;
    lemma_tdiv_mag(a * b, SCALE as int);
}

/// Fixed-point multiplication is commutative.
pub proof fn lemma_fmul_commute(a: int, b: int)
    ensures
        fmul(a, b) == fmul(b, a),
{
    assert(a * b == b * a) by (nonlinear_arith);
}

/// Negating one factor negates the fixed-point product exactly.
pub proof fn lemma_fmul_neg(a: int, b: int)
    ensures
        fmul(-a, b) == -fmul(a, b),
{
    assert((-a) * b == -(a * b)) by (nonlinear_arith);
    assert(sabs(-(a * b)) == sabs(a * b));
}

/// A fixed-point square is never negative.
pub proof fn lemma_fmul_sq_nonneg(a: int)
    ensures
        0 <= fmul(a, a),
{
    assert(0 <= a * a) by (nonlinear_arith);
    lemma_div_pos_is_pos(a * a, SCALE as int);
}

/// Multiplying a nonnegative value by one whole unit is exact.
pub proof fn lemma_fmul_unit(v: int)
    requires
        0 <= v,
    ensures
        fmul(v, SCALE as int) == v,
{
    assert(v * (SCALE as int) == (SCALE as int) * v) by (nonlinear_arith);
    lemma_div_multiples_vanish(v, SCALE as int);
}

/// Truncating division by a positive divisor is monotone in the numerator.
pub proof fn lemma_tdiv_mono(a1: int, a2: int, b: int)
    requires
        a1 <= a2,
        b >= 1,
    ensures
        tdiv(a1, b) <= tdiv(a2, b),
{
    if a1 >= 0 {
        lemma_div_is_ordered(a1, a2, b);
    } else if a2 < 0 {
        lemma_div_is_ordered(-a2, -a1, b);
    } else {
        lemma_div_pos_is_pos(-a1, b);
        lemma_div_pos_is_pos(a2, b);
    }
}

/// Truncating division, computed through nonnegative 64-bit quotients.
pub fn div_trunc(a: i64, b: i64) -> (r: i64)
    requires
        -0x4000_0000_0000_0000 <= a <= 0x4000_0000_0000_0000,
        -0x4000_0000_0000_0000 <= b <= 0x4000_0000_0000_0000,
        b != 0,
    ensures
        r == tdiv(a as int, b as int),
        sabs(r as int) <= sabs(a as int),
{
    let ua: u64 = if a >= 0 {
        a as u64
    } else {
        (-a) as u64
    };
    let ub: u64 = if b >= 0 {
        b as u64
    } else {
        (-b) as u64
    };
    proof {
        assert(ua as int == sabs(a as int));
        assert(ub as int == sabs(b as int));
    }
    let q: u64 = ua / ub;
    proof {
        lemma_div_pos_is_pos(ua as int, ub as int);
        lemma_div_nonincreasing(ua as int, ub as int);
    }
    if (a < 0) != (b < 0) {
        -(q as i64)
    } else {
        q as i64
    }
}

/// Fixed-point multiplication: `(a * b) / SCALE`, truncated toward zero.
pub fn fix_mul(a: i64, b: i64) -> (r: i64)
    requires
        -0x4000_0000_0000_0000 <= a * b <= 0x4000_0000_0000_0000,
    ensures
        r == fmul(a as int, b as int),
{
    let p: i64 = a * b;
    div_trunc(p, SCALE)
}

/// Fixed-point division: `(a * SCALE) / b`, truncated toward zero.
pub fn fix_div(a: i64, b: i64) -> (r: i64)
    requires
        -0x4000_0000_0000 <= a <= 0x4000_0000_0000,
        -0x4000_0000_0000_0000 <= b <= 0x4000_0000_0000_0000,
        b != 0,
    ensures
        r == fdiv(a as int, b as int),
{
    let p: i64 = a * SCALE;
    div_trunc(p, b)
}

/// Rounded-down integer square root by bisection.
pub fn isqrt_u64(n: u64) -> (r: u64)
    ensures
        r as nat == isqrt(n as nat),
        (r as int) * (r as int) <= n as int,
        (n as int) < (r as int + 1) * (r as int + 1),
        r <= 0x1_0000_0000,
{
    let mut lo: u64 = 0;
    let mut hi: u64 = 0x1_0000_0000;
    proof {
        assert((n as int) < 0x1_0000_0000 * 0x1_0000_0000) by (nonlinear_arith)
            requires
                n <= 0xFFFF_FFFF_FFFF_FFFFu64,
        ;
    }
    while lo + 1 < hi
        invariant
            lo < hi,
            hi <= 0x1_0000_0000,
            (lo as int) * (lo as int) <= n as int,
            (n as int) < (hi as int) * (hi as int),
        decreases hi - lo,
    {
        let mid: u64 = lo + (hi - lo) / 2;
        proof {
            assert(mid < hi);
            assert(lo < mid);
            assert((mid as int) * (mid as int) < 0x1_0000_0000_0000_0000) by (nonlinear_arith)
                requires
                    mid <= 0xFFFF_FFFFu64,
            ;
        }
        if mid * mid <= n {
            lo = mid;
        } else {
            hi = mid;
        }
    }
    proof {
        lemma_isqrt_unique(n as nat, lo as nat);
    }
    lo
}

/// Fixed-point square root: the raw result is `isqrt(a * SCALE)`.
pub fn fix_sqrt(a: i64) -> (r: i64)
    requires
        0 <= a <= 0x4000_0000_0000,
    ensures
        r == fsqrt(a as int),
        0 <= r <= 0x1_0000_0000,
{
    proof {
        assert((a as int) * (SCALE as int) <= 0x4000_0000_0000_0000) by (nonlinear_arith)
            requires
                0 <= a <= 0x4000_0000_0000,
        ;
    }
    let p: u64 = (a as u64) * (SCALE as u64);
    let q: u64 = isqrt_u64(p);
    q as i64
}

/// Whole number to fixed point: the raw value of `v` units.
pub fn to_fixed(v: i64) -> (r: i64)
    requires
        -0x2000_0000_0000 <= v <= 0x2000_0000_0000,
    ensures
        r == v * (SCALE as int),
{
    v * SCALE
}

} // verus!
