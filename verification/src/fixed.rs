//! Signed 16.16 fixed-point arithmetic.
//!
//! A fixed-point value is an `i64` holding `value * 65536`.  Every operation
//! has an exact specification over mathematical integers, written with
//! sign-magnitude flooring so that the executable code (which works on
//! unsigned magnitudes) matches it literally.

use vstd::prelude::*;

verus! {

use vstd::arithmetic::div_mod::lemma_div_is_ordered;
use vstd::arithmetic::div_mod::lemma_div_multiples_vanish;
use vstd::arithmetic::div_mod::lemma_div_nonincreasing;
use vstd::arithmetic::div_mod::lemma_div_pos_is_pos;
use vstd::arithmetic::div_mod::lemma_fundamental_div_mod;
use vstd::arithmetic::div_mod::lemma_fundamental_div_mod_converse;
use vstd::arithmetic::mul::lemma_mul_upper_bound;
/// The magnitude of an integer.
pub open spec fn mag(a: int) -> int {
    if a < 0 {
        -a
    } else {
        a
    }
}

/// One whole unit (one voxel width): 2^16.
pub const FX_ONE: i64 = 65536;

/// Magnitude cap on the first factor of `fx_mul`.
pub const FX_MUL_MAX_A: i64 = 0x800_0000_0000;

/// Magnitude cap on the second factor of `fx_mul`.
pub const FX_MUL_MAX_B: i64 = 0x8_0000_0000;

/// Magnitude cap on the numerator of `fx_div`.
pub const FX_DIV_MAX_NUM: i64 = 0x4000_0000_0000;

/// Product of two fixed-point values: `(a * b) / 2^16`, with the magnitude
/// rounded toward zero.
pub open spec fn fx_mul_spec(a: int, b: int) -> int {
    if (a < 0) != (b < 0) {
        -((mag(a) * mag(b)) / 65536)
    } else {
        (mag(a) * mag(b)) / 65536
    }
}

/// Quotient of two fixed-point values: `(a * 2^16) / b`, with the magnitude
/// rounded toward zero.  Defined as 0 for a zero divisor so that the
/// function is total; executable callers must still pass `b != 0`.
pub open spec fn fx_div_spec(a: int, b: int) -> int {
    if b == 0 {
        0
    } else if (a < 0) != (b < 0) {
        -((mag(a) * 65536) / mag(b))
    } else {
        (mag(a) * 65536) / mag(b)
    }
}

/// The integer square root, rounded down.
pub open spec fn sqrt_floor(n: nat) -> nat
    decreases n,
{
    if n == 0 {
        0
    } else {
        let r = sqrt_floor((n - 1) as nat);
        if (r + 1) * (r + 1) <= n {
            r + 1
        } else {
            r
        }
    }
}

pub proof fn lemma_sqrt_floor_bounds(n: nat)
    ensures
        sqrt_floor(n) * sqrt_floor(n) <= n,
        n < (sqrt_floor(n) + 1) * (sqrt_floor(n) + 1),
    decreases n,
{
    if n == 0 {
        let s = sqrt_floor(n);
        assert(s == 0);
        assert(n < (s + 1) * (s + 1)) by (nonlinear_arith)
            requires
                n == 0,
                s == 0,
        ;
    } else {
        lemma_sqrt_floor_bounds((n - 1) as nat);
        let r = sqrt_floor((n - 1) as nat);
        let s = sqrt_floor(n);
        if (r + 1) * (r + 1) <= n {
            assert(s == r + 1);
            assert(s * s <= n);
            assert((s + 1) * (s + 1) > (r + 1) * (r + 1)) by (nonlinear_arith)
                requires
                    s == r + 1,
                    0 <= r,
            ;
            assert(n < (s + 1) * (s + 1));
        } else {
            assert(s == r);
            assert(s * s <= n);
            assert(n < (s + 1) * (s + 1));
        }
    }
}

pub proof fn lemma_sqrt_floor_unique(n: nat, r: nat)
    requires
        r * r <= n,
        n < (r + 1) * (r + 1),
    ensures
        r == sqrt_floor(n),
{
    lemma_sqrt_floor_bounds(n);
    let s = sqrt_floor(n);
    if r < s {
        assert((r + 1) * (r + 1) <= s * s) by (nonlinear_arith)
            requires
                r < s,
                0 <= r,
        ;
    }
    if s < r {
        assert((s + 1) * (s + 1) <= r * r) by (nonlinear_arith)
            requires
                s < r,
                0 <= s,
        ;
    }
}

/// The magnitude of a fixed-point product is bounded by the product of the
/// factors' magnitude bounds.
pub proof fn lemma_fx_mul_mag(a: int, b: int, ba: int, bb: int)
    requires
        mag(a) <= ba,
        mag(b) <= bb,
    ensures
        mag(fx_mul_spec(a, b)) <= (ba * bb) / 65536,
{
    assert(mag(a) * mag(b) <= ba * bb) by (nonlinear_arith)
        requires
            0 <= mag(a) <= ba,
            0 <= mag(b) <= bb,
    ;
    lemma_div_is_ordered(mag(a) * mag(b), ba * bb, 65536);
    lemma_div_pos_is_pos(mag(a) * mag(b), 65536);
}

/// A fixed-point product of nonnegative factors is nonnegative.
pub proof fn lemma_fx_mul_sign(a: int, b: int)
    requires
        0 <= a,
        0 <= b,
    ensures
        0 <= fx_mul_spec(a, b),
        fx_mul_spec(a, b) == (a * b) / 65536,
{
    assert(0 <= a * b) by (nonlinear_arith)
        requires
            0 <= a,
            0 <= b,
    ;
    lemma_div_pos_is_pos(a * b, 65536);
}

/// A fixed-point quotient of a nonnegative numerator by a positive divisor
/// is nonnegative.
pub proof fn lemma_fx_div_nonneg(a: int, b: int)
    requires
        0 <= a,
        0 < b,
    ensures
        0 <= fx_div_spec(a, b),
        fx_div_spec(a, b) == (a * 65536) / b,
{
    lemma_div_pos_is_pos(a * 65536, b);
}

/// The magnitude of a fixed-point quotient is bounded by the numerator's
/// magnitude bound scaled by 2^16 (the divisor has magnitude at least 1).
pub proof fn lemma_fx_div_mag(a: int, b: int, ba: int)
    requires
        mag(a) <= ba,
    ensures
        mag(fx_div_spec(a, b)) <= ba * 65536,
{
    if b != 0 {
        lemma_div_nonincreasing(mag(a) * 65536, mag(b));
        lemma_div_pos_is_pos(mag(a) * 65536, mag(b));
    }
}

/// Dividing a value by a bound on its own magnitude yields at most one unit.
pub proof fn lemma_fx_div_unit(a: int, b: int)
    requires
        mag(a) <= b,
        0 < b,
    ensures
        mag(fx_div_spec(a, b)) <= 65536,
{
    lemma_div_is_ordered(mag(a) * 65536, b * 65536, b);
    lemma_div_multiples_vanish(65536, b);
    assert(b * 65536 == 65536 * b);
    lemma_div_pos_is_pos(mag(a) * 65536, b);
}

/// Fixed-point multiplication.
pub fn fx_mul(a: i64, b: i64) -> (r: i64)
    requires
        -FX_MUL_MAX_A <= a <= FX_MUL_MAX_A,
        -FX_MUL_MAX_B <= b <= FX_MUL_MAX_B,
    ensures
        r == fx_mul_spec(a as int, b as int),
{
    let am: u128 = if a >= 0 {
        a as u128
    } else {
        (-a) as u128
    };
    let bm: u128 = if b >= 0 {
        b as u128
    } else {
        (-b) as u128
    };
    proof {
        assert(am == mag(a as int));
        assert(bm == mag(b as int));
        lemma_mul_upper_bound(am as int, FX_MUL_MAX_A as int, bm as int, FX_MUL_MAX_B as int);
        lemma_div_is_ordered(am * bm, FX_MUL_MAX_A * FX_MUL_MAX_B, 65536);
        lemma_div_pos_is_pos(am * bm, 65536);
    }
    let m: u128 = (am * bm) / 65536;
    if (a < 0) != (b < 0) {
        -(m as i64)
    } else {
        m as i64
    }
}

/// Fixed-point division.
pub fn fx_div(a: i64, b: i64) -> (r: i64)
    requires
        b != 0,
        -FX_DIV_MAX_NUM <= a <= FX_DIV_MAX_NUM,
    ensures
        r == fx_div_spec(a as int, b as int),
{
    let am: u128 = if a >= 0 {
        a as u128
    } else {
        (-a) as u128
    };
    let bm: u128 = if b >= 0 {
        b as u128
    } else {
        (-(b as i128)) as u128
    };
    proof {
        assert(am == mag(a as int));
        assert(bm == mag(b as int));
        lemma_div_nonincreasing((am * 65536) as int, bm as int);
        lemma_div_pos_is_pos((am * 65536) as int, bm as int);
    }
    let q: u128 = (am * 65536) / bm;
    if (a < 0) != (b < 0) {
        -(q as i64)
    } else {
        q as i64
    }
}

/// The whole-unit part of a fixed-point value, rounded toward negative
/// infinity: the voxel cell that contains the coordinate.
pub fn fx_floor(a: i64) -> (r: i64)
    ensures
        r == (a as int) / 65536,
{
    if a >= 0 {
        ((a as u64) / 65536) as i64
    } else {
        let m: u64 = (-(a as i128)) as u64;
        let q: u64 = (m - 1) / 65536 + 1;
        proof {
            let mi = m as int;
            let qm = mi / 65536;
            let rm = mi % 65536;
            lemma_fundamental_div_mod(mi, 65536);
            if rm == 0 {
                lemma_fundamental_div_mod_converse(-mi, 65536, -qm, 0);
                lemma_fundamental_div_mod_converse(mi - 1, 65536, qm - 1, 65535);
            } else {
                lemma_fundamental_div_mod_converse(-mi, 65536, -qm - 1, 65536 - rm);
                lemma_fundamental_div_mod_converse(mi - 1, 65536, qm, rm - 1);
            }
        }
        -(q as i64)
    }
}

/// The integer square root of a 128-bit value, found by bisection.
pub fn isqrt(n: u128) -> (r: u64)
    requires
        n < 0x4000_0000_0000_0000_0000_0000_0000_0000u128,
    ensures
        r as nat == sqrt_floor(n as nat),
{
    let mut lo: u64 = 0;
    let mut hi: u64 = 0x8000_0000_0000_0000;
    while lo + 1 < hi
        invariant
            lo < hi <= 0x8000_0000_0000_0000,
            (lo as int) * (lo as int) <= n as int,
            (n as int) < (hi as int) * (hi as int),
        decreases hi - lo,
    {
        let mid: u64 = lo + (hi - lo) / 2;
        proof {
            lemma_mul_upper_bound(
                mid as int,
                0x8000_0000_0000_0000,
                mid as int,
                0x8000_0000_0000_0000,
            );
        }
        let sq: u128 = (mid as u128) * (mid as u128);
        if sq <= n {
            lo = mid;
        } else {
            hi = mid;
        }
    }
    proof {
        lemma_sqrt_floor_unique(n as nat, lo as nat);
    }
    lo
}

} // verus!
