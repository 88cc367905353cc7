//! Fixed-point 3-vectors.
//!
//! Executable vectors hold 16.16 fixed-point components; every operation is
//! specified exactly over integer triples, so contracts elsewhere can speak
//! of the mathematical value of each geometric step.

use vstd::prelude::*;

verus! {

use crate::fixed::FX_MUL_MAX_A;
use crate::fixed::FX_MUL_MAX_B;
use crate::fixed::FX_ONE;
use crate::fixed::fx_div;
use crate::fixed::fx_div_spec;
use crate::fixed::fx_mul;
use crate::fixed::fx_mul_spec;
use crate::fixed::isqrt;
use crate::fixed::lemma_fx_div_unit;
use crate::fixed::lemma_fx_mul_mag;
use crate::fixed::lemma_sqrt_floor_bounds;
use crate::fixed::mag;
use crate::fixed::sqrt_floor;

/// Magnitude cap on the components handed to `v3_cross`.
pub const CROSS_IN_MAX: i64 = 0x400_0000;

/// Magnitude cap on the components of a cross product of capped inputs.
pub const CROSS_OUT_MAX: i64 = 0x20_0000_0000;

/// Magnitude cap on the components handed to `v3_len` and `v3_norm`.
pub const LEN_IN_MAX: i64 = 0x1000_0000_0000;

/// Cap on the length of a vector with `LEN_IN_MAX`-bounded components.
pub const LEN_OUT_MAX: i64 = 0x2000_0000_0000;

/// A 3-vector of 16.16 fixed-point coordinates.
#[derive(Clone, Copy, PartialEq, Eq, Structural, Debug)]
pub struct Vec3Fx {
    pub x: i64,
    pub y: i64,
    pub z: i64,
}

/// The mathematical value of a vector: its components as integers.
pub open spec fn v3(v: Vec3Fx) -> (int, int, int) {
    (v.x as int, v.y as int, v.z as int)
}

pub open spec fn vadd(a: (int, int, int), b: (int, int, int)) -> (int, int, int) {
    (a.0 + b.0, a.1 + b.1, a.2 + b.2)
}

pub open spec fn vsub(a: (int, int, int), b: (int, int, int)) -> (int, int, int) {
    (a.0 - b.0, a.1 - b.1, a.2 - b.2)
}

/// Componentwise fixed-point scaling by `s`.
pub open spec fn vscale(s: int, a: (int, int, int)) -> (int, int, int) {
    (fx_mul_spec(s, a.0), fx_mul_spec(s, a.1), fx_mul_spec(s, a.2))
}

/// Fixed-point cross product.
pub open spec fn vcross(a: (int, int, int), b: (int, int, int)) -> (int, int, int) {
    (
        fx_mul_spec(a.1, b.2) - fx_mul_spec(a.2, b.1),
        fx_mul_spec(a.2, b.0) - fx_mul_spec(a.0, b.2),
        fx_mul_spec(a.0, b.1) - fx_mul_spec(a.1, b.0),
    )
}

/// Squared Euclidean length, in raw (squared fixed-point) units.
pub open spec fn vlen2(a: (int, int, int)) -> int {
    a.0 * a.0 + a.1 * a.1 + a.2 * a.2
}

/// Fixed-point Euclidean length: the integer square root of the squared
/// length, which is again a 16.16 fixed-point value.
pub open spec fn vlen(a: (int, int, int)) -> int {
    sqrt_floor(vlen2(a) as nat) as int
}

/// Normalization: each component divided by the length; the zero vector for
/// a vector of zero length.  Components of the result have magnitude at
/// most one unit.
pub open spec fn vnorm(a: (int, int, int)) -> (int, int, int) {
    let l = vlen(a);
    if l == 0 {
        (0, 0, 0)
    } else {
        (fx_div_spec(a.0, l), fx_div_spec(a.1, l), fx_div_spec(a.2, l))
    }
}

pub fn v3_add(a: Vec3Fx, b: Vec3Fx) -> (r: Vec3Fx)
    requires
        i64::MIN <= a.x + b.x <= i64::MAX,
        i64::MIN <= a.y + b.y <= i64::MAX,
        i64::MIN <= a.z + b.z <= i64::MAX,
    ensures
        v3(r) == vadd(v3(a), v3(b)),
{
    Vec3Fx { x: a.x + b.x, y: a.y + b.y, z: a.z + b.z }
}

pub fn v3_sub(a: Vec3Fx, b: Vec3Fx) -> (r: Vec3Fx)
    requires
        i64::MIN <= a.x - b.x <= i64::MAX,
        i64::MIN <= a.y - b.y <= i64::MAX,
        i64::MIN <= a.z - b.z <= i64::MAX,
    ensures
        v3(r) == vsub(v3(a), v3(b)),
{
    Vec3Fx { x: a.x - b.x, y: a.y - b.y, z: a.z - b.z }
}

pub fn v3_scale(s: i64, a: Vec3Fx) -> (r: Vec3Fx)
    requires
        -FX_MUL_MAX_A <= s <= FX_MUL_MAX_A,
        -FX_MUL_MAX_B <= a.x <= FX_MUL_MAX_B,
        -FX_MUL_MAX_B <= a.y <= FX_MUL_MAX_B,
        -FX_MUL_MAX_B <= a.z <= FX_MUL_MAX_B,
    ensures
        v3(r) == vscale(s as int, v3(a)),
{
    Vec3Fx { x: fx_mul(s, a.x), y: fx_mul(s, a.y), z: fx_mul(s, a.z) }
}

pub fn v3_cross(a: Vec3Fx, b: Vec3Fx) -> (r: Vec3Fx)
    requires
        -CROSS_IN_MAX <= a.x <= CROSS_IN_MAX,
        -CROSS_IN_MAX <= a.y <= CROSS_IN_MAX,
        -CROSS_IN_MAX <= a.z <= CROSS_IN_MAX,
        -CROSS_IN_MAX <= b.x <= CROSS_IN_MAX,
        -CROSS_IN_MAX <= b.y <= CROSS_IN_MAX,
        -CROSS_IN_MAX <= b.z <= CROSS_IN_MAX,
    ensures
        v3(r) == vcross(v3(a), v3(b)),
        -CROSS_OUT_MAX <= r.x <= CROSS_OUT_MAX,
        -CROSS_OUT_MAX <= r.y <= CROSS_OUT_MAX,
        -CROSS_OUT_MAX <= r.z <= CROSS_OUT_MAX,
{
    proof {
        lemma_fx_mul_mag(a.y as int, b.z as int, CROSS_IN_MAX as int, CROSS_IN_MAX as int);
        lemma_fx_mul_mag(a.z as int, b.y as int, CROSS_IN_MAX as int, CROSS_IN_MAX as int);
        lemma_fx_mul_mag(a.z as int, b.x as int, CROSS_IN_MAX as int, CROSS_IN_MAX as int);
        lemma_fx_mul_mag(a.x as int, b.z as int, CROSS_IN_MAX as int, CROSS_IN_MAX as int);
        lemma_fx_mul_mag(a.x as int, b.y as int, CROSS_IN_MAX as int, CROSS_IN_MAX as int);
        lemma_fx_mul_mag(a.y as int, b.x as int, CROSS_IN_MAX as int, CROSS_IN_MAX as int);
    }
    Vec3Fx {
        x: fx_mul(a.y, b.z) - fx_mul(a.z, b.y),
        y: fx_mul(a.z, b.x) - fx_mul(a.x, b.z),
        z: fx_mul(a.x, b.y) - fx_mul(a.y, b.x),
    }
}

pub fn v3_len(a: Vec3Fx) -> (r: i64)
    requires
        -LEN_IN_MAX <= a.x <= LEN_IN_MAX,
        -LEN_IN_MAX <= a.y <= LEN_IN_MAX,
        -LEN_IN_MAX <= a.z <= LEN_IN_MAX,
    ensures
        r == vlen(v3(a)),
        0 <= r <= LEN_OUT_MAX,
{
    let xi: i128 = a.x as i128;
    let yi: i128 = a.y as i128;
    let zi: i128 = a.z as i128;
    proof {
        assert(0 <= xi * xi <= 0x100_0000_0000_0000_0000_0000int
            && 0 <= yi * yi <= 0x100_0000_0000_0000_0000_0000int
            && 0 <= zi * zi <= 0x100_0000_0000_0000_0000_0000int) by (nonlinear_arith)
            requires
                -0x1000_0000_0000 <= xi <= 0x1000_0000_0000,
                -0x1000_0000_0000 <= yi <= 0x1000_0000_0000,
                -0x1000_0000_0000 <= zi <= 0x1000_0000_0000,
        ;
    }
    let n: u128 = (xi * xi) as u128 + (yi * yi) as u128 + (zi * zi) as u128;
    let l: u64 = isqrt(n);
    proof {
        assert(n as int == vlen2(v3(a)));
        lemma_sqrt_floor_bounds(n as nat);
        assert(l <= LEN_OUT_MAX) by (nonlinear_arith)
            requires
                (l as int) * (l as int) <= n as int,
                n < 0x400_0000_0000_0000_0000_0000u128,
                0 <= l,
        ;
    }
    l as i64
}

pub fn v3_norm(a: Vec3Fx) -> (r: Vec3Fx)
    requires
        -LEN_IN_MAX <= a.x <= LEN_IN_MAX,
        -LEN_IN_MAX <= a.y <= LEN_IN_MAX,
        -LEN_IN_MAX <= a.z <= LEN_IN_MAX,
    ensures
        v3(r) == vnorm(v3(a)),
        -FX_ONE <= r.x <= FX_ONE,
        -FX_ONE <= r.y <= FX_ONE,
        -FX_ONE <= r.z <= FX_ONE,
{
    let l: i64 = v3_len(a);
    if l == 0 {
        Vec3Fx { x: 0, y: 0, z: 0 }
    } else {
        proof {
            lemma_sqrt_floor_bounds(vlen2(v3(a)) as nat);
            assert(mag(a.x as int) <= l && mag(a.y as int) <= l && mag(a.z as int) <= l)
                by (nonlinear_arith)
                requires
                    0 < l,
                    (a.x as int) * (a.x as int) + (a.y as int) * (a.y as int) + (a.z as int)
                        * (a.z as int) < ((l as int) + 1) * ((l as int) + 1),
            ;
            lemma_fx_div_unit(a.x as int, l as int);
            lemma_fx_div_unit(a.y as int, l as int);
            lemma_fx_div_unit(a.z as int, l as int);
        }
        Vec3Fx { x: fx_div(a.x, l), y: fx_div(a.y, l), z: fx_div(a.z, l) }
    }
}

} // verus!
