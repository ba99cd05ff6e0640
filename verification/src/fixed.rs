//! Fixed-point coordinate arithmetic.
//!
//! A coordinate is an `i32` that counts millionths of a model-space unit, so
//! `0.25` is stored as `250_000`. Every operation saturates at the ends of
//! `i32` instead of overflowing, and products and quotients round toward
//! zero.

use vstd::prelude::*;

verus! {

/// One model-space unit.
pub const UNIT: i32 = 1_000_000;

/// Half a model-space unit.
pub const HALF: i32 = 500_000;

/// The factor that negates a coordinate.
pub const MINUS_UNIT: i32 = -1_000_000;

/// The value of `v` once it is forced into the range of `i32`.
pub open spec fn clamp(v: int) -> int {
    if v < i32::MIN {
        i32::MIN as int
    } else if v > i32::MAX {
        i32::MAX as int
    } else {
        v
    }
}

/// The quotient of `n` by `d`, rounded toward zero.
pub open spec fn quot(n: int, d: int) -> int
    recommends
        d != 0,
{
    if n >= 0 && d > 0 {
        n / d
    } else if n >= 0 {
        -(n / (-d))
    } else if d > 0 {
        -((-n) / d)
    } else {
        (-n) / (-d)
    }
}

pub open spec fn spec_sat_add(a: i32, b: i32) -> i32 {
    clamp(a + b) as i32
}

pub open spec fn spec_sat_sub(a: i32, b: i32) -> i32 {
    clamp(a - b) as i32
}

pub open spec fn spec_fx_mul(a: i32, b: i32) -> i32 {
    clamp(quot(a * b, UNIT as int)) as i32
}

pub open spec fn spec_fx_div(a: i32, b: i32) -> i32 {
    clamp(quot(a * UNIT, b as int)) as i32
}

/// Narrows a wide intermediate result to a coordinate.
pub fn saturate(v: i64) -> (r: i32)
    ensures
        r == clamp(v as int),
{
    if v > 2147483647 {
        2147483647
    } else if v < -2147483648 {
        -2147483648
    } else {
        v as i32
    }
}

/// The sum of two coordinates.
#[verifier::when_used_as_spec(spec_sat_add)]
pub fn sat_add(a: i32, b: i32) -> (r: i32)
    ensures
        r == spec_sat_add(a, b),
        r == clamp(a + b),
{
    saturate(a as i64 + b as i64)
}

/// The difference of two coordinates.
#[verifier::when_used_as_spec(spec_sat_sub)]
pub fn sat_sub(a: i32, b: i32) -> (r: i32)
    ensures
        r == spec_sat_sub(a, b),
        r == clamp(a - b),
{
    saturate(a as i64 - b as i64)
}

/// The product of a coordinate and a fixed-point factor.
#[verifier::when_used_as_spec(spec_fx_mul)]
pub fn fx_mul(a: i32, b: i32) -> (r: i32)
    ensures
        r == spec_fx_mul(a, b),
        r == clamp(quot(a * b, UNIT as int)),
{
    let wide: i64 = a as i64;
    let factor: i64 = b as i64;
    assert(-0x4000_0000_0000_0000 <= wide * factor <= 0x4000_0000_0000_0000) by (nonlinear_arith)
        requires
            -0x8000_0000 <= wide <= 0x7fff_ffff,
            -0x8000_0000 <= factor <= 0x7fff_ffff,
    ;
    let product: i64 = wide * factor;
    saturate(product / 1_000_000)
}

/// The quotient of a coordinate by a fixed-point divisor other than zero.
#[verifier::when_used_as_spec(spec_fx_div)]
pub fn fx_div(a: i32, b: i32) -> (r: i32)
    requires
        b != 0,
    ensures
        r == spec_fx_div(a, b),
        r == clamp(quot(a * UNIT, b as int)),
{
    let scaled: i64 = a as i64 * 1_000_000;
    let divisor: i64 = b as i64;
    let q: i64 = if divisor > 0 {
        scaled / divisor
    } else {
        (-scaled) / (-divisor)
    };
    saturate(q)
}

/// Scaling by one unit changes nothing, and scaling by minus one unit negates.
pub proof fn lemma_fx_mul_unit(a: i32)
    ensures
        fx_mul(a, UNIT) == a,
        fx_mul(a, MINUS_UNIT) == clamp(-a),
{
    let u = UNIT as int;
    if a >= 0 {
        assert((a * u) / u == a) by (nonlinear_arith)
            requires
                u > 0,
        ;
        assert(a * (-u) == -(a * u)) by (nonlinear_arith);
        assert(a * u >= 0) by (nonlinear_arith)
            requires
                a >= 0,
                u > 0,
        ;
    } else {
        assert(((-a) * u) / u == -a) by (nonlinear_arith)
            requires
                u > 0,
        ;
        assert(-(a * u) == (-a) * u) by (nonlinear_arith);
        assert(a * (-u) == (-a) * u) by (nonlinear_arith);
        assert(a * u < 0) by (nonlinear_arith)
            requires
                a < 0,
                u > 0,
        ;
    }
}

} // verus!
