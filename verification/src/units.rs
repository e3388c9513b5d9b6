//! Fixed-point scalar arithmetic.
//!
//! A scalar is an `i64` counting micro-steps; [`UNIT`] micro-steps make one
//! world unit. Addition and subtraction are exact until they saturate at the
//! ends of `i64`; multiplication rescales the product by `UNIT`, rounding
//! toward zero, and saturates the same way.

use vstd::arithmetic::div_mod::{
    lemma_div_is_ordered, lemma_div_multiples_vanish, lemma_div_nonincreasing,
    lemma_div_pos_is_pos,
};
use vstd::arithmetic::mul::{
    lemma_mul_inequality, lemma_mul_is_commutative, lemma_mul_unary_negation,
};
use vstd::prelude::*;

verus! {

/// Micro-steps in one world unit.
pub const UNIT: i64 = 1_000_000;

/// Clamps a mathematical integer into the range of `i64`.
pub open spec fn sat64(x: int) -> int {
    if x > i64::MAX as int {
        i64::MAX as int
    } else if x < i64::MIN as int {
        i64::MIN as int
    } else {
        x
    }
}

/// Division rounding toward zero, as Rust's `/` does on signed integers.
pub open spec fn div_trunc(x: int, d: int) -> int
    recommends
        d > 0,
{
    if x >= 0 {
        x / d
    } else {
        -((-x) / d)
    }
}

/// The sum of two scalars: exact, clamped at the ends of `i64`.
pub open spec fn add_spec(a: int, b: int) -> int {
    sat64(a + b)
}

/// The difference of two scalars: exact, clamped at the ends of `i64`.
pub open spec fn sub_spec(a: int, b: int) -> int {
    sat64(a - b)
}

/// The product of two scalars: rescaled by `UNIT`, rounded toward zero,
/// clamped at the ends of `i64`.
pub open spec fn mul_spec(a: int, b: int) -> int {
    sat64(div_trunc(a * b, UNIT as int))
}

/// Saturating scalar addition.
pub fn add_units(a: i64, b: i64) -> (r: i64)
    ensures
        r as int == add_spec(a as int, b as int),
{
    match a.checked_add(b) {
        Some(s) => s,
        None => if a >= 0 {
            i64::MAX
        } else {
            i64::MIN
        },
    }
}

/// Saturating scalar subtraction.
pub fn sub_units(a: i64, b: i64) -> (r: i64)
    ensures
        r as int == sub_spec(a as int, b as int),
{
    match a.checked_sub(b) {
        Some(s) => s,
        None => if a >= 0 {
            i64::MAX
        } else {
            i64::MIN
        },
    }
}

proof fn lemma_div_trunc_small(x: int, d: int)
    requires
        d > 0,
        -0x4000_0000_0000_0000_0000_0000_0000_0000 <= x
            <= 0x4000_0000_0000_0000_0000_0000_0000_0000,
    ensures
        -0x4000_0000_0000_0000_0000_0000_0000_0000 <= div_trunc(x, d)
            <= 0x4000_0000_0000_0000_0000_0000_0000_0000,
{
    if x >= 0 {
        lemma_div_pos_is_pos(x, d);
        lemma_div_nonincreasing(x, d);
    } else {
        lemma_div_pos_is_pos(-x, d);
        lemma_div_nonincreasing(-x, d);
    }
}

/// Saturating scalar multiplication.
pub fn mul_units(a: i64, b: i64) -> (r: i64)
    ensures
        r as int == mul_spec(a as int, b as int),
{
    let wa: i128 = a as i128;
    let wb: i128 = b as i128;
    assert(-0x4000_0000_0000_0000_0000_0000_0000_0000 <= wa * wb
        <= 0x4000_0000_0000_0000_0000_0000_0000_0000) by (nonlinear_arith)
        requires
            -0x8000_0000_0000_0000 <= wa <= 0x7fff_ffff_ffff_ffff,
            -0x8000_0000_0000_0000 <= wb <= 0x7fff_ffff_ffff_ffff,
    ;
    let p: i128 = wa * wb;
    proof {
        lemma_div_trunc_small(p as int, UNIT as int);
    }
    let q: i128 = match p.checked_div(UNIT as i128) {
        Some(v) => v,
        None => 0,
    };
    assert(q as int == div_trunc(p as int, UNIT as int));
    if q > i64::MAX as i128 {
        i64::MAX
    } else if q < i64::MIN as i128 {
        i64::MIN
    } else {
        q as i64
    }
}

/// A scalar no larger than one unit in magnitude scales any non-negative
/// scalar to something no larger in magnitude.
pub proof fn lemma_mul_units_bounded(c: int, m: int)
    requires
        -(UNIT as int) <= c <= UNIT as int,
        0 <= m <= i64::MAX as int,
    ensures
        -m <= mul_spec(c, m) <= m,
{
    let u = UNIT as int;
    lemma_mul_inequality(c, u, m);
    lemma_mul_inequality(-u, c, m);
    lemma_mul_unary_negation(u, m);
    lemma_div_multiples_vanish(m, u);
    if c * m >= 0 {
        lemma_div_pos_is_pos(c * m, u);
        lemma_div_is_ordered(c * m, u * m, u);
    } else {
        lemma_div_pos_is_pos(-(c * m), u);
        lemma_div_is_ordered(-(c * m), u * m, u);
    }
}

/// A scalar at least ten micro-steps, scaled by a factor of at least a
/// tenth of a unit, stays at least one micro-step: scaling cannot collapse
/// it to nothing.
pub proof fn lemma_mul_spec_pos(b: int, s: int)
    requires
        10 <= b <= i64::MAX as int,
        100_000 <= s,
    ensures
        1 <= mul_spec(b, s),
{
    let u = UNIT as int;
    lemma_mul_inequality(100_000, s, b);
    lemma_mul_is_commutative(s, b);
    lemma_div_is_ordered(u, b * s, u);
    lemma_div_nonincreasing(b * s, u);
}

/// The fraction `t / l` of a unit, rounded down: `t * UNIT / l`.
pub open spec fn ratio_spec(t: int, l: int) -> int
    recommends
        0 < l,
        0 <= t,
{
    (t * (UNIT as int)) / l
}

/// How far through its span a countdown at `t` of `l` is, as a fixed-point
/// fraction of one unit.
pub fn ratio_units(t: i64, l: i64) -> (r: i64)
    requires
        0 < l,
        0 <= t <= l,
    ensures
        r as int == ratio_spec(t as int, l as int),
        0 <= r as int <= UNIT as int,
{
    let a: u128 = t as u128;
    let b: u128 = UNIT as u128;
    assert(a * b <= 0x7fff_ffff_ffff_ffff * 1_000_000) by (nonlinear_arith)
        requires
            a <= 0x7fff_ffff_ffff_ffff,
            b == 1_000_000,
    ;
    let num: u128 = a * b;
    let q: u128 = num / (l as u128);
    proof {
        let ti = t as int;
        let li = l as int;
        let u = UNIT as int;
        lemma_mul_inequality(ti, li, u);
        lemma_div_is_ordered(ti * u, li * u, li);
        lemma_mul_is_commutative(li, u);
        lemma_div_multiples_vanish(u, li);
        lemma_div_pos_is_pos(ti * u, li);
    }
    q as i64
}

/// The nearest whole number of units, halves rounding away from zero.
pub open spec fn round_spec(v: int) -> int {
    if v >= 0 {
        (v + (UNIT as int) / 2) / (UNIT as int)
    } else {
        -(((-v) + (UNIT as int) / 2) / (UNIT as int))
    }
}

/// Rounds a scalar to the nearest whole number of units, halves away from
/// zero.
pub fn round_units(v: i64) -> (r: i64)
    ensures
        r as int == round_spec(v as int),
{
    if v >= 0 {
        let w: u64 = (v as u64) + (UNIT as u64) / 2;
        let q: u64 = w / (UNIT as u64);
        proof {
            lemma_div_is_ordered(w as int, u64::MAX as int, UNIT as int);
        }
        q as i64
    } else {
        let m: u64 = (-(v as i128)) as u64;
        let w: u64 = m + (UNIT as u64) / 2;
        let q: u64 = w / (UNIT as u64);
        proof {
            lemma_div_is_ordered(w as int, u64::MAX as int, UNIT as int);
        }
        -(q as i64)
    }
}

/// Clamps a mathematical integer into the range of `i32`.
pub open spec fn clamp_i32_spec(x: int) -> int {
    if x > i32::MAX as int {
        i32::MAX as int
    } else if x < i32::MIN as int {
        i32::MIN as int
    } else {
        x
    }
}

/// Clamps a scalar count of whole units into an `i32`, as a grid
/// coordinate.
pub fn clamp_i32(v: i64) -> (r: i32)
    ensures
        r as int == clamp_i32_spec(v as int),
{
    if v > i32::MAX as i64 {
        i32::MAX
    } else if v < i32::MIN as i64 {
        i32::MIN
    } else {
        v as i32
    }
}

/// Half a turn, in micro-radians.
pub const PI_UNITS: i64 = 3_141_593;

/// A quarter turn, in micro-radians.
pub const HALF_PI_UNITS: i64 = 1_570_796;

/// A full turn, in micro-radians.
pub const TWO_PI_UNITS: i64 = 6_283_185;

/// `PI_UNITS * PI_UNITS / UNIT`, the denominator of the quarter-wave
/// parabola below.
pub const SIN_DENOM: i64 = 9_869_606;

/// The sine of an angle given in micro-radians, scaled by `UNIT`.
///
/// The value is a quarter-wave parabola approximation of sine; the contract
/// promises only what every caller here needs, that the result lies in
/// `[-UNIT, UNIT]`.
pub fn sin_units(a: i64) -> (r: i64)
    ensures
        -(UNIT as int) <= r as int <= UNIT as int,
{
    let m: i64 = match a.checked_rem_euclid(TWO_PI_UNITS) {
        Some(v) => v,
        None => 0,
    };
    let neg: bool = m >= PI_UNITS;
    let h: i64 = if neg {
        m - PI_UNITS
    } else {
        m
    };
    let wh: i128 = h as i128;
    let wr: i128 = (PI_UNITS - h) as i128;
    assert(0 <= 4 * wh * wr <= 0x100_0000_0000_0000) by (nonlinear_arith)
        requires
            0 <= wh <= 0x400_0000,
            0 <= wr <= 0x400_0000,
    ;
    let num: i128 = 4 * wh * wr;
    let s: i128 = match num.checked_div(SIN_DENOM as i128) {
        Some(v) => v,
        None => 0,
    };
    let clamped: i64 = if s > UNIT as i128 {
        UNIT
    } else if s < 0 {
        0
    } else {
        s as i64
    };
    if neg {
        -clamped
    } else {
        clamped
    }
}

/// The cosine of an angle given in micro-radians, scaled by `UNIT`: the sine
/// of the angle a quarter turn later.
pub fn cos_units(a: i64) -> (r: i64)
    ensures
        -(UNIT as int) <= r as int <= UNIT as int,
{
    sin_units(add_units(a, HALF_PI_UNITS))
}

} // verus!
