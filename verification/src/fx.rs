//! Fixed-point scalars.
//!
//! A scalar is an `i64` counting millionths: `SCALE` represents `1.0`.
//! Every arithmetic operation is total: results saturate at `±LIMIT`
//! (one million whole units), so no operation overflows or panics, and
//! each has an exact functional specification.

use vstd::prelude::*;

verus! {

/// Fixed-point unit: this many raw ticks stand for `1.0`.
pub const SCALE: i64 = 1_000_000;

/// Saturation bound of every arithmetic result: one million whole units.
pub const LIMIT: i64 = 1_000_000_000_000;

/// Clamp a mathematical integer into the representable band `[-LIMIT, LIMIT]`.
pub open spec fn sat(x: int) -> int {
    if x < -(LIMIT as int) {
        -(LIMIT as int)
    } else if x > LIMIT as int {
        LIMIT as int
    } else {
        x
    }
}

/// Division rounding toward zero (the rounding the scalar product uses),
/// for a positive divisor.
pub open spec fn tdiv(a: int, b: int) -> int
    recommends
        b > 0,
{
    if a >= 0 {
        a / b
    } else {
        -((-a) / b)
    }
}

/// Magnitude of a mathematical integer.
pub open spec fn abs_int(x: int) -> int {
    if x < 0 {
        -x
    } else {
        x
    }
}

/// Saturating sum of two scalars.
pub fn fx_sat_add(a: i64, b: i64) -> (r: i64)
    ensures
        r as int == sat(a as int + b as int),
{
    let s: i128 = a as i128 + b as i128;
    if s < -(LIMIT as i128) {
        -LIMIT
    } else if s > LIMIT as i128 {
        LIMIT
    } else {
        s as i64
    }
}

/// Saturating scalar product: `a * b` in fixed point, the raw product
/// divided by `SCALE` rounding toward zero, then clamped to the band.
pub fn fx_mul(a: i64, b: i64) -> (r: i64)
    ensures
        r as int == sat(tdiv(a as int * b as int, SCALE as int)),
{
    let neg: bool = (a < 0) != (b < 0);
    let am: u128 = if a < 0 {
        (-(a as i128)) as u128
    } else {
        a as u128
    };
    let bm: u128 = if b < 0 {
        (-(b as i128)) as u128
    } else {
        b as u128
    };
    proof {
        assert(am * bm == abs_int(a as int) * abs_int(b as int)) by (nonlinear_arith)
            requires
                am == abs_int(a as int),
                bm == abs_int(b as int),
        ;
        assert(abs_int(a as int) * abs_int(b as int) == abs_int(a as int * b as int))
            by (nonlinear_arith);
        assert(am * bm <= 0x8000_0000_0000_0000u128 * 0x8000_0000_0000_0000u128)
            by (nonlinear_arith)
            requires
                am <= 0x8000_0000_0000_0000u128,
                bm <= 0x8000_0000_0000_0000u128,
        ;
    }
    let q: u128 = (am * bm) / (SCALE as u128);
    let m: u128 = if q > LIMIT as u128 {
        LIMIT as u128
    } else {
        q
    };
    proof {
        let p: int = a as int * b as int;
        if neg {
            assert(p <= 0) by (nonlinear_arith)
                requires
                    (a < 0) != (b < 0),
                    p == a as int * b as int,
            ;
            assert(m as int == if -sat(tdiv(p, SCALE as int)) > LIMIT as int {
                LIMIT as int
            } else {
                -sat(tdiv(p, SCALE as int))
            });
        } else {
            assert(p >= 0) by (nonlinear_arith)
                requires
                    !((a < 0) != (b < 0)),
                    p == a as int * b as int,
            ;
        }
    }
    if neg {
        -(m as i64)
    } else {
        m as i64
    }
}

/// Clamping, like `sat`, never moves a value past one that stayed in the band.
pub proof fn lemma_sat_monotonic(x: int, y: int)
    requires
        x <= y,
    ensures
        sat(x) <= sat(y),
{
}

/// A scalar product with a factor drawn from `[0, 1)` never exceeds the
/// other factor in magnitude.
pub proof fn lemma_tdiv_abs_bound(c: int, u: int)
    requires
        0 <= u <= SCALE as int,
    ensures
        abs_int(tdiv(c * u, SCALE as int)) <= abs_int(c),
{
    let s: int = SCALE as int;
    if c >= 0 {
        assert(0 <= c * u <= c * s) by (nonlinear_arith)
            requires
                c >= 0,
                0 <= u <= s,
        ;
        vstd::arithmetic::div_mod::lemma_div_is_ordered(c * u, c * s, s);
        vstd::arithmetic::div_mod::lemma_div_by_multiple(c, s);
        vstd::arithmetic::div_mod::lemma_div_pos_is_pos(c * u, s);
    } else {
        let m: int = -c;
        assert(c * u <= 0 && -(c * u) == m * u) by (nonlinear_arith)
            requires
                c < 0,
                u >= 0,
                m == -c,
        ;
        assert(0 <= m * u <= m * s) by (nonlinear_arith)
            requires
                m >= 0,
                0 <= u <= s,
        ;
        vstd::arithmetic::div_mod::lemma_div_is_ordered(m * u, m * s, s);
        vstd::arithmetic::div_mod::lemma_div_by_multiple(m, s);
        vstd::arithmetic::div_mod::lemma_div_pos_is_pos(m * u, s);
    }
}

/// Saturated values keep their magnitude bound.
pub proof fn lemma_sat_abs_bound(x: int, b: int)
    requires
        abs_int(x) <= b,
    ensures
        abs_int(sat(x)) <= b,
{
}

/// A scalar product with a factor of magnitude at most one never exceeds
/// the other factor in magnitude.
pub proof fn lemma_fx_mul_abs(a: int, b: int)
    requires
        abs_int(b) <= SCALE as int,
    ensures
        abs_int(sat(tdiv(a * b, SCALE as int))) <= abs_int(a),
{
    let s: int = SCALE as int;
    if b >= 0 {
        lemma_tdiv_abs_bound(a, b);
        lemma_sat_abs_bound(tdiv(a * b, s), abs_int(a));
    } else {
        assert(a * b == -(a * (-b))) by (nonlinear_arith);
        assert(tdiv(-(a * (-b)), s) == -tdiv(a * (-b), s));
        lemma_tdiv_abs_bound(a, -b);
        lemma_sat_abs_bound(tdiv(a * b, s), abs_int(a));
    }
}

} // verus!
