//! Fixed-point plane geometry for the toroidal world.
//!
//! Positions live on a square torus of side `size`: coordinates stay in
//! `[0, size)` and steps wrap around the edge. Headings are fixed-point
//! angles in `[0, TAU_FX)`; the direction of a heading comes from a
//! rational sine approximation, clamped into `[-1, 1]`, whose formula is
//! its own exact specification.

use vstd::prelude::*;
use crate::fx::{abs_int, sat, tdiv, LIMIT, SCALE};

verus! {

/// A point or offset of the plane, in fixed-point world units.
#[derive(Clone, Copy, Debug, PartialEq, Eq, Structural)]
pub struct Point2 {
    pub x: i64,
    pub y: i64,
}

/// Half a turn, in fixed-point angle units.
pub const PI_FX: i64 = 3_141_592;

/// A full turn: angles live in `[0, TAU_FX)`.
pub const TAU_FX: i64 = 6_283_184;

/// A quarter turn.
pub const QUARTER_FX: i64 = 1_570_796;

/// The sine of an angle in `[0, PI_FX]`, by the classic rational
/// approximation `16x(pi - x) / (5 pi^2 - 4x(pi - x))`, scaled to fixed
/// point and clamped into `[0, 1]`.
pub open spec fn sin_half_spec(x: int) -> int {
    let p = PI_FX as int;
    let num = 16 * x * (p - x);
    let den = 5 * p * p - 4 * x * (p - x);
    let r = (SCALE as int) * num / den;
    if r > SCALE as int {
        SCALE as int
    } else {
        r
    }
}

/// The sine of any angle in `[0, TAU_FX)`: the second half-turn mirrors
/// the first below zero.
pub open spec fn sin_fx_spec(a: int) -> int {
    if a <= PI_FX as int {
        sin_half_spec(a)
    } else {
        -sin_half_spec(a - PI_FX as int)
    }
}

/// The cosine: the sine a quarter turn ahead.
pub open spec fn cos_fx_spec(a: int) -> int {
    let b = a + QUARTER_FX as int;
    sin_fx_spec(if b >= TAU_FX as int {
        b - TAU_FX as int
    } else {
        b
    })
}

fn sin_half(x: i64) -> (r: i64)
    requires
        0 <= x <= PI_FX,
    ensures
        r as int == sin_half_spec(x as int),
        0 <= r <= SCALE,
{
    let p: u128 = PI_FX as u128;
    let xm: u128 = x as u128;
    proof {
        assert(0 <= xm * (p - xm) && 4 * (xm * (p - xm)) <= p * p) by (nonlinear_arith)
            requires
                0 <= xm <= p,
        ;
    }
    let core: u128 = xm * (p - xm);
    let num: u128 = 16 * core;
    let den: u128 = 5 * p * p - 4 * core;
    proof {
        assert((SCALE as u128) * num <= 100_000_000_000_000_000_000_000u128) by (nonlinear_arith)
            requires
                num <= 4 * p * p,
                p <= 4_000_000u128,
        ;
    }
    let q: u128 = (SCALE as u128) * num / den;
    let r: i64 = if q > SCALE as u128 {
        SCALE
    } else {
        q as i64
    };
    proof {
        let pi: int = PI_FX as int;
        let xi: int = x as int;
        assert(core == xi * (pi - xi)) by (nonlinear_arith)
            requires
                core == xm * (p - xm),
                xm == xi,
                p == pi,
                0 <= xi <= pi,
        ;
        assert(num == 16 * xi * (pi - xi)) by (nonlinear_arith)
            requires
                num == 16 * core,
                core == xi * (pi - xi),
        ;
        assert(den == 5 * pi * pi - 4 * xi * (pi - xi)) by (nonlinear_arith)
            requires
                den == 5 * p * p - 4 * core,
                core == xi * (pi - xi),
                p == pi,
                4 * core <= p * p,
        ;
    }
    r
}

/// The sine of a heading, in fixed point within `[-1, 1]`.
pub fn sin_fx(a: i64) -> (r: i64)
    requires
        0 <= a < TAU_FX,
    ensures
        r as int == sin_fx_spec(a as int),
        -SCALE <= r <= SCALE,
{
    if a <= PI_FX {
        sin_half(a)
    } else {
        -sin_half(a - PI_FX)
    }
}

/// The cosine of a heading, in fixed point within `[-1, 1]`.
pub fn cos_fx(a: i64) -> (r: i64)
    requires
        0 <= a < TAU_FX,
    ensures
        r as int == cos_fx_spec(a as int),
        -SCALE <= r <= SCALE,
{
    let b = a + QUARTER_FX;
    if b >= TAU_FX {
        sin_fx(b - TAU_FX)
    } else {
        sin_fx(b)
    }
}

/// One wrapped coordinate step: a sum that left the band `[0, size)` by
/// less than a full side reappears at the opposite edge.
pub open spec fn wrap1(s: int, size: int) -> int {
    if s < 0 {
        s + size
    } else if s >= size {
        s - size
    } else {
        s
    }
}

/// Advance a coordinate by a step smaller than the world side, wrapping
/// around the torus.
pub fn wrap_add(x: i64, d: i64, size: i64) -> (r: i64)
    requires
        0 < size <= LIMIT,
        0 <= x < size,
        -size < d < size,
    ensures
        r as int == wrap1(x as int + d as int, size as int),
        0 <= r < size,
{
    if d < 0 {
        if x + d < 0 {
            x + d + size
        } else {
            x + d
        }
    } else {
        if x >= size - d {
            x + d - size
        } else {
            x + d
        }
    }
}

/// Turn a heading forward by a non-negative delta, staying in
/// `[0, TAU_FX)`.
pub fn wrap_angle(rot: i64, delta: i64) -> (r: i64)
    requires
        0 <= rot < TAU_FX,
        0 <= delta,
    ensures
        r as int == (rot + delta) % (TAU_FX as int),
        0 <= r < TAU_FX,
{
    let s: u64 = rot as u64 + delta as u64;
    let m: u64 = s % (TAU_FX as u64);
    m as i64
}

/// The signed toroidal offset from one coordinate to another: the
/// shorter way round, in `(-size/2, size/2]` up to rounding.
pub open spec fn tor_delta_spec(from: int, to: int, size: int) -> int {
    let d = to - from;
    let h = size / 2;
    if d > h {
        d - size
    } else if d < -h {
        d + size
    } else {
        d
    }
}

/// The signed toroidal offset between two in-band coordinates.
pub fn tor_delta(from: i64, to: i64, size: i64) -> (r: i64)
    requires
        0 < size <= LIMIT,
        0 <= from < size,
        0 <= to < size,
    ensures
        r as int == tor_delta_spec(from as int, to as int, size as int),
        abs_int(r as int) <= size,
{
    let h: i64 = ((size as u64) / 2) as i64;
    let d: i64 = to - from;
    if d > h {
        d - size
    } else if d < -h {
        d + size
    } else {
        d
    }
}

/// The squared length of an offset.
pub open spec fn dist2_spec(dx: int, dy: int) -> int {
    dx * dx + dy * dy
}

/// The squared length of an offset whose parts fit the scalar band.
pub fn dist2(dx: i64, dy: i64) -> (r: u128)
    requires
        abs_int(dx as int) <= LIMIT,
        abs_int(dy as int) <= LIMIT,
    ensures
        r as int == dist2_spec(dx as int, dy as int),
{
    proof {
        assert(0 <= dx as int * dx as int <= LIMIT as int * LIMIT as int) by (nonlinear_arith)
            requires
                abs_int(dx as int) <= LIMIT as int,
        ;
        assert(0 <= dy as int * dy as int <= LIMIT as int * LIMIT as int) by (nonlinear_arith)
            requires
                abs_int(dy as int) <= LIMIT as int,
        ;
    }
    let xx: i128 = dx as i128 * dx as i128;
    let yy: i128 = dy as i128 * dy as i128;
    (xx + yy) as u128
}

} // verus!
