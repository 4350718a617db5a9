//! Mass points and simulated bodies.

use vstd::prelude::*;
use crate::num::{
    div_trunc, div_trunc_i128, lemma_div_trunc_between, lemma_mul_abs_bound, MASS_LIMIT,
    QUAD_LIMIT,
};

verus! {

/// A two-dimensional fixed-point vector.
#[derive(Clone, Copy, Debug, PartialEq, Eq, Structural)]
pub struct Vec2 {
    pub x: i64,
    pub y: i64,
}

/// Convenience constructor for `Vec2`.
pub fn vec2(x: i64, y: i64) -> (v: Vec2)
    ensures
        v == (Vec2 { x, y }),
{
    Vec2 { x, y }
}

/// An immutable point mass: a position and a strictly positive mass.
#[derive(Clone, Copy, Debug, PartialEq, Eq, Structural)]
pub struct Body {
    pub pos: Vec2,
    pub mass: i64,
}

/// A simulated body: a point mass together with the velocity the
/// integrator threads through from step to step.
#[derive(Clone, Copy, Debug, PartialEq, Eq, Structural)]
pub struct Object {
    pub pos: Vec2,
    pub vel: Vec2,
    pub mass: i64,
}

/// The mass-weighted combination of two point masses: total mass
/// `a.mass + b.mass`, position the mass-weighted average of the two
/// positions, each coordinate rounded toward zero.
///
/// The combined position always lies between the two input positions.
pub fn sum_bodies(a: &Body, b: &Body) -> (r: Body)
    requires
        0 < a.mass,
        0 < b.mass,
        a.mass + b.mass <= MASS_LIMIT,
        -QUAD_LIMIT <= a.pos.x <= QUAD_LIMIT,
        -QUAD_LIMIT <= a.pos.y <= QUAD_LIMIT,
        -QUAD_LIMIT <= b.pos.x <= QUAD_LIMIT,
        -QUAD_LIMIT <= b.pos.y <= QUAD_LIMIT,
    ensures
        r.mass == a.mass + b.mass,
        r.pos.x == div_trunc(a.pos.x * a.mass + b.pos.x * b.mass, a.mass + b.mass),
        r.pos.y == div_trunc(a.pos.y * a.mass + b.pos.y * b.mass, a.mass + b.mass),
        a.pos.x <= r.pos.x || b.pos.x <= r.pos.x,
        r.pos.x <= a.pos.x || r.pos.x <= b.pos.x,
        a.pos.y <= r.pos.y || b.pos.y <= r.pos.y,
        r.pos.y <= a.pos.y || r.pos.y <= b.pos.y,
{
    let total: i64 = a.mass + b.mass;
    proof {
        lemma_mul_abs_bound(a.pos.x as int, a.mass as int, QUAD_LIMIT as int, MASS_LIMIT as int);
        lemma_mul_abs_bound(a.pos.y as int, a.mass as int, QUAD_LIMIT as int, MASS_LIMIT as int);
        lemma_mul_abs_bound(b.pos.x as int, b.mass as int, QUAD_LIMIT as int, MASS_LIMIT as int);
        lemma_mul_abs_bound(b.pos.y as int, b.mass as int, QUAD_LIMIT as int, MASS_LIMIT as int);
    }
    let nx: i128 = (a.pos.x as i128) * (a.mass as i128) + (b.pos.x as i128) * (b.mass as i128);
    let ny: i128 = (a.pos.y as i128) * (a.mass as i128) + (b.pos.y as i128) * (b.mass as i128);
    proof {
        lemma_weighted_sum_between(a.pos.x as int, a.mass as int, b.pos.x as int, b.mass as int);
        lemma_weighted_sum_between(a.pos.y as int, a.mass as int, b.pos.y as int, b.mass as int);
    }
    let rx: i128 = div_trunc_i128(nx, total as i128);
    let ry: i128 = div_trunc_i128(ny, total as i128);
    Body { pos: Vec2 { x: rx as i64, y: ry as i64 }, mass: total }
}

/// The weighted sum of two positions, divided by the total weight and
/// rounded toward zero, lies between the two positions.
proof fn lemma_weighted_sum_between(xa: int, ma: int, xb: int, mb: int)
    requires
        0 < ma,
        0 < mb,
    ensures
        xa <= div_trunc(xa * ma + xb * mb, ma + mb) || xb <= div_trunc(xa * ma + xb * mb, ma + mb),
        div_trunc(xa * ma + xb * mb, ma + mb) <= xa || div_trunc(xa * ma + xb * mb, ma + mb) <= xb,
{
    let lo = if xa <= xb { xa } else { xb };
    let hi = if xa <= xb { xb } else { xa };
    assert(lo * (ma + mb) <= xa * ma + xb * mb && xa * ma + xb * mb <= hi * (ma + mb))
        by (nonlinear_arith)
        requires 0 < ma, 0 < mb, lo <= xa, lo <= xb, xa <= hi, xb <= hi;
    lemma_div_trunc_between(xa * ma + xb * mb, ma + mb, lo, hi);
}

} // verus!
