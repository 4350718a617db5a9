//! The pairwise gravitational force kernel.
//!
//! The magnitude of the force between two point masses is
//! `G * m1 * m2 / d^2`, clamped to a fixed maximum — a deliberate stability
//! safeguard against singular blow-up as the distance approaches zero, not a
//! physical statement. The direction is the unit vector from the first body
//! toward the second, so the kernel is exactly antisymmetric. Two bodies at
//! the same position exert no force on each other (the direction would be
//! undefined; this is the clamp's limiting case).

use vstd::prelude::*;
use crate::body::{Object, Vec2};
use crate::num::{
    abs_i, lemma_abs_le_sqrt, lemma_mul_div_le, lemma_sqrt_floor_pos, lemma_square_bound, sign,
    sqrt_floor, isqrt_u128, MASS_LIMIT, QUAD_LIMIT, SCALE,
};

verus! {

/// The gravitational constant, about `6.6743e-6` in whole units, expressed
/// in units of `1 / SCALE`.
pub const G_FIXED: i64 = 7166;

/// Upper clamp on the force magnitude: `0.01` whole units, in units of
/// `1 / SCALE`. The clamp keeps near-coincident bodies from blowing up the
/// integration; it deliberately trades physical accuracy for stability.
pub const FORCE_CLAMP: i64 = 10_737_418;

/// Largest admissible product of the two masses handed to the kernel.
pub const MASS_PRODUCT_LIMIT: i128 = 0x40_0000_0000_0000_0000_0000_0000;

/// Squared distance between two positions, in raw (unscaled) units.
pub open spec fn dist_sq_raw(ax: int, ay: int, bx: int, by: int) -> int {
    (bx - ax) * (bx - ax) + (by - ay) * (by - ay)
}

/// Clamped force magnitude between masses `am` and `bm` at squared
/// distance `d2 > 0`.
pub open spec fn force_mag(am: int, bm: int, d2: int) -> int {
    let raw = (G_FIXED * am * bm) / d2;
    if raw > FORCE_CLAMP {
        FORCE_CLAMP as int
    } else {
        raw
    }
}

/// The force vector exerted on a body at `(ax, ay)` with mass `am` by a body
/// at `(bx, by)` with mass `bm`: clamped magnitude along the unit vector
/// from the first position toward the second, each component rounded toward
/// zero. Coincident positions give the zero vector.
pub open spec fn force_vec(ax: int, ay: int, am: int, bx: int, by: int, bm: int) -> (int, int) {
    let dx = bx - ax;
    let dy = by - ay;
    let d2 = dx * dx + dy * dy;
    if d2 == 0 {
        (0int, 0int)
    } else {
        let d = sqrt_floor(d2 as nat) as int;
        let mag = force_mag(am, bm, d2);
        (sign(dx) * ((mag * abs_i(dx)) / d), sign(dy) * ((mag * abs_i(dy)) / d))
    }
}

/// Antisymmetry law of the force kernel: swapping the two bodies negates
/// the force vector exactly, for all positions and masses.
pub proof fn lemma_force_antisymmetric(ax: int, ay: int, am: int, bx: int, by: int, bm: int)
    ensures
        force_vec(ax, ay, am, bx, by, bm).0 == -force_vec(bx, by, bm, ax, ay, am).0,
        force_vec(ax, ay, am, bx, by, bm).1 == -force_vec(bx, by, bm, ax, ay, am).1,
{
    let dx = bx - ax;
    let dy = by - ay;
    assert(dx * dx == (-dx) * (-dx) && dy * dy == (-dy) * (-dy)) by (nonlinear_arith);
    assert(G_FIXED * am * bm == G_FIXED * bm * am) by (nonlinear_arith);
    let d2 = dx * dx + dy * dy;
    if d2 != 0 {
        assert(abs_i(dx) == abs_i(-dx) && abs_i(dy) == abs_i(-dy));
        assert(sign(dx) == -sign(-dx) && sign(dy) == -sign(-dy));
        let d = sqrt_floor(d2 as nat) as int;
        let mag = force_mag(am, bm, d2);
        assert(sign(dx) * ((mag * abs_i(dx)) / d) == -(sign(-dx) * ((mag * abs_i(dx)) / d)))
            by (nonlinear_arith)
            requires sign(dx) == -sign(-dx);
        assert(sign(dy) * ((mag * abs_i(dy)) / d) == -(sign(-dy) * ((mag * abs_i(dy)) / d)))
            by (nonlinear_arith)
            requires sign(dy) == -sign(-dy);
    }
}

/// Value of a force component assembled from sign and magnitude.
proof fn lemma_signed_component(v: int, q: int)
    requires
        0 <= q,
    ensures
        sign(v) * q == if v > 0 { q } else if v == 0 { 0int } else { -q },
{
    assert(1 * q == q && 0 * q == 0 && (-1) * q == -q) by (nonlinear_arith);
}

/// Both components of the kernel force are bounded by the clamp.
pub proof fn lemma_force_bounded(ax: int, ay: int, am: int, bx: int, by: int, bm: int)
    requires
        0 <= am,
        0 <= bm,
    ensures
        -FORCE_CLAMP <= force_vec(ax, ay, am, bx, by, bm).0 <= FORCE_CLAMP,
        -FORCE_CLAMP <= force_vec(ax, ay, am, bx, by, bm).1 <= FORCE_CLAMP,
{
    let dx = bx - ax;
    let dy = by - ay;
    let d2 = dx * dx + dy * dy;
    if d2 != 0 {
        lemma_square_bound(dx, abs_i(dx));
        lemma_square_bound(dy, abs_i(dy));
        let d = sqrt_floor(d2 as nat) as int;
        assert(dx * dx == abs_i(dx) * abs_i(dx) && dy * dy == abs_i(dy) * abs_i(dy))
            by (nonlinear_arith);
        assert(0 <= dx * dx && 0 <= dy * dy) by (nonlinear_arith);
        lemma_abs_le_sqrt(dx, d2 as nat);
        lemma_abs_le_sqrt(dy, d2 as nat);
        lemma_sqrt_floor_pos(d2 as nat);
        let mag = force_mag(am, bm, d2);
        assert(0 <= G_FIXED * am * bm) by (nonlinear_arith)
            requires 0 <= am, 0 <= bm;
        vstd::arithmetic::div_mod::lemma_div_pos_is_pos(G_FIXED * am * bm, d2);
        lemma_mul_div_le(mag, abs_i(dx), d);
        lemma_mul_div_le(mag, abs_i(dy), d);
        lemma_signed_component(dx, (mag * abs_i(dx)) / d);
        lemma_signed_component(dy, (mag * abs_i(dy)) / d);
    }
}

/// Squared distance between two bodies, in fixed-point units (the raw
/// squared distance rescaled by `SCALE`, rounded down).
pub fn distance_sq(obj1: &Object, obj2: &Object) -> (r: i64)
    requires
        -QUAD_LIMIT <= obj1.pos.x <= QUAD_LIMIT,
        -QUAD_LIMIT <= obj1.pos.y <= QUAD_LIMIT,
        -QUAD_LIMIT <= obj2.pos.x <= QUAD_LIMIT,
        -QUAD_LIMIT <= obj2.pos.y <= QUAD_LIMIT,
    ensures
        r == dist_sq_raw(
            obj1.pos.x as int, obj1.pos.y as int, obj2.pos.x as int, obj2.pos.y as int,
        ) / (SCALE as int),
        0 <= r,
{
    let dx: i64 = obj2.pos.x - obj1.pos.x;
    let dy: i64 = obj2.pos.y - obj1.pos.y;
    proof {
        lemma_square_bound(dx as int, 2 * QUAD_LIMIT as int);
        lemma_square_bound(dy as int, 2 * QUAD_LIMIT as int);
    }
    let d2: i128 = (dx as i128) * (dx as i128) + (dy as i128) * (dy as i128);
    proof {
        vstd::arithmetic::div_mod::lemma_div_pos_is_pos(d2 as int, SCALE as int);
        vstd::arithmetic::div_mod::lemma_div_is_ordered(
            d2 as int, 8 * QUAD_LIMIT as int * QUAD_LIMIT as int, SCALE as int);
    }
    (d2 / (SCALE as i128)) as i64
}

/// The gravitational force exerted on `obj1` by `obj2`, as a fixed-point
/// vector pointing from `obj1` toward `obj2`.
pub fn force_between(obj1: &Object, obj2: &Object) -> (r: Vec2)
    requires
        -QUAD_LIMIT <= obj1.pos.x <= QUAD_LIMIT,
        -QUAD_LIMIT <= obj1.pos.y <= QUAD_LIMIT,
        -QUAD_LIMIT <= obj2.pos.x <= QUAD_LIMIT,
        -QUAD_LIMIT <= obj2.pos.y <= QUAD_LIMIT,
        0 < obj1.mass <= MASS_LIMIT,
        0 < obj2.mass <= MASS_LIMIT,
        obj1.mass * obj2.mass <= MASS_PRODUCT_LIMIT,
    ensures
        (r.x as int, r.y as int) == force_vec(
            obj1.pos.x as int, obj1.pos.y as int, obj1.mass as int,
            obj2.pos.x as int, obj2.pos.y as int, obj2.mass as int,
        ),
        -FORCE_CLAMP <= r.x <= FORCE_CLAMP,
        -FORCE_CLAMP <= r.y <= FORCE_CLAMP,
{
    force_raw(obj1.pos.x, obj1.pos.y, obj1.mass, obj2.pos.x, obj2.pos.y, obj2.mass)
}

/// Kernel force on plain coordinates; shared by the pairwise entry point and
/// the tree's pseudo-body evaluation.
pub fn force_raw(ax: i64, ay: i64, am: i64, bx: i64, by: i64, bm: i64) -> (r: Vec2)
    requires
        -QUAD_LIMIT <= ax <= QUAD_LIMIT,
        -QUAD_LIMIT <= ay <= QUAD_LIMIT,
        -QUAD_LIMIT <= bx <= QUAD_LIMIT,
        -QUAD_LIMIT <= by <= QUAD_LIMIT,
        0 < am <= MASS_LIMIT,
        0 < bm <= MASS_LIMIT,
        am * bm <= MASS_PRODUCT_LIMIT,
    ensures
        (r.x as int, r.y as int) == force_vec(
            ax as int, ay as int, am as int, bx as int, by as int, bm as int,
        ),
        -FORCE_CLAMP <= r.x <= FORCE_CLAMP,
        -FORCE_CLAMP <= r.y <= FORCE_CLAMP,
{
    proof {
        lemma_force_bounded(ax as int, ay as int, am as int, bx as int, by as int, bm as int);
    }
    let dx: i64 = bx - ax;
    let dy: i64 = by - ay;
    proof {
        lemma_square_bound(dx as int, 2 * QUAD_LIMIT as int);
        lemma_square_bound(dy as int, 2 * QUAD_LIMIT as int);
    }
    let d2: i128 = (dx as i128) * (dx as i128) + (dy as i128) * (dy as i128);
    if d2 == 0 {
        return Vec2 { x: 0, y: 0 };
    }
    let d: u128 = isqrt_u128(d2 as u128);
    proof {
        lemma_sqrt_floor_pos(d2 as nat);
    }
    let m12: u128 = (am as u128) * (bm as u128);
    proof {
        assert((G_FIXED as int) * (m12 as int) < 0x8000_0000_0000_0000_0000_0000_0000_0000)
            by (nonlinear_arith)
            requires 0 <= m12 as int <= 0x40_0000_0000_0000_0000_0000_0000;
        assert(G_FIXED * (am as int) * (bm as int) == (G_FIXED as int) * (m12 as int))
            by (nonlinear_arith)
            requires m12 as int == (am as int) * (bm as int);
    }
    let num: u128 = (G_FIXED as u128) * m12;
    let mag0: u128 = num / (d2 as u128);
    let mag: u128 = if mag0 > (FORCE_CLAMP as u128) {
        FORCE_CLAMP as u128
    } else {
        mag0
    };
    let adx: u128 = if dx >= 0 {
        dx as u128
    } else {
        (-dx) as u128
    };
    let ady: u128 = if dy >= 0 {
        dy as u128
    } else {
        (-dy) as u128
    };
    proof {
        assert(dx * dx == abs_i(dx as int) * abs_i(dx as int)) by (nonlinear_arith);
        assert(dy * dy == abs_i(dy as int) * abs_i(dy as int)) by (nonlinear_arith);
        lemma_abs_le_sqrt(dx as int, d2 as nat);
        lemma_abs_le_sqrt(dy as int, d2 as nat);
        assert((mag as int) * (adx as int) < 0x8000_0000_0000_0000_0000) by (nonlinear_arith)
            requires
                0 <= mag as int <= 10_737_418,
                0 <= adx as int <= 0x200_0000_0000,
        ;
        assert((mag as int) * (ady as int) < 0x8000_0000_0000_0000_0000) by (nonlinear_arith)
            requires
                0 <= mag as int <= 10_737_418,
                0 <= ady as int <= 0x200_0000_0000,
        ;
        lemma_mul_div_le(mag as int, adx as int, d as int);
        lemma_mul_div_le(mag as int, ady as int, d as int);
    }
    let fxm: u128 = mag * adx / d;
    let fym: u128 = mag * ady / d;
    let rx: i64 = if dx >= 0 {
        (fxm as i64)
    } else {
        -(fxm as i64)
    };
    let ry: i64 = if dy >= 0 {
        (fym as i64)
    } else {
        -(fym as i64)
    };
    proof {
        let dxs = (bx as int) - (ax as int);
        let dys = (by as int) - (ay as int);
        let d2s = dxs * dxs + dys * dys;
        assert(d2s == d2 as int);
        let ds = sqrt_floor(d2s as nat) as int;
        assert(ds == d as int);
        let mags = force_mag(am as int, bm as int, d2s);
        assert(mags == mag as int);
        assert(adx as int == abs_i(dxs) && ady as int == abs_i(dys));
        lemma_signed_component(dxs, (mags * abs_i(dxs)) / ds);
        lemma_signed_component(dys, (mags * abs_i(dys)) / ds);
        if dx == 0 {
            assert(mags * abs_i(dxs) == 0) by (nonlinear_arith)
                requires abs_i(dxs) == 0;
            vstd::arithmetic::div_mod::lemma_div_of0(ds);
        }
        if dy == 0 {
            assert(mags * abs_i(dys) == 0) by (nonlinear_arith)
                requires abs_i(dys) == 0;
            vstd::arithmetic::div_mod::lemma_div_of0(ds);
        }
    }
    Vec2 { x: rx, y: ry }
}

} // verus!
