//! The per-step integrator.
//!
//! One step: validate the bodies (fail fast, per offending body), build a
//! fresh spatial tree over a region sized to contain them all, query the net
//! force on every body, then advance velocity with the current-step force
//! and position with the just-updated velocity (semi-implicit Euler). The
//! tree lives only for the step.

use vstd::prelude::*;
use crate::body::{sum_bodies, Body, Object, Vec2};
use crate::kernel::FORCE_CLAMP;
use crate::num::{
    div_trunc, div_trunc_i128, is_pow2, lemma_div_trunc_mono_abs, BODY_MASS_LIMIT, COORD_LIMIT,
    COUNT_LIMIT, DV_LIMIT, MASS_LIMIT, QUAD_LIMIT, SCALE, THETA_LIMIT,
};
use crate::quad::Quad;
use crate::tree::{
    net_force_spec, node_count, node_mass, node_mx, node_my, BHTree, Node,
};

verus! {

/// Construction-time errors. They are algorithmic, not I/O-related, and are
/// reported synchronously before any force query.
#[derive(Clone, Copy, Debug, PartialEq, Eq, Structural)]
pub enum SimError {
    /// A body's mass is not strictly positive.
    NonPositiveMass,
    /// A body's position lies outside the tree's root region.
    OutOfBoundsBody,
    /// A combination whose total mass is not positive was requested.
    UndefinedCombination,
}

/// What is wrong with one body relative to a root region, if anything.
/// A non-positive mass is reported before an out-of-bounds position.
pub open spec fn body_error(o: Object, q: Quad) -> Option<SimError> {
    if o.mass <= 0 {
        Some(SimError::NonPositiveMass)
    } else if !q.contains_spec(o.pos) {
        Some(SimError::OutOfBoundsBody)
    } else {
        None
    }
}

/// The error of the first offending body, if any.
pub open spec fn first_error(s: Seq<Object>, q: Quad) -> Option<SimError>
    decreases s.len(),
{
    if s.len() == 0 {
        None
    } else if body_error(s[0], q) is Some {
        body_error(s[0], q)
    } else {
        first_error(s.subrange(1, s.len() as int), q)
    }
}

/// Total mass of a body sequence.
pub open spec fn masses_sum(s: Seq<Object>) -> int
    decreases s.len(),
{
    if s.len() == 0 {
        0
    } else {
        masses_sum(s.drop_last()) + s.last().mass
    }
}

/// First moment in `x` of a body sequence.
pub open spec fn moment_x_sum(s: Seq<Object>) -> int
    decreases s.len(),
{
    if s.len() == 0 {
        0
    } else {
        moment_x_sum(s.drop_last()) + s.last().pos.x * s.last().mass
    }
}

/// First moment in `y` of a body sequence.
pub open spec fn moment_y_sum(s: Seq<Object>) -> int
    decreases s.len(),
{
    if s.len() == 0 {
        0
    } else {
        moment_y_sum(s.drop_last()) + s.last().pos.y * s.last().mass
    }
}

proof fn lemma_sums_push(s: Seq<Object>, i: int)
    requires
        0 <= i < s.len(),
    ensures
        masses_sum(s.take(i + 1)) == masses_sum(s.take(i)) + s[i].mass,
        moment_x_sum(s.take(i + 1)) == moment_x_sum(s.take(i)) + s[i].pos.x * s[i].mass,
        moment_y_sum(s.take(i + 1)) == moment_y_sum(s.take(i)) + s[i].pos.y * s[i].mass,
{
    assert(s.take(i + 1).drop_last() =~= s.take(i));
    assert(s.take(i + 1).last() == s[i]);
}

proof fn lemma_first_error_at(s: Seq<Object>, q: Quad, i: int)
    requires
        0 <= i < s.len(),
        forall|j: int| 0 <= j < i ==> #[trigger] body_error(s[j], q) is None,
        body_error(s[i], q) is Some,
    ensures
        first_error(s, q) == body_error(s[i], q),
    decreases i,
{
    if i == 0 {
    } else {
        let s2 = s.subrange(1, s.len() as int);
        assert(forall|j: int| 0 <= j < i - 1 ==> #[trigger] body_error(s2[j], q) is None);
        assert(s2[i - 1] == s[i]);
        lemma_first_error_at(s2, q, i - 1);
    }
}

proof fn lemma_first_error_none(s: Seq<Object>, q: Quad)
    requires
        forall|j: int| 0 <= j < s.len() ==> #[trigger] body_error(s[j], q) is None,
    ensures
        first_error(s, q) is None,
    decreases s.len(),
{
    if s.len() > 0 {
        let s2 = s.subrange(1, s.len() as int);
        assert(forall|j: int| 0 <= j < s2.len() ==> #[trigger] body_error(s2[j], q) is None);
        lemma_first_error_none(s2, q);
    }
}

/// Build a spatial tree over the given root region from the given bodies.
/// Succeeds exactly when every body has positive mass and lies inside the
/// region; otherwise reports the first offending body's error and builds
/// nothing. On success the root aggregate carries the exact total mass and
/// the exact first moments of the input.
pub fn build_tree(objects: &Vec<Object>, q: Quad) -> (r: Result<BHTree, SimError>)
    requires
        q.wf(),
        objects@.len() <= COUNT_LIMIT,
        forall|i: int| 0 <= i < objects@.len() ==> #[trigger] objects@[i].mass
            <= BODY_MASS_LIMIT,
    ensures
        r is Ok <==> first_error(objects@, q) is None,
        r is Ok <==> (forall|i: int| 0 <= i < objects@.len() ==> #[trigger] body_error(
            objects@[i], q) is None),
        r is Err ==> Some(r->Err_0) == first_error(objects@, q),
        r is Ok ==> {
            let t = r->Ok_0;
            &&& t.wf()
            &&& t.quad == q
            &&& node_mass(t.node) == masses_sum(objects@)
            &&& node_mx(t.node) == moment_x_sum(objects@)
            &&& node_my(t.node) == moment_y_sum(objects@)
            &&& node_count(t.node) <= objects@.len()
        },
{
    let ghost s = objects@;
    let n = objects.len();
    let mut i: usize = 0;
    while i < n
        invariant
            n == s.len(),
            s == objects@,
            i <= n,
            q.wf(),
            forall|j: int| 0 <= j < i ==> #[trigger] body_error(s[j], q) is None,
        decreases n - i,
    {
        let o = objects[i];
        if o.mass <= 0 {
            proof {
                lemma_first_error_at(s, q, i as int);
            }
            return Err(SimError::NonPositiveMass);
        }
        if !q.contains(&o.pos) {
            proof {
                lemma_first_error_at(s, q, i as int);
            }
            return Err(SimError::OutOfBoundsBody);
        }
        i += 1;
    }
    proof {
        lemma_first_error_none(s, q);
    }
    let mut t = BHTree::new(q);
    let mut i: usize = 0;
    proof {
        assert(s.take(0) =~= Seq::<Object>::empty());
    }
    while i < n
        invariant
            n == s.len(),
            s == objects@,
            i <= n,
            n <= COUNT_LIMIT,
            q.wf(),
            forall|j: int| 0 <= j < n ==> #[trigger] body_error(s[j], q) is None,
            forall|j: int| 0 <= j < n ==> #[trigger] s[j].mass <= BODY_MASS_LIMIT,
            t.wf(),
            t.quad == q,
            node_mass(t.node) == masses_sum(s.take(i as int)),
            node_mx(t.node) == moment_x_sum(s.take(i as int)),
            node_my(t.node) == moment_y_sum(s.take(i as int)),
            node_mass(t.node) <= i * BODY_MASS_LIMIT,
            node_count(t.node) <= i,
        decreases n - i,
    {
        let o = objects[i];
        let b = Body { pos: o.pos, mass: o.mass };
        proof {
            assert(body_error(s[i as int], q) is None);
            lemma_sums_push(s, i as int);
        }
        t.insert(b);
        i += 1;
    }
    proof {
        assert(s.take(n as int) =~= s);
    }
    Ok(t)
}

/// A root region sized to contain every body: the lower-left corner of the
/// bounding extent, with a power-of-two side length (so the region can be
/// subdivided all the way down to single units).
pub fn bounding_quad(objects: &Vec<Object>) -> (q: Quad)
    requires
        forall|i: int| 0 <= i < objects@.len() ==> {
            &&& -COORD_LIMIT <= #[trigger] objects@[i].pos.x <= COORD_LIMIT
            &&& -COORD_LIMIT <= objects@[i].pos.y <= COORD_LIMIT
        },
    ensures
        q.wf(),
        is_pow2(q.size as int),
        forall|i: int| 0 <= i < objects@.len() ==> q.contains_spec(
            #[trigger] objects@[i].pos),
{
    let ghost s = objects@;
    let n = objects.len();
    if n == 0 {
        proof {
            assert(is_pow2(1));
        }
        return Quad { pos: Vec2 { x: 0, y: 0 }, size: 1 };
    }
    let first = objects[0];
    let mut min_x = first.pos.x;
    let mut max_x = first.pos.x;
    let mut min_y = first.pos.y;
    let mut max_y = first.pos.y;
    let mut i: usize = 1;
    while i < n
        invariant
            n == s.len(),
            s == objects@,
            0 < n,
            i <= n,
            forall|j: int| 0 <= j < s.len() ==> {
                &&& -COORD_LIMIT <= #[trigger] s[j].pos.x <= COORD_LIMIT
                &&& -COORD_LIMIT <= s[j].pos.y <= COORD_LIMIT
            },
            -COORD_LIMIT <= min_x <= max_x <= COORD_LIMIT,
            -COORD_LIMIT <= min_y <= max_y <= COORD_LIMIT,
            forall|j: int| 0 <= j < i ==> {
                &&& min_x <= #[trigger] s[j].pos.x <= max_x
                &&& min_y <= s[j].pos.y <= max_y
            },
        decreases n - i,
    {
        let o = objects[i];
        if o.pos.x < min_x {
            min_x = o.pos.x;
        }
        if o.pos.x > max_x {
            max_x = o.pos.x;
        }
        if o.pos.y < min_y {
            min_y = o.pos.y;
        }
        if o.pos.y > max_y {
            max_y = o.pos.y;
        }
        i += 1;
    }
    let ext_x = max_x - min_x;
    let ext_y = max_y - min_y;
    let ext = if ext_x > ext_y {
        ext_x
    } else {
        ext_y
    };
    let mut size: i64 = 1;
    proof {
        assert(is_pow2(1));
    }
    while size < ext + 1
        invariant
            1 <= size,
            0 <= ext <= 2 * COORD_LIMIT,
            size <= 2 * (ext + 1),
            is_pow2(size as int),
        decreases 2 * (ext + 1) - size,
    {
        proof {
            vstd::arithmetic::div_mod::lemma_fundamental_div_mod(2 * size as int, 2);
        }
        size = size * 2;
    }
    Quad { pos: Vec2 { x: min_x, y: min_y }, size }
}

/// Everything the integrator guarantees of one step, relative to the tree
/// it built: the tree is well-formed, spans every input body, carries the
/// exact total mass and first moments of the input, and every output body is
/// the input body advanced by the tree's force — velocity first, from the
/// current-step force, then position, from the just-updated velocity.
pub open spec fn step_witness(
    t: BHTree,
    before: Seq<Object>,
    after: Seq<Object>,
    theta: int,
    dt: int,
) -> bool {
    &&& t.wf()
    &&& (forall|i: int| 0 <= i < before.len() ==> t.quad.contains_spec(
        #[trigger] before[i].pos))
    &&& node_mass(t.node) == masses_sum(before)
    &&& node_mx(t.node) == moment_x_sum(before)
    &&& node_my(t.node) == moment_y_sum(before)
    &&& node_count(t.node) <= before.len()
    &&& after.len() == before.len()
    &&& (forall|i: int| 0 <= i < before.len() ==> #[trigger] after[i] == advance(
        before[i],
        net_force_spec(
            t, before[i].pos.x as int, before[i].pos.y as int, before[i].mass as int, theta),
        dt,
    ))
}

/// Semi-implicit Euler update of one body under the force `f`:
/// `velocity += (force / mass) * dt`, then `position += velocity * dt`, in
/// that order, in fixed-point arithmetic (each division rounds toward zero).
pub open spec fn advance(o: Object, f: (int, int), dt: int) -> Object {
    let dvx = div_trunc(f.0 * dt, o.mass as int);
    let dvy = div_trunc(f.1 * dt, o.mass as int);
    let vx = o.vel.x + dvx;
    let vy = o.vel.y + dvy;
    let px = o.pos.x + div_trunc(vx * dt, SCALE as int);
    let py = o.pos.y + div_trunc(vy * dt, SCALE as int);
    Object {
        pos: Vec2 { x: px as i64, y: py as i64 },
        vel: Vec2 { x: vx as i64, y: vy as i64 },
        mass: o.mass,
    }
}

/// Range demanded of each body handed to `step`.
pub open spec fn obj_in_range(o: Object) -> bool {
    &&& -COORD_LIMIT <= o.pos.x <= COORD_LIMIT
    &&& -COORD_LIMIT <= o.pos.y <= COORD_LIMIT
    &&& -COORD_LIMIT <= o.vel.x <= COORD_LIMIT
    &&& -COORD_LIMIT <= o.vel.y <= COORD_LIMIT
    &&& o.mass <= BODY_MASS_LIMIT
}

/// The per-step velocity change of this body stays representable: the worst
/// net force any tree of `n` bodies can report, integrated over `dt` and
/// divided by the body's mass, is at most `DV_LIMIT`.
pub open spec fn accel_ok(o: Object, n: int, dt: int) -> bool {
    (n * (FORCE_CLAMP as int)) * dt / (o.mass as int) <= DV_LIMIT
}

/// Advance the body set by one step of size `dt`, using a fresh spatial tree
/// and the opening-angle threshold `theta`. Fails, leaving the bodies
/// untouched, exactly when some body's mass is not positive.
pub fn step(objects: &mut Vec<Object>, theta: i64, dt: i64) -> (r: Result<(), SimError>)
    requires
        old(objects)@.len() <= COUNT_LIMIT,
        0 <= theta <= THETA_LIMIT,
        0 < dt <= SCALE,
        forall|i: int| 0 <= i < old(objects)@.len() ==> obj_in_range(
            #[trigger] old(objects)@[i]),
        forall|i: int| 0 <= i < old(objects)@.len() ==> (old(objects)@[i].mass > 0
            ==> accel_ok(#[trigger] old(objects)@[i], old(objects)@.len() as int, dt as int)),
    ensures
        r is Ok <==> (forall|i: int| 0 <= i < old(objects)@.len()
            ==> #[trigger] old(objects)@[i].mass > 0),
        r is Err ==> r == Err::<(), SimError>(SimError::NonPositiveMass) && final(objects)@
            == old(objects)@,
        r is Ok ==> final(objects)@.len() == old(objects)@.len(),
        r is Ok ==> forall|i: int| 0 <= i < old(objects)@.len()
            ==> #[trigger] final(objects)@[i].mass == old(objects)@[i].mass,
        r is Ok ==> exists|t: BHTree| step_witness(
            t, old(objects)@, final(objects)@, theta as int, dt as int),
{
    let ghost s = objects@;
    let n = objects.len();
    let mut i: usize = 0;
    while i < n
        invariant
            n == s.len(),
            s == objects@,
            i <= n,
            forall|j: int| 0 <= j < i ==> #[trigger] s[j].mass > 0,
        decreases n - i,
    {
        if objects[i].mass <= 0 {
            return Err(SimError::NonPositiveMass);
        }
        i += 1;
    }
    let q = bounding_quad(objects);
    let t = match build_tree(objects, q) {
        Ok(t) => t,
        Err(e) => {
            proof {
                assert(forall|j: int| 0 <= j < s.len() ==> #[trigger] body_error(s[j], q)
                    is None);
            }
            return Err(e);
        },
    };
    let mut out: Vec<Object> = Vec::new();
    let mut i: usize = 0;
    while i < n
        invariant
            n == s.len(),
            s == objects@,
            i <= n,
            n <= COUNT_LIMIT,
            0 <= theta <= THETA_LIMIT,
            0 < dt <= SCALE,
            forall|j: int| 0 <= j < n ==> obj_in_range(#[trigger] s[j]),
            forall|j: int| 0 <= j < n ==> #[trigger] s[j].mass > 0,
            forall|j: int| 0 <= j < n ==> (s[j].mass > 0 ==> accel_ok(
                #[trigger] s[j], n as int, dt as int)),
            t.wf(),
            forall|j: int| 0 <= j < n ==> t.quad.contains_spec(#[trigger] s[j].pos),
            node_count(t.node) <= n,
            out@.len() == i,
            forall|j: int| 0 <= j < i ==> #[trigger] out@[j] == advance(
                s[j],
                net_force_spec(t, s[j].pos.x as int, s[j].pos.y as int, s[j].mass as int,
                    theta as int),
                dt as int,
            ),
        decreases n - i,
    {
        let o = objects[i];
        let f = t.net_force(&o, theta);
        proof {
            assert(node_count(t.node) * (FORCE_CLAMP as int) <= n * (FORCE_CLAMP as int));
            assert((f.x as int) * (dt as int) <= (n * (FORCE_CLAMP as int)) * (dt as int)
                && (f.x as int) * (dt as int) >= -((n * (FORCE_CLAMP as int)) * (dt as int))
                && (f.y as int) * (dt as int) <= (n * (FORCE_CLAMP as int)) * (dt as int)
                && (f.y as int) * (dt as int) >= -((n * (FORCE_CLAMP as int)) * (dt as int))
                && 0 <= (n * (FORCE_CLAMP as int)) * (dt as int)
                && (n * (FORCE_CLAMP as int)) * (dt as int) < 0x1_0000_0000_0000_0000_0000)
                by (nonlinear_arith)
                requires
                    -(n * (FORCE_CLAMP as int)) <= f.x as int <= n * (FORCE_CLAMP as int),
                    -(n * (FORCE_CLAMP as int)) <= f.y as int <= n * (FORCE_CLAMP as int),
                    0 < dt as int <= 0x4000_0000,
                    0 <= n * (FORCE_CLAMP as int) <= 0x8000_0000_0000,
            ;
            lemma_div_trunc_mono_abs(
                (f.x as int) * (dt as int), (n * (FORCE_CLAMP as int)) * (dt as int),
                o.mass as int);
            lemma_div_trunc_mono_abs(
                (f.y as int) * (dt as int), (n * (FORCE_CLAMP as int)) * (dt as int),
                o.mass as int);
        }
        let fdx: i128 = (f.x as i128) * (dt as i128);
        let fdy: i128 = (f.y as i128) * (dt as i128);
        let dvx: i64 = div_trunc_i128(fdx, o.mass as i128) as i64;
        let dvy: i64 = div_trunc_i128(fdy, o.mass as i128) as i64;
        let vx: i64 = o.vel.x + dvx;
        let vy: i64 = o.vel.y + dvy;
        proof {
            assert((vx as int) * (dt as int) <= 0x2000_0000_0000_0000_0000
                && (vx as int) * (dt as int) >= -0x2000_0000_0000_0000_0000
                && (vy as int) * (dt as int) <= 0x2000_0000_0000_0000_0000
                && (vy as int) * (dt as int) >= -0x2000_0000_0000_0000_0000)
                by (nonlinear_arith)
                requires
                    -0x8000_0000_0000 <= vx as int <= 0x8000_0000_0000,
                    -0x8000_0000_0000 <= vy as int <= 0x8000_0000_0000,
                    0 < dt as int <= 0x4000_0000,
            ;
            lemma_div_trunc_mono_abs(
                (vx as int) * (dt as int), 0x2000_0000_0000_0000_0000, SCALE as int);
            lemma_div_trunc_mono_abs(
                (vy as int) * (dt as int), 0x2000_0000_0000_0000_0000, SCALE as int);
        }
        let vdx: i128 = (vx as i128) * (dt as i128);
        let vdy: i128 = (vy as i128) * (dt as i128);
        let pdx: i64 = div_trunc_i128(vdx, SCALE as i128) as i64;
        let pdy: i64 = div_trunc_i128(vdy, SCALE as i128) as i64;
        let px: i64 = o.pos.x + pdx;
        let py: i64 = o.pos.y + pdy;
        let next = Object { pos: Vec2 { x: px, y: py }, vel: Vec2 { x: vx, y: vy }, mass: o.mass };
        proof {
            assert(next == advance(
                s[i as int],
                net_force_spec(t, s[i as int].pos.x as int, s[i as int].pos.y as int,
                    s[i as int].mass as int, theta as int),
                dt as int,
            ));
        }
        out.push(next);
        i += 1;
    }
    *objects = out;
    proof {
        assert(step_witness(t, s, objects@, theta as int, dt as int));
    }
    Ok(())
}

/// The exact pairwise net force on body `i` from the first `upto` bodies of
/// the sequence, in input order, skipping the body itself.
pub open spec fn direct_force_sum(s: Seq<Object>, i: int, upto: int) -> (int, int)
    decreases upto,
{
    if upto <= 0 {
        (0int, 0int)
    } else {
        let prev = direct_force_sum(s, i, upto - 1);
        if upto - 1 == i {
            prev
        } else {
            let f = crate::kernel::force_vec(
                s[i].pos.x as int, s[i].pos.y as int, s[i].mass as int,
                s[upto - 1].pos.x as int, s[upto - 1].pos.y as int, s[upto - 1].mass as int,
            );
            (prev.0 + f.0, prev.1 + f.1)
        }
    }
}

/// The exact pairwise net force on body `i`: the sum of the kernel force
/// from every other body. This is the reference that the tree traversal
/// approximates, and that it reproduces at `theta == 0`.
pub fn net_force_direct(objects: &Vec<Object>, i: usize) -> (f: Vec2)
    requires
        i < objects@.len(),
        objects@.len() <= COUNT_LIMIT,
        forall|j: int| 0 <= j < objects@.len() ==> obj_in_range(#[trigger] objects@[j]),
        forall|j: int| 0 <= j < objects@.len() ==> #[trigger] objects@[j].mass > 0,
    ensures
        (f.x as int, f.y as int) == direct_force_sum(
            objects@, i as int, objects@.len() as int),
        -((objects@.len() as int) * (FORCE_CLAMP as int)) <= f.x as int
            <= (objects@.len() as int) * (FORCE_CLAMP as int),
        -((objects@.len() as int) * (FORCE_CLAMP as int)) <= f.y as int
            <= (objects@.len() as int) * (FORCE_CLAMP as int),
{
    let ghost s = objects@;
    let n = objects.len();
    let target = objects[i];
    let mut acc_x: i64 = 0;
    let mut acc_y: i64 = 0;
    let mut j: usize = 0;
    while j < n
        invariant
            n == s.len(),
            s == objects@,
            i < n,
            j <= n,
            n <= COUNT_LIMIT,
            target == s[i as int],
            forall|k: int| 0 <= k < n ==> obj_in_range(#[trigger] s[k]),
            forall|k: int| 0 <= k < n ==> #[trigger] s[k].mass > 0,
            (acc_x as int, acc_y as int) == direct_force_sum(s, i as int, j as int),
            -((j as int) * (FORCE_CLAMP as int)) <= acc_x as int
                <= (j as int) * (FORCE_CLAMP as int),
            -((j as int) * (FORCE_CLAMP as int)) <= acc_y as int
                <= (j as int) * (FORCE_CLAMP as int),
        decreases n - j,
    {
        if j != i {
            let other = objects[j];
            proof {
                assert((target.mass as int) * (other.mass as int)
                    <= 0x40_0000_0000_0000_0000_0000_0000) by (nonlinear_arith)
                    requires
                        0 <= target.mass as int <= 0x100_0000_0000,
                        0 <= other.mass as int <= 0x100_0000_0000,
                ;
            }
            let f = crate::kernel::force_between(&target, &other);
            acc_x = acc_x + f.x;
            acc_y = acc_y + f.y;
        }
        j += 1;
    }
    Vec2 { x: acc_x, y: acc_y }
}

/// Mass-weighted combination with the defensive total-mass check: rejects a
/// pair whose combined mass would not be positive (this cannot occur for
/// bodies that passed the positive-mass guard, but the check is kept in case
/// that guard is ever bypassed).
pub fn combine_checked(a: &Body, b: &Body) -> (r: Result<Body, SimError>)
    requires
        a.mass <= BODY_MASS_LIMIT,
        b.mass <= BODY_MASS_LIMIT,
        -QUAD_LIMIT <= a.pos.x <= QUAD_LIMIT,
        -QUAD_LIMIT <= a.pos.y <= QUAD_LIMIT,
        -QUAD_LIMIT <= b.pos.x <= QUAD_LIMIT,
        -QUAD_LIMIT <= b.pos.y <= QUAD_LIMIT,
    ensures
        r is Ok <==> (a.mass > 0 && b.mass > 0),
        r is Err ==> r == Err::<Body, SimError>(SimError::UndefinedCombination),
        r is Ok ==> {
            let c = r->Ok_0;
            &&& c.mass == a.mass + b.mass
            &&& c.pos.x == div_trunc(a.pos.x * a.mass + b.pos.x * b.mass, a.mass + b.mass)
            &&& c.pos.y == div_trunc(a.pos.y * a.mass + b.pos.y * b.mass, a.mass + b.mass)
        },
{
    if a.mass > 0 && b.mass > 0 {
        Ok(sum_bodies(a, b))
    } else {
        Err(SimError::UndefinedCombination)
    }
}

} // verus!
