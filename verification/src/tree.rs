//! The adaptive spatial tree: construction, aggregate invariants, and the
//! recursive force-evaluation traversal.
//!
//! Every node owns a region. A node is `Empty`, a `Leaf`, or `Internal` with
//! four exclusively owned quadrant children. Aggregates store the total mass
//! and the exact first moments (sum of `position * mass`) of everything
//! below, so mass and moments are conserved exactly by insertion; the
//! centroid is the moment divided by the mass, rounded toward zero.
//!
//! A leaf usually holds exactly one resident body. Only when its region can
//! no longer be subdivided (the degenerate near-coincidence case) does a
//! leaf absorb further bodies into its aggregate, which bounds the recursion
//! depth of insertion.

use vstd::prelude::*;
use crate::body::{Body, Vec2};
use crate::kernel::{force_vec, force_raw, FORCE_CLAMP};
use crate::num::{
    div_trunc, div_trunc_i128, isqrt_u128, lemma_div_trunc_abs_bound, lemma_div_trunc_exact,
    lemma_mul_abs_bound, sqrt_floor, BODY_MASS_LIMIT, COUNT_LIMIT, MASS_LIMIT, QUAD_LIMIT, SCALE,
    THETA_LIMIT,
};
use crate::quad::{lemma_quadrants_partition, lemma_split_halves_exactly, Quad};

verus! {

/// Synthesized aggregate of a subtree: total mass and exact first moments.
#[derive(Clone, Copy, Debug, PartialEq, Eq, Structural)]
pub struct Agg {
    pub mass: i64,
    pub mx: i128,
    pub my: i128,
}

/// A tree node with its three variants.
#[derive(Debug)]
pub enum Node {
    Empty,
    Leaf(Agg),
    Internal { agg: Agg, nw: Box<BHTree>, ne: Box<BHTree>, sw: Box<BHTree>, se: Box<BHTree> },
}

/// A spatial tree: a region and the node covering it.
#[derive(Debug)]
pub struct BHTree {
    pub quad: Quad,
    pub node: Node,
}

/// The centroid `x` coordinate of an aggregate.
pub open spec fn agg_x(a: Agg) -> int {
    div_trunc(a.mx as int, a.mass as int)
}

/// The centroid `y` coordinate of an aggregate.
pub open spec fn agg_y(a: Agg) -> int {
    div_trunc(a.my as int, a.mass as int)
}

/// Total mass of the bodies below a node.
pub open spec fn node_mass(n: Node) -> int
    decreases n,
{
    match n {
        Node::Empty => 0,
        Node::Leaf(a) => a.mass as int,
        Node::Internal { nw, ne, sw, se, .. } => node_mass(nw.node) + node_mass(ne.node)
            + node_mass(sw.node) + node_mass(se.node),
    }
}

/// First moment in `x` of the bodies below a node.
pub open spec fn node_mx(n: Node) -> int
    decreases n,
{
    match n {
        Node::Empty => 0,
        Node::Leaf(a) => a.mx as int,
        Node::Internal { nw, ne, sw, se, .. } => node_mx(nw.node) + node_mx(ne.node)
            + node_mx(sw.node) + node_mx(se.node),
    }
}

/// First moment in `y` of the bodies below a node.
pub open spec fn node_my(n: Node) -> int
    decreases n,
{
    match n {
        Node::Empty => 0,
        Node::Leaf(a) => a.my as int,
        Node::Internal { nw, ne, sw, se, .. } => node_my(nw.node) + node_my(ne.node)
            + node_my(sw.node) + node_my(se.node),
    }
}

/// Number of leaves below a node (each leaf stands for at least one body).
pub open spec fn node_count(n: Node) -> nat
    decreases n,
{
    match n {
        Node::Empty => 0,
        Node::Leaf(_) => 1,
        Node::Internal { nw, ne, sw, se, .. } => node_count(nw.node) + node_count(ne.node)
            + node_count(sw.node) + node_count(se.node),
    }
}

/// A leaf of a splittable region holds exactly one resident body: its
/// moments are exact multiples of its mass, and the resident position lies
/// inside the region.
pub open spec fn leaf_exact(a: Agg, quad: Quad) -> bool {
    &&& a.mx == agg_x(a) * a.mass
    &&& a.my == agg_y(a) * a.mass
    &&& quad.contains_spec(Vec2 { x: agg_x(a) as i64, y: agg_y(a) as i64 })
}

/// Well-formedness of a node covering `quad`.
pub open spec fn node_wf(quad: Quad, n: Node) -> bool
    decreases n,
{
    match n {
        Node::Empty => true,
        Node::Leaf(a) => {
            &&& 0 < a.mass <= MASS_LIMIT
            &&& -((a.mass as int) * (QUAD_LIMIT as int)) <= a.mx
            &&& a.mx <= (a.mass as int) * (QUAD_LIMIT as int)
            &&& -((a.mass as int) * (QUAD_LIMIT as int)) <= a.my
            &&& a.my <= (a.mass as int) * (QUAD_LIMIT as int)
            &&& (quad.splittable() ==> leaf_exact(a, quad))
        },
        Node::Internal { agg, nw, ne, sw, se } => {
            &&& quad.splittable()
            &&& nw.quad == quad.nw_spec()
            &&& ne.quad == quad.ne_spec()
            &&& sw.quad == quad.sw_spec()
            &&& se.quad == quad.se_spec()
            &&& nw.quad.wf() && ne.quad.wf() && sw.quad.wf() && se.quad.wf()
            &&& node_wf(nw.quad, nw.node)
            &&& node_wf(ne.quad, ne.node)
            &&& node_wf(sw.quad, sw.node)
            &&& node_wf(se.quad, se.node)
            &&& 0 < agg.mass <= MASS_LIMIT
            &&& agg.mass == node_mass(n)
            &&& agg.mx == node_mx(n)
            &&& agg.my == node_my(n)
        },
    }
}

impl BHTree {
    /// Well-formed tree: well-formed region and well-formed node.
    pub open spec fn wf(self) -> bool {
        self.quad.wf() && node_wf(self.quad, self.node)
    }

    /// A fresh, empty tree covering the given region.
    pub fn new(q: Quad) -> (t: BHTree)
        requires
            q.wf(),
        ensures
            t.quad == q,
            t.node == Node::Empty,
            t.wf(),
    {
        BHTree { quad: q, node: Node::Empty }
    }

    /// Whether this node has no children (empty or leaf).
    pub fn is_external(&self) -> (r: bool)
        ensures
            r == !(self.node is Internal),
    {
        match self.node {
            Node::Internal { .. } => false,
            _ => true,
        }
    }

    /// Whether this node has quadrant children.
    pub fn is_internal(&self) -> (r: bool)
        ensures
            r == (self.node is Internal),
    {
        !self.is_external()
    }

    /// Insert a body into the tree. Total mass and the first moments grow
    /// exactly by the body's contribution; the number of leaves grows by at
    /// most one (it stays when the body merges into an unsplittable leaf).
    pub fn insert(&mut self, b: Body)
        requires
            old(self).wf(),
            old(self).quad.contains_spec(b.pos),
            0 < b.mass,
            node_mass(old(self).node) + b.mass <= MASS_LIMIT,
        ensures
            final(self).wf(),
            final(self).quad == old(self).quad,
            node_mass(final(self).node) == node_mass(old(self).node) + b.mass,
            node_mx(final(self).node) == node_mx(old(self).node) + b.pos.x * b.mass,
            node_my(final(self).node) == node_my(old(self).node) + b.pos.y * b.mass,
            1 <= node_count(final(self).node) <= node_count(old(self).node) + 1,
    {
        let mut n = Node::Empty;
        core::mem::swap(&mut n, &mut self.node);
        let n2 = insert_node(self.quad, n, b);
        self.node = n2;
    }
}

/// Moments are bounded by total mass times the coordinate range.
pub proof fn lemma_moment_bound(quad: Quad, n: Node)
    requires
        node_wf(quad, n),
    ensures
        -(node_mass(n) * (QUAD_LIMIT as int)) <= node_mx(n) <= node_mass(n) * (QUAD_LIMIT as int),
        -(node_mass(n) * (QUAD_LIMIT as int)) <= node_my(n) <= node_mass(n) * (QUAD_LIMIT as int),
    decreases n,
{
    match n {
        Node::Empty => {},
        Node::Leaf(_) => {},
        Node::Internal { nw, ne, sw, se, .. } => {
            lemma_moment_bound(nw.quad, nw.node);
            lemma_moment_bound(ne.quad, ne.node);
            lemma_moment_bound(sw.quad, sw.node);
            lemma_moment_bound(se.quad, se.node);
        },
    }
}

/// The total mass below a well-formed node is non-negative.
pub proof fn lemma_node_mass_nonneg(quad: Quad, n: Node)
    requires
        node_wf(quad, n),
    ensures
        0 <= node_mass(n),
    decreases n,
{
    match n {
        Node::Empty => {},
        Node::Leaf(_) => {},
        Node::Internal { nw, ne, sw, se, .. } => {
            lemma_node_mass_nonneg(nw.quad, nw.node);
            lemma_node_mass_nonneg(ne.quad, ne.node);
            lemma_node_mass_nonneg(sw.quad, sw.node);
            lemma_node_mass_nonneg(se.quad, se.node);
        },
    }
}

/// A node of positive mass has at least one leaf.
pub proof fn lemma_count_pos(quad: Quad, n: Node)
    requires
        node_wf(quad, n),
        0 < node_mass(n),
    ensures
        1 <= node_count(n),
    decreases n,
{
    match n {
        Node::Empty => {},
        Node::Leaf(_) => {},
        Node::Internal { nw, ne, sw, se, .. } => {
            lemma_node_mass_nonneg(nw.quad, nw.node);
            lemma_node_mass_nonneg(ne.quad, ne.node);
            lemma_node_mass_nonneg(sw.quad, sw.node);
            lemma_node_mass_nonneg(se.quad, se.node);
            if 0 < node_mass(nw.node) {
                lemma_count_pos(nw.quad, nw.node);
            } else if 0 < node_mass(ne.node) {
                lemma_count_pos(ne.quad, ne.node);
            } else if 0 < node_mass(sw.node) {
                lemma_count_pos(sw.quad, sw.node);
            } else {
                lemma_count_pos(se.quad, se.node);
            }
        },
    }
}

/// Centroid correctness: the centroid coordinate of an aggregate, scaled
/// back by the mass, differs from the exact moment by less than one unit of
/// mass — the centroid is the mass-weighted average position up to the
/// fixed-point rounding of a single division.
pub proof fn lemma_centroid_close(a: Agg)
    requires
        0 < a.mass,
    ensures
        a.mx - a.mass < agg_x(a) * a.mass < a.mx + a.mass,
        a.my - a.mass < agg_y(a) * a.mass < a.my + a.mass,
{
    lemma_trunc_quotient_close(a.mx as int, a.mass as int);
    lemma_trunc_quotient_close(a.my as int, a.mass as int);
}

/// The truncated quotient times the divisor stays within one divisor of the
/// dividend.
proof fn lemma_trunc_quotient_close(n: int, d: int)
    requires
        0 < d,
    ensures
        n - d < div_trunc(n, d) * d < n + d,
{
    if n >= 0 {
        vstd::arithmetic::div_mod::lemma_fundamental_div_mod(n, d);
        vstd::arithmetic::div_mod::lemma_mod_bound(n, d);
        assert(div_trunc(n, d) * d == d * (n / d)) by (nonlinear_arith)
            requires div_trunc(n, d) == n / d;
    } else {
        let m = -n;
        vstd::arithmetic::div_mod::lemma_fundamental_div_mod(m, d);
        vstd::arithmetic::div_mod::lemma_mod_bound(m, d);
        assert(div_trunc(n, d) * d == -(d * (m / d))) by (nonlinear_arith)
            requires div_trunc(n, d) == -(m / d);
    }
}

/// Coincident bodies merge without moving the centroid: when every
/// contribution to an aggregate sits at one position — as after inserting
/// bodies at identical positions, which merge at the minimum resolvable
/// region size instead of recursing forever — the aggregate's centroid is
/// exactly that position, whatever the masses.
pub proof fn lemma_coincident_centroid(a: Agg, px: int, py: int)
    requires
        0 < a.mass,
        a.mx == px * a.mass,
        a.my == py * a.mass,
    ensures
        agg_x(a) == px,
        agg_y(a) == py,
{
    lemma_div_trunc_exact(px, a.mass as int);
    lemma_div_trunc_exact(py, a.mass as int);
}

/// The force the tree exerts on a target at `(x, y)` of mass `m`, traversed
/// with opening-angle threshold `theta` (in units of `1 / SCALE`). An
/// internal node whose region looks small enough — side length over distance
/// below `theta` — acts as a single pseudo-body at its centroid; otherwise
/// its four children are summed. A resident at the target's own position
/// contributes nothing (the kernel of coincident positions is zero).
pub open spec fn net_force_spec(t: BHTree, x: int, y: int, m: int, theta: int) -> (int, int)
    decreases t,
{
    match t.node {
        Node::Empty => (0int, 0int),
        Node::Leaf(a) => force_vec(x, y, m, agg_x(a), agg_y(a), a.mass as int),
        Node::Internal { agg, nw, ne, sw, se } => {
            let dx = agg_x(agg) - x;
            let dy = agg_y(agg) - y;
            let d2 = dx * dx + dy * dy;
            let d = sqrt_floor(d2 as nat) as int;
            if d2 != 0 && (t.quad.size as int) * (SCALE as int) < theta * d {
                force_vec(x, y, m, agg_x(agg), agg_y(agg), agg.mass as int)
            } else {
                let fnw = net_force_spec(*nw, x, y, m, theta);
                let fne = net_force_spec(*ne, x, y, m, theta);
                let fsw = net_force_spec(*sw, x, y, m, theta);
                let fse = net_force_spec(*se, x, y, m, theta);
                (fnw.0 + fne.0 + fsw.0 + fse.0, fnw.1 + fne.1 + fsw.1 + fse.1)
            }
        },
    }
}

/// The exact pairwise force: the sum, over every resident body of the tree,
/// of the kernel force exerted on the target.
pub open spec fn pairwise_force_spec(t: BHTree, x: int, y: int, m: int) -> (int, int)
    decreases t,
{
    match t.node {
        Node::Empty => (0int, 0int),
        Node::Leaf(a) => force_vec(x, y, m, agg_x(a), agg_y(a), a.mass as int),
        Node::Internal { nw, ne, sw, se, .. } => {
            let fnw = pairwise_force_spec(*nw, x, y, m);
            let fne = pairwise_force_spec(*ne, x, y, m);
            let fsw = pairwise_force_spec(*sw, x, y, m);
            let fse = pairwise_force_spec(*se, x, y, m);
            (fnw.0 + fne.0 + fsw.0 + fse.0, fnw.1 + fne.1 + fsw.1 + fse.1)
        },
    }
}

/// Exactness at `theta == 0`: a zero opening-angle threshold never lets the
/// traversal approximate, so the tree force degenerates to the exact
/// pairwise sum over the tree's resident bodies.
pub proof fn lemma_theta_zero_exact(t: BHTree, x: int, y: int, m: int)
    requires
        t.wf(),
    ensures
        net_force_spec(t, x, y, m, 0) == pairwise_force_spec(t, x, y, m),
    decreases t,
{
    match t.node {
        Node::Empty => {},
        Node::Leaf(_) => {},
        Node::Internal { agg, nw, ne, sw, se } => {
            let dx = agg_x(agg) - x;
            let dy = agg_y(agg) - y;
            let d2 = dx * dx + dy * dy;
            let d = sqrt_floor(d2 as nat) as int;
            assert(0 * d == 0) by (nonlinear_arith);
            assert((t.quad.size as int) * (SCALE as int) > 0) by (nonlinear_arith)
                requires t.quad.size as int > 0;
            lemma_theta_zero_exact(*nw, x, y, m);
            lemma_theta_zero_exact(*ne, x, y, m);
            lemma_theta_zero_exact(*sw, x, y, m);
            lemma_theta_zero_exact(*se, x, y, m);
        },
    }
}

/// Both components of the tree force are bounded by the number of leaves
/// times the kernel clamp.
pub proof fn lemma_net_force_bound(t: BHTree, x: int, y: int, m: int, theta: int)
    requires
        t.wf(),
        0 <= m,
    ensures
        -(node_count(t.node) * (FORCE_CLAMP as int)) <= net_force_spec(t, x, y, m, theta).0
            <= node_count(t.node) * (FORCE_CLAMP as int),
        -(node_count(t.node) * (FORCE_CLAMP as int)) <= net_force_spec(t, x, y, m, theta).1
            <= node_count(t.node) * (FORCE_CLAMP as int),
    decreases t,
{
    match t.node {
        Node::Empty => {},
        Node::Leaf(a) => {
            crate::kernel::lemma_force_bounded(x, y, m, agg_x(a), agg_y(a), a.mass as int);
        },
        Node::Internal { agg, nw, ne, sw, se } => {
            let dx = agg_x(agg) - x;
            let dy = agg_y(agg) - y;
            let d2 = dx * dx + dy * dy;
            let d = sqrt_floor(d2 as nat) as int;
            if d2 != 0 && (t.quad.size as int) * (SCALE as int) < theta * d {
                crate::kernel::lemma_force_bounded(x, y, m, agg_x(agg), agg_y(agg),
                    agg.mass as int);
                lemma_count_pos(t.quad, t.node);
            } else {
                lemma_net_force_bound(*nw, x, y, m, theta);
                lemma_net_force_bound(*ne, x, y, m, theta);
                lemma_net_force_bound(*sw, x, y, m, theta);
                lemma_net_force_bound(*se, x, y, m, theta);
            }
        },
    }
}

impl BHTree {
    /// The net gravitational force the tree exerts on the target body,
    /// traversed with opening-angle threshold `theta`.
    pub fn net_force(&self, target: &crate::body::Object, theta: i64) -> (f: Vec2)
        requires
            self.wf(),
            -QUAD_LIMIT <= target.pos.x <= QUAD_LIMIT,
            -QUAD_LIMIT <= target.pos.y <= QUAD_LIMIT,
            0 < target.mass <= BODY_MASS_LIMIT,
            0 <= theta <= THETA_LIMIT,
            node_count(self.node) <= COUNT_LIMIT,
        ensures
            (f.x as int, f.y as int) == net_force_spec(
                *self, target.pos.x as int, target.pos.y as int, target.mass as int, theta as int,
            ),
            -(node_count(self.node) * (FORCE_CLAMP as int)) <= f.x as int
                <= node_count(self.node) * (FORCE_CLAMP as int),
            -(node_count(self.node) * (FORCE_CLAMP as int)) <= f.y as int
                <= node_count(self.node) * (FORCE_CLAMP as int),
        decreases self,
    {
        match &self.node {
            Node::Empty => Vec2 { x: 0, y: 0 },
            Node::Leaf(a) => {
                proof {
                    lemma_div_trunc_abs_bound(a.mx as int, a.mass as int, QUAD_LIMIT as int);
                    lemma_div_trunc_abs_bound(a.my as int, a.mass as int, QUAD_LIMIT as int);
                    assert((target.mass as int) * (a.mass as int)
                        <= 0x40_0000_0000_0000_0000_0000_0000) by (nonlinear_arith)
                        requires
                            0 <= target.mass as int <= 0x100_0000_0000,
                            0 <= a.mass as int <= 0x4000_0000_0000_0000,
                    ;
                }
                let cx: i64 = div_trunc_i128(a.mx, a.mass as i128) as i64;
                let cy: i64 = div_trunc_i128(a.my, a.mass as i128) as i64;
                force_raw(target.pos.x, target.pos.y, target.mass, cx, cy, a.mass)
            },
            Node::Internal { agg, nw, ne, sw, se } => {
                proof {
                    lemma_moment_bound(self.quad, self.node);
                    lemma_div_trunc_abs_bound(agg.mx as int, agg.mass as int, QUAD_LIMIT as int);
                    lemma_div_trunc_abs_bound(agg.my as int, agg.mass as int, QUAD_LIMIT as int);
                }
                let cx: i64 = div_trunc_i128(agg.mx, agg.mass as i128) as i64;
                let cy: i64 = div_trunc_i128(agg.my, agg.mass as i128) as i64;
                let dx: i64 = cx - target.pos.x;
                let dy: i64 = cy - target.pos.y;
                proof {
                    crate::num::lemma_square_bound(dx as int, 2 * QUAD_LIMIT as int);
                    crate::num::lemma_square_bound(dy as int, 2 * QUAD_LIMIT as int);
                }
                let d2: i128 = (dx as i128) * (dx as i128) + (dy as i128) * (dy as i128);
                let mut approx = false;
                if d2 != 0 {
                    let d: u128 = isqrt_u128(d2 as u128);
                    proof {
                        assert(d as int <= 0x200_0000_0000) by (nonlinear_arith)
                            requires
                                0 <= d as int,
                                (d as int) * (d as int) <= 0x4_0000_0000_0000_0000_0000,
                        ;
                        assert((theta as int) * (d as int) <= 0x2_0000_0000_0000_0000_0000)
                            by (nonlinear_arith)
                            requires
                                0 <= theta as int <= 0x1_0000_0000,
                                0 <= d as int <= 0x200_0000_0000,
                        ;
                    }
                    approx = (self.quad.size as i128) * (SCALE as i128) < (theta as i128) * (
                    d as i128);
                }
                if approx {
                    proof {
                        lemma_count_pos(self.quad, self.node);
                        assert((target.mass as int) * (agg.mass as int)
                            <= 0x40_0000_0000_0000_0000_0000_0000) by (nonlinear_arith)
                            requires
                                0 <= target.mass as int <= 0x100_0000_0000,
                                0 <= agg.mass as int <= 0x4000_0000_0000_0000,
                        ;
                    }
                    force_raw(target.pos.x, target.pos.y, target.mass, cx, cy, agg.mass)
                } else {
                    let f1 = nw.net_force(target, theta);
                    let f2 = ne.net_force(target, theta);
                    let f3 = sw.net_force(target, theta);
                    let f4 = se.net_force(target, theta);
                    Vec2 { x: f1.x + f2.x + f3.x + f4.x, y: f1.y + f2.y + f3.y + f4.y }
                }
            },
        }
    }
}

/// Insert a body into the node covering `quad`.
fn insert_node(quad: Quad, n: Node, b: Body) -> (r: Node)
    requires
        quad.wf(),
        node_wf(quad, n),
        quad.contains_spec(b.pos),
        0 < b.mass,
        node_mass(n) + b.mass <= MASS_LIMIT,
    ensures
        node_wf(quad, r),
        node_mass(r) == node_mass(n) + b.mass,
        node_mx(r) == node_mx(n) + b.pos.x * b.mass,
        node_my(r) == node_my(n) + b.pos.y * b.mass,
        1 <= node_count(r) <= node_count(n) + 1,
        node_count(n) <= node_count(r),
    decreases quad.size, 1int,
{
    proof {
        lemma_mul_abs_bound(b.pos.x as int, b.mass as int, QUAD_LIMIT as int, b.mass as int);
        lemma_mul_abs_bound(b.pos.y as int, b.mass as int, QUAD_LIMIT as int, b.mass as int);
    }
    let bmx: i128 = (b.pos.x as i128) * (b.mass as i128);
    let bmy: i128 = (b.pos.y as i128) * (b.mass as i128);
    match n {
        Node::Empty => {
            let a = Agg { mass: b.mass, mx: bmx, my: bmy };
            proof {
                lemma_div_trunc_exact(b.pos.x as int, b.mass as int);
                lemma_div_trunc_exact(b.pos.y as int, b.mass as int);
                assert(b.pos.x * b.mass == b.mass * b.pos.x && b.pos.y * b.mass == b.mass
                    * b.pos.y) by (nonlinear_arith);
                assert(agg_x(a) == b.pos.x as int);
                assert(agg_y(a) == b.pos.y as int);
            }
            Node::Leaf(a)
        },
        Node::Leaf(a) => {
            let splittable = quad.size >= 2 && quad.size % 2 == 0;
            if !splittable {
                // Region at minimum resolvable size: merge into the leaf's
                // aggregate instead of subdividing further.
                Node::Leaf(Agg { mass: a.mass + b.mass, mx: a.mx + bmx, my: a.my + bmy })
            } else {
                // Promote the leaf: push its resident body into a quadrant
                // child, then insert the new body below as well. The
                // resident's exact position is recovered from the moments.
                proof {
                    lemma_div_trunc_abs_bound(
                        a.mx as int, a.mass as int, QUAD_LIMIT as int);
                    lemma_div_trunc_abs_bound(
                        a.my as int, a.mass as int, QUAD_LIMIT as int);
                }
                let px: i64 = div_trunc_i128(a.mx, a.mass as i128) as i64;
                let py: i64 = div_trunc_i128(a.my, a.mass as i128) as i64;
                let existing = Body { pos: Vec2 { x: px, y: py }, mass: a.mass };
                proof {
                    lemma_split_halves_exactly(quad);
                }
                let nw = Box::new(BHTree { quad: quad.nw(), node: Node::Empty });
                let ne = Box::new(BHTree { quad: quad.ne(), node: Node::Empty });
                let sw = Box::new(BHTree { quad: quad.sw(), node: Node::Empty });
                let se = Box::new(BHTree { quad: quad.se(), node: Node::Empty });
                proof {
                    assert(existing.pos.x * existing.mass == agg_x(a) * a.mass
                        && existing.pos.y * existing.mass == agg_y(a) * a.mass);
                }
                let (nw, ne, sw, se) = route_child(quad, nw, ne, sw, se, existing);
                let (nw, ne, sw, se) = route_child(quad, nw, ne, sw, se, b);
                let agg = Agg { mass: a.mass + b.mass, mx: a.mx + bmx, my: a.my + bmy };
                Node::Internal { agg, nw, ne, sw, se }
            }
        },
        Node::Internal { agg, nw, ne, sw, se } => {
            proof {
                lemma_moment_bound(quad, n);
                lemma_node_mass_nonneg(nw.quad, nw.node);
                lemma_node_mass_nonneg(ne.quad, ne.node);
                lemma_node_mass_nonneg(sw.quad, sw.node);
                lemma_node_mass_nonneg(se.quad, se.node);
            }
            let agg2 = Agg { mass: agg.mass + b.mass, mx: agg.mx + bmx, my: agg.my + bmy };
            let (nw, ne, sw, se) = route_child(quad, nw, ne, sw, se, b);
            Node::Internal { agg: agg2, nw, ne, sw, se }
        },
    }
}

/// Insert a body into the quadrant child of `quad` that contains it.
fn route_child(
    quad: Quad,
    nw: Box<BHTree>,
    ne: Box<BHTree>,
    sw: Box<BHTree>,
    se: Box<BHTree>,
    b: Body,
) -> (r: (Box<BHTree>, Box<BHTree>, Box<BHTree>, Box<BHTree>))
    requires
        quad.wf(),
        quad.splittable(),
        quad.contains_spec(b.pos),
        0 < b.mass,
        nw.quad == quad.nw_spec() && nw.quad.wf() && node_wf(nw.quad, nw.node),
        ne.quad == quad.ne_spec() && ne.quad.wf() && node_wf(ne.quad, ne.node),
        sw.quad == quad.sw_spec() && sw.quad.wf() && node_wf(sw.quad, sw.node),
        se.quad == quad.se_spec() && se.quad.wf() && node_wf(se.quad, se.node),
        node_mass(nw.node) + node_mass(ne.node) + node_mass(sw.node) + node_mass(se.node)
            + b.mass <= MASS_LIMIT,
    ensures
        r.0.quad == quad.nw_spec() && r.0.quad.wf() && node_wf(r.0.quad, r.0.node),
        r.1.quad == quad.ne_spec() && r.1.quad.wf() && node_wf(r.1.quad, r.1.node),
        r.2.quad == quad.sw_spec() && r.2.quad.wf() && node_wf(r.2.quad, r.2.node),
        r.3.quad == quad.se_spec() && r.3.quad.wf() && node_wf(r.3.quad, r.3.node),
        node_mass(r.0.node) + node_mass(r.1.node) + node_mass(r.2.node) + node_mass(r.3.node)
            == node_mass(nw.node) + node_mass(ne.node) + node_mass(sw.node) + node_mass(se.node)
            + b.mass,
        node_mx(r.0.node) + node_mx(r.1.node) + node_mx(r.2.node) + node_mx(r.3.node)
            == node_mx(nw.node) + node_mx(ne.node) + node_mx(sw.node) + node_mx(se.node)
            + b.pos.x * b.mass,
        node_my(r.0.node) + node_my(r.1.node) + node_my(r.2.node) + node_my(r.3.node)
            == node_my(nw.node) + node_my(ne.node) + node_my(sw.node) + node_my(se.node)
            + b.pos.y * b.mass,
        node_count(nw.node) + node_count(ne.node) + node_count(sw.node) + node_count(se.node)
            <= node_count(r.0.node) + node_count(r.1.node) + node_count(r.2.node)
            + node_count(r.3.node),
        node_count(r.0.node) + node_count(r.1.node) + node_count(r.2.node) + node_count(r.3.node)
            <= node_count(nw.node) + node_count(ne.node) + node_count(sw.node)
            + node_count(se.node) + 1,
        1 <= node_count(r.0.node) + node_count(r.1.node) + node_count(r.2.node)
            + node_count(r.3.node),
    decreases quad.size, 0int,
{
    proof {
        lemma_quadrants_partition(quad, b.pos);
        lemma_split_halves_exactly(quad);
        lemma_node_mass_nonneg(nw.quad, nw.node);
        lemma_node_mass_nonneg(ne.quad, ne.node);
        lemma_node_mass_nonneg(sw.quad, sw.node);
        lemma_node_mass_nonneg(se.quad, se.node);
    }
    let q_se = quad.se();
    let q_sw = quad.sw();
    let q_nw = quad.nw();
    if q_se.contains(&b.pos) {
        let inner = *se;
        let n2 = insert_node(inner.quad, inner.node, b);
        (nw, ne, sw, Box::new(BHTree { quad: inner.quad, node: n2 }))
    } else if q_sw.contains(&b.pos) {
        let inner = *sw;
        let n2 = insert_node(inner.quad, inner.node, b);
        (nw, ne, Box::new(BHTree { quad: inner.quad, node: n2 }), se)
    } else if q_nw.contains(&b.pos) {
        let inner = *nw;
        let n2 = insert_node(inner.quad, inner.node, b);
        (Box::new(BHTree { quad: inner.quad, node: n2 }), ne, sw, se)
    } else {
        let inner = *ne;
        let n2 = insert_node(inner.quad, inner.node, b);
        (nw, Box::new(BHTree { quad: inner.quad, node: n2 }), sw, se)
    }
}

} // verus!
