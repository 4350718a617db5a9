//! Axis-aligned square regions and their quadrant subdivision.
//!
//! `pos` is the lower-left corner of the square and `size` its side length.
//! Containment is half-open: a point belongs to the region when both of its
//! coordinates lie in `[pos, pos + size)`. A region splits into four quadrant
//! children of half the side length; the split is an exact partition, so a
//! region of odd side length (whose half is not representable) is not split
//! further — that is the minimum resolvable separation of the tree.

use vstd::prelude::*;
use crate::body::{Body, Vec2};
use crate::num::QUAD_LIMIT;

verus! {

/// An axis-aligned square region: lower-left corner and side length.
#[derive(Clone, Copy, Debug, PartialEq, Eq, Structural)]
pub struct Quad {
    pub pos: Vec2,
    pub size: i64,
}

impl Quad {
    /// Well-formed region: positive side length, extent within the global
    /// coordinate range.
    pub open spec fn wf(self) -> bool {
        &&& 0 < self.size
        &&& -QUAD_LIMIT <= self.pos.x
        &&& self.pos.x + self.size <= QUAD_LIMIT
        &&& -QUAD_LIMIT <= self.pos.y
        &&& self.pos.y + self.size <= QUAD_LIMIT
    }

    /// A region can be subdivided only while its side halves exactly.
    pub open spec fn splittable(self) -> bool {
        self.size >= 2 && self.size % 2 == 0
    }

    /// Half-open containment.
    pub open spec fn contains_spec(self, p: Vec2) -> bool {
        &&& self.pos.x <= p.x < self.pos.x + self.size
        &&& self.pos.y <= p.y < self.pos.y + self.size
    }

    pub open spec fn half(self) -> int {
        self.size as int / 2
    }

    pub open spec fn nw_spec(self) -> Quad {
        Quad {
            pos: Vec2 { x: self.pos.x, y: (self.pos.y + self.half()) as i64 },
            size: self.half() as i64,
        }
    }

    pub open spec fn ne_spec(self) -> Quad {
        Quad {
            pos: Vec2 {
                x: (self.pos.x + self.half()) as i64,
                y: (self.pos.y + self.half()) as i64,
            },
            size: self.half() as i64,
        }
    }

    pub open spec fn sw_spec(self) -> Quad {
        Quad { pos: Vec2 { x: self.pos.x, y: self.pos.y }, size: self.half() as i64 }
    }

    pub open spec fn se_spec(self) -> Quad {
        Quad {
            pos: Vec2 { x: (self.pos.x + self.half()) as i64, y: self.pos.y },
            size: self.half() as i64,
        }
    }

    /// Side length of the region.
    pub fn length(&self) -> (s: i64)
        ensures
            s == self.size,
    {
        self.size
    }

    /// Half-open containment test.
    pub fn contains(&self, x: &Vec2) -> (r: bool)
        requires
            self.wf(),
        ensures
            r == self.contains_spec(*x),
    {
        (self.pos.x <= x.x) && (x.x < self.pos.x + self.size) && (self.pos.y <= x.y) && (x.y
            < self.pos.y + self.size)
    }

    /// The north-west quadrant child: low `x`, high `y`.
    pub fn nw(&self) -> (q: Quad)
        requires
            self.wf(),
        ensures
            q == self.nw_spec(),
            self.splittable() ==> q.wf(),
    {
        let half: i64 = self.size / 2;
        Quad { pos: Vec2 { x: self.pos.x, y: self.pos.y + half }, size: half }
    }

    /// The north-east quadrant child: high `x`, high `y`.
    pub fn ne(&self) -> (q: Quad)
        requires
            self.wf(),
        ensures
            q == self.ne_spec(),
            self.splittable() ==> q.wf(),
    {
        let half: i64 = self.size / 2;
        Quad { pos: Vec2 { x: self.pos.x + half, y: self.pos.y + half }, size: half }
    }

    /// The south-west quadrant child: low `x`, low `y`.
    pub fn sw(&self) -> (q: Quad)
        requires
            self.wf(),
        ensures
            q == self.sw_spec(),
            self.splittable() ==> q.wf(),
    {
        let half: i64 = self.size / 2;
        Quad { pos: Vec2 { x: self.pos.x, y: self.pos.y }, size: half }
    }

    /// The south-east quadrant child: high `x`, low `y`.
    pub fn se(&self) -> (q: Quad)
        requires
            self.wf(),
        ensures
            q == self.se_spec(),
            self.splittable() ==> q.wf(),
    {
        let half: i64 = self.size / 2;
        Quad { pos: Vec2 { x: self.pos.x + half, y: self.pos.y }, size: half }
    }

    /// The quadrant child a point belongs to. Total: a point outside the
    /// region is dispatched to the north-east child; for a point inside, the
    /// result is the unique child that contains it.
    pub fn dispatch_into(&self, x: &Vec2) -> (q: Quad)
        requires
            self.wf(),
            self.splittable(),
        ensures
            q == self.nw_spec() || q == self.ne_spec() || q == self.sw_spec() || q
                == self.se_spec(),
            self.contains_spec(*x) ==> q.contains_spec(*x),
    {
        proof {
            if self.contains_spec(*x) {
                lemma_quadrants_partition(*self, *x);
            }
        }
        let se = self.se();
        if se.contains(x) {
            se
        } else {
            let sw = self.sw();
            if sw.contains(x) {
                sw
            } else {
                let nw = self.nw();
                if nw.contains(x) {
                    nw
                } else {
                    self.ne()
                }
            }
        }
    }
}

impl Body {
    /// Whether this body's position lies inside the region.
    pub fn inside(&self, q: &Quad) -> (r: bool)
        requires
            q.wf(),
        ensures
            r == q.contains_spec(self.pos),
    {
        q.contains(&self.pos)
    }
}

/// Partition law: a point inside a splittable region lies in exactly one of
/// the region's four quadrant children.
pub proof fn lemma_quadrants_partition(q: Quad, p: Vec2)
    requires
        q.wf(),
        q.splittable(),
        q.contains_spec(p),
    ensures
        q.nw_spec().contains_spec(p) || q.ne_spec().contains_spec(p)
            || q.sw_spec().contains_spec(p) || q.se_spec().contains_spec(p),
        q.nw_spec().contains_spec(p) ==> !q.ne_spec().contains_spec(p)
            && !q.sw_spec().contains_spec(p) && !q.se_spec().contains_spec(p),
        q.ne_spec().contains_spec(p) ==> !q.nw_spec().contains_spec(p)
            && !q.sw_spec().contains_spec(p) && !q.se_spec().contains_spec(p),
        q.sw_spec().contains_spec(p) ==> !q.nw_spec().contains_spec(p)
            && !q.ne_spec().contains_spec(p) && !q.se_spec().contains_spec(p),
        q.se_spec().contains_spec(p) ==> !q.nw_spec().contains_spec(p)
            && !q.ne_spec().contains_spec(p) && !q.sw_spec().contains_spec(p),
{
    lemma_split_halves_exactly(q);
}

/// An even side length splits into two exact halves.
pub proof fn lemma_split_halves_exactly(q: Quad)
    requires
        q.wf(),
        q.splittable(),
    ensures
        q.half() + q.half() == q.size,
        1 <= q.half() < q.size,
{
    vstd::arithmetic::div_mod::lemma_fundamental_div_mod(q.size as int, 2);
}

} // verus!
