//! Axis-aligned rectangles, used as geometric predicates: half-open
//! containment for placing bodies in quadrants, and closed overlap tests for
//! pruning range queries.

use vstd::prelude::*;

use crate::config::COORD_LIMIT;
use crate::particle::Particle;
use crate::vec2::Vec2;

verus! {

/// A rectangle covers the half-open box `[x, x + w) x [y, y + h)`, so the
/// four quadrants of a split cover their parent exactly once.
#[derive(Clone, Copy, PartialEq, Eq, Structural, Debug)]
pub struct Rectangle {
    pub top_left_pos: Vec2,
    pub w: i64,
    pub h: i64,
}

impl Rectangle {
    /// A world rectangle: non-negative extent, all covered points within
    /// the coordinate range.
    pub open spec fn valid(self) -> bool {
        &&& 0 <= self.w
        &&& 0 <= self.h
        &&& -COORD_LIMIT <= self.top_left_pos.x
        &&& self.top_left_pos.x + self.w <= COORD_LIMIT
        &&& -COORD_LIMIT <= self.top_left_pos.y
        &&& self.top_left_pos.y + self.h <= COORD_LIMIT
    }

    /// Loose bounds that keep the containment and overlap arithmetic free
    /// of overflow; query regions need only this, not full validity.
    pub open spec fn bounded(self) -> bool {
        &&& 0 <= self.w <= 4_000_000_000_000
        &&& 0 <= self.h <= 4_000_000_000_000
        &&& -4_000_000_000_000 <= self.top_left_pos.x <= 4_000_000_000_000
        &&& -4_000_000_000_000 <= self.top_left_pos.y <= 4_000_000_000_000
    }

    pub open spec fn contains_spec(self, p: Vec2) -> bool {
        &&& self.top_left_pos.x <= p.x
        &&& self.top_left_pos.y <= p.y
        &&& p.x < self.top_left_pos.x + self.w
        &&& p.y < self.top_left_pos.y + self.h
    }

    pub open spec fn intersects_spec(self, rect: Rectangle) -> bool {
        !(rect.top_left_pos.y + rect.h < self.top_left_pos.y || rect.top_left_pos.y
            > self.top_left_pos.y + self.h || rect.top_left_pos.x + rect.w < self.top_left_pos.x
            || rect.top_left_pos.x > self.top_left_pos.x + self.w)
    }

    /// The midpoint of the covered box (components rounded down).
    pub open spec fn center_spec(self) -> (int, int) {
        (self.top_left_pos.x + self.w / 2, self.top_left_pos.y + self.h / 2)
    }

    pub fn new(top_left_pos: Vec2, w: i64, h: i64) -> (r: Rectangle)
        ensures
            r == (Rectangle { top_left_pos, w, h }),
    {
        Rectangle { top_left_pos, w, h }
    }

    /// Whether the body's position lies in the half-open box.
    pub fn contains(&self, particle: &Particle) -> (r: bool)
        requires
            self.bounded(),
            -COORD_LIMIT <= particle.pos.x <= COORD_LIMIT,
            -COORD_LIMIT <= particle.pos.y <= COORD_LIMIT,
        ensures
            r == self.contains_spec(particle.pos),
    {
        self.top_left_pos.x <= particle.pos.x && self.top_left_pos.y <= particle.pos.y
            && particle.pos.x < self.top_left_pos.x + self.w && particle.pos.y
            < self.top_left_pos.y + self.h
    }

    /// Whether the two closed rectangles overlap. A point contained in both
    /// half-open boxes witnesses an overlap, which is what the range query
    /// relies on for pruning.
    pub fn intersects(&self, rect: &Rectangle) -> (r: bool)
        requires
            self.bounded(),
            rect.bounded(),
        ensures
            r == self.intersects_spec(*rect),
    {
        let up = rect.top_left_pos.y + rect.h < self.top_left_pos.y;
        let down = rect.top_left_pos.y > self.top_left_pos.y + self.h;
        let left = rect.top_left_pos.x + rect.w < self.top_left_pos.x;
        let right = rect.top_left_pos.x > self.top_left_pos.x + self.w;
        !(up || down || left || right)
    }

    /// The midpoint of the covered box.
    pub fn center(&self) -> (c: Vec2)
        requires
            self.bounded(),
        ensures
            c.x as int == self.center_spec().0,
            c.y as int == self.center_spec().1,
    {
        let half_w: i64 = ((self.w as u64) / 2) as i64;
        let half_h: i64 = ((self.h as u64) / 2) as i64;
        Vec2 { x: self.top_left_pos.x + half_w, y: self.top_left_pos.y + half_h }
    }
}

/// If a point lies in both half-open boxes, the two rectangles intersect.
pub proof fn lemma_common_point_intersects(a: Rectangle, b: Rectangle, p: Vec2)
    requires
        a.contains_spec(p),
        b.contains_spec(p),
    ensures
        a.intersects_spec(b),
        b.intersects_spec(a),
{
}

} // verus!
