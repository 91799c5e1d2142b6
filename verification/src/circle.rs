//! A circle, used as the proximity predicate of the collision resolver's
//! range queries.

use vstd::prelude::*;

use crate::config::COORD_LIMIT;
use crate::particle::Particle;
use crate::vec2::Vec2;

verus! {

#[derive(Clone, Copy, PartialEq, Eq, Structural, Debug)]
pub struct Circle {
    pub center: Vec2,
    pub radius: i64,
}

impl Circle {
    /// Center within the coordinate range, radius non-negative and bounded,
    /// which keeps the squared-distance test free of overflow.
    pub open spec fn valid(self) -> bool {
        &&& -COORD_LIMIT <= self.center.x <= COORD_LIMIT
        &&& -COORD_LIMIT <= self.center.y <= COORD_LIMIT
        &&& 0 <= self.radius <= COORD_LIMIT
    }

    /// The closed disc: distance from the center at most the radius.
    pub open spec fn contains_spec(self, p: Vec2) -> bool {
        (p.x - self.center.x) * (p.x - self.center.x) + (p.y - self.center.y) * (p.y
            - self.center.y) <= self.radius * self.radius
    }

    pub fn new(center: Vec2, radius: i64) -> (c: Circle)
        ensures
            c == (Circle { center, radius }),
    {
        Circle { center, radius }
    }

    /// Whether the body's position lies in the closed disc.
    pub fn contains(&self, particle: &Particle) -> (r: bool)
        requires
            self.valid(),
            -4_000_000_000_000 <= particle.pos.x <= 4_000_000_000_000,
            -4_000_000_000_000 <= particle.pos.y <= 4_000_000_000_000,
        ensures
            r == self.contains_spec(particle.pos),
    {
        let dx: i64 = particle.pos.x - self.center.x;
        let dy: i64 = particle.pos.y - self.center.y;
        proof {
            crate::particle::lemma_square_bound(dx as int);
            crate::particle::lemma_square_bound(dy as int);
            crate::particle::lemma_square_bound(self.radius as int);
        }
        let d2: i128 = (dx as i128) * (dx as i128) + (dy as i128) * (dy as i128);
        let r2: i128 = (self.radius as i128) * (self.radius as i128);
        d2 <= r2
    }
}

} // verus!
