//! The spatial index: a quadtree over a fixed world rectangle. Each node is
//! either a leaf holding at most one body, or an internal node with exactly
//! four quadrant children and an aggregate pseudo-body (total mass and
//! center of mass) used for far-field force approximation.
//!
//! The abstract model of a tree is the sequence of bodies it holds,
//! `bodies()`; every operation's contract is stated against it or against
//! its multiset `body_set()`.

use vstd::prelude::*;
use vstd::multiset::Multiset;
use vstd::seq_lib::lemma_multiset_commutative;

use crate::config::{COORD_LIMIT, FORCE_LIMIT, MASS_LIMIT, MAX_BODIES, SimConfig};
use crate::particle::{attraction_spec, dist2, Particle};
use crate::rectangle::Rectangle;
use crate::vec2::{clamp_spec, clamp_i128, div_tz, div_tz_i128, lemma_div_tz_bound, sqrt_floor,
    Vec2};

verus! {

/// The four quadrants of a subdivided node, in the fixed order top-left,
/// top-right, bottom-left, bottom-right.
#[derive(PartialEq, Debug)]
pub struct Quadrants {
    pub tl: QuadTree,
    pub tr: QuadTree,
    pub bl: QuadTree,
    pub br: QuadTree,
}

#[derive(PartialEq, Debug)]
pub struct QuadTree {
    pub bounds: Rectangle,
    pub children: Option<Box<Quadrants>>,
    pub particle: Option<Particle>,
    /// Aggregate mass of the subtree; valid after `update_mass`.
    pub mass: i64,
    /// Aggregate center of mass of the subtree; valid after `update_mass`.
    pub m_center_pos: Vec2,
}

/// One quadrant of `b`: the horizontal halves split at `x + w / 2`, the
/// vertical halves at `y + h / 2`, with the right and bottom halves taking
/// the odd remainder, so the four quadrants cover `b` exactly once.
pub open spec fn child_rect(b: Rectangle, right: bool, bottom: bool) -> Rectangle {
    Rectangle {
        top_left_pos: Vec2 {
            x: if right {
                (b.top_left_pos.x + b.w / 2) as i64
            } else {
                b.top_left_pos.x
            },
            y: if bottom {
                (b.top_left_pos.y + b.h / 2) as i64
            } else {
                b.top_left_pos.y
            },
        },
        w: if right {
            (b.w - b.w / 2) as i64
        } else {
            (b.w / 2) as i64
        },
        h: if bottom {
            (b.h - b.h / 2) as i64
        } else {
            (b.h / 2) as i64
        },
    }
}

/// A quadrant of a valid rectangle is valid.
pub proof fn lemma_child_rect_valid(b: Rectangle, right: bool, bottom: bool)
    requires
        b.valid(),
    ensures
        child_rect(b, right, bottom).valid(),
{
}

/// A point of the parent lies in exactly one quadrant.
pub proof fn lemma_quadrant_partition(b: Rectangle, p: Vec2)
    requires
        b.valid(),
    ensures
        b.contains_spec(p) <==> (child_rect(b, false, false).contains_spec(p) || child_rect(
            b,
            true,
            false,
        ).contains_spec(p) || child_rect(b, false, true).contains_spec(p) || child_rect(
            b,
            true,
            true,
        ).contains_spec(p)),
        forall|r1: bool, b1: bool, r2: bool, b2: bool|
            #[trigger] child_rect(b, r1, b1).contains_spec(p) && #[trigger] child_rect(
                b,
                r2,
                b2,
            ).contains_spec(p) ==> r1 == r2 && b1 == b2,
{
}

/// The quadrants of a subdividable rectangle are strictly smaller by the
/// `w + h` measure.
pub proof fn lemma_child_rect_smaller(b: Rectangle, right: bool, bottom: bool)
    requires
        b.valid(),
        b.w >= 2 || b.h >= 2,
    ensures
        child_rect(b, right, bottom).w + child_rect(b, right, bottom).h < b.w + b.h,
{
}

/// Whether some body of the collection sits at exactly this position.
pub open spec fn has_body_at(ms: Multiset<Particle>, pos: Vec2) -> bool {
    exists|b: Particle| ms.count(b) > 0 && b.pos == pos
}

/// The bodies of the four quadrants, in their fixed order.
pub open spec fn quads_bodies(q: Quadrants) -> Seq<Particle> {
    q.tl.bodies() + q.tr.bodies() + q.bl.bodies() + q.br.bodies()
}

/// The multiset of bodies of the four quadrants.
pub open spec fn quads_set(q: Quadrants) -> Multiset<Particle> {
    quads_bodies(q).to_multiset()
}

/// The four trees sit on the exact quadrants of `b` and are well-formed.
pub open spec fn quads_wf(q: Quadrants, b: Rectangle) -> bool
    decreases q,
{
    &&& q.tl.bounds == child_rect(b, false, false)
    &&& q.tr.bounds == child_rect(b, true, false)
    &&& q.bl.bounds == child_rect(b, false, true)
    &&& q.br.bounds == child_rect(b, true, true)
    &&& q.tl.wf()
    &&& q.tr.wf()
    &&& q.bl.wf()
    &&& q.br.wf()
}

impl QuadTree {
    /// The bodies held by the subtree: the leaf occupant, if any, followed
    /// by the bodies of the four quadrants in their fixed order.
    pub open spec fn bodies(self) -> Seq<Particle>
        decreases self,
    {
        let own: Seq<Particle> = match self.particle {
            None => Seq::empty(),
            Some(p) => seq![p],
        };
        match self.children {
            None => own,
            Some(q) => own + q.tl.bodies() + q.tr.bodies() + q.bl.bodies() + q.br.bodies(),
        }
    }

    /// The multiset of bodies held by the subtree.
    pub open spec fn body_set(self) -> Multiset<Particle> {
        self.bodies().to_multiset()
    }

    /// Structural well-formedness: a node is a leaf (at most one occupant,
    /// lying inside its bounds) or an internal node (no occupant, four
    /// children on the exact quadrants of a still-subdividable rectangle,
    /// and at least one body below it).
    pub open spec fn wf(self) -> bool
        decreases self,
    {
        &&& self.bounds.valid()
        &&& match self.particle {
            None => true,
            Some(p) => p.valid() && self.bounds.contains_spec(p.pos),
        }
        &&& match self.children {
            None => true,
            Some(q) => {
                &&& self.particle is None
                &&& (self.bounds.w >= 2 || self.bounds.h >= 2)
                &&& quads_wf(*q, self.bounds)
                &&& self.bodies().len() >= 1
            },
        }
    }

    /// An empty leaf over `bounds`, with the aggregate fields of an empty
    /// subtree: zero mass, centered on the bounds.
    pub fn new(bounds: Rectangle) -> (t: QuadTree)
        requires
            bounds.valid(),
        ensures
            t.bounds == bounds,
            t.children is None,
            t.particle is None,
            t.wf(),
            t.bodies() == Seq::<Particle>::empty(),
            t.mass == 0,
            t.m_center_pos.x as int == bounds.center_spec().0,
            t.m_center_pos.y as int == bounds.center_spec().1,
    {
        let center = bounds.center();
        QuadTree { bounds, children: None, particle: None, mass: 0, m_center_pos: center }
    }

    /// Insert a body into the smallest enclosing leaf. A body outside the
    /// node's bounds is silently dropped, and so is a body at exactly the
    /// position of one already held (no amount of subdividing can separate
    /// coincident points); in both cases the tree is left untouched.
    /// Otherwise the body is added: an empty leaf takes it as occupant, and
    /// an occupied leaf subdivides, re-inserting its previous occupant into
    /// the new quadrants so no body is lost.
    pub fn insert(&mut self, particle: &Particle)
        requires
            old(self).wf(),
            particle.valid(),
        ensures
            final(self).wf(),
            final(self).bounds == old(self).bounds,
            !old(self).bounds.contains_spec(particle.pos) ==> *final(self) == *old(self),
            old(self).bounds.contains_spec(particle.pos) && has_body_at(
                old(self).body_set(),
                particle.pos,
            ) ==> *final(self) == *old(self),
            old(self).bounds.contains_spec(particle.pos) && !has_body_at(
                old(self).body_set(),
                particle.pos,
            ) ==> final(self).body_set() == old(self).body_set().insert(*particle)
                && final(self).bodies().len() == old(self).bodies().len() + 1,
        decreases old(self).bounds.w + old(self).bounds.h, 1int,
    {
        broadcast use vstd::seq_lib::group_to_multiset_ensures;
        broadcast use vstd::multiset::group_multiset_axioms;

        if !self.bounds.contains(particle) {
            return ;
        }
        if self.children.is_some() {
            let bounds = self.bounds;
            let mut quads = *self.children.take().unwrap();
            let ghost pre = quads;
            insert_into_quadrants(&mut quads, &bounds, particle);
            self.children = Some(Box::new(quads));
            proof {
                assert(old(self).bodies() =~= quads_bodies(pre));
                assert(self.bodies() =~= quads_bodies(quads));
            }
            return ;
        }
        if self.particle.is_none() {
            self.particle = Some(*particle);
            proof {
                assert(old(self).bodies() =~= Seq::<Particle>::empty());
                assert(self.bodies() =~= Seq::<Particle>::empty().push(*particle));
                assert(self.body_set() =~= old(self).body_set().insert(*particle));
            }
            return ;
        }
        let q0 = self.particle.unwrap();
        if q0.pos.x == particle.pos.x && q0.pos.y == particle.pos.y {
            proof {
                assert(old(self).bodies() =~= Seq::<Particle>::empty().push(q0));
                assert(old(self).body_set().count(q0) > 0);
                assert(has_body_at(old(self).body_set(), particle.pos));
            }
            return ;
        }
        // A unit cell holds a single lattice point, so two bodies at
        // distinct positions can only share a cell that still subdivides.
        assert(self.bounds.w >= 2 || self.bounds.h >= 2);
        let bounds = self.bounds;
        self.particle = None;
        let mut quads = subdivide(&bounds);
        let ghost empty_quads = quads;
        proof {
            assert forall|b: Particle| quads_set(empty_quads).count(b) == 0 by {
                assert(!quads_bodies(empty_quads).contains(b));
            }
            assert(quads_bodies(empty_quads) =~= Seq::<Particle>::empty());
        }
        insert_into_quadrants(&mut quads, &bounds, &q0);
        let ghost mid = quads;
        proof {
            assert(!has_body_at(quads_set(empty_quads), q0.pos));
            assert(quads_set(mid) == quads_set(empty_quads).insert(q0));
            assert forall|b: Particle| quads_set(mid).count(b) > 0 implies b == q0 by {
                assert(quads_set(empty_quads).count(b) == 0);
            }
            assert(!has_body_at(quads_set(mid), particle.pos));
        }
        insert_into_quadrants(&mut quads, &bounds, particle);
        self.children = Some(Box::new(quads));
        proof {
            assert(quads_set(quads) == quads_set(mid).insert(*particle));
            assert(old(self).bodies() =~= Seq::<Particle>::empty().push(q0));
            assert(old(self).body_set() =~= quads_set(mid));
            assert(self.bodies() =~= quads_bodies(quads));
            assert(self.body_set() == old(self).body_set().insert(*particle));
            assert(self.bodies().len() == quads_bodies(quads).len());
            assert(quads_bodies(quads).len() == quads_bodies(mid).len() + 1);
            assert(quads_bodies(mid).len() == quads_bodies(empty_quads).len() + 1);
            assert(self.bodies().len() == 2);
        }
    }
}

/// Offer the body to all four quadrants; only the quadrant whose bounds
/// contain its position accepts it, the other three leave themselves
/// untouched.
#[verifier::rlimit(60)]
fn insert_into_quadrants(quads: &mut Quadrants, b: &Rectangle, particle: &Particle)
    requires
        b.valid(),
        b.w >= 2 || b.h >= 2,
        quads_wf(*old(quads), *b),
        particle.valid(),
    ensures
        quads_wf(*final(quads), *b),
        !b.contains_spec(particle.pos) ==> *final(quads) == *old(quads),
        b.contains_spec(particle.pos) && has_body_at(quads_set(*old(quads)), particle.pos)
            ==> *final(quads) == *old(quads),
        b.contains_spec(particle.pos) && !has_body_at(quads_set(*old(quads)), particle.pos)
            ==> quads_set(*final(quads)) == quads_set(*old(quads)).insert(*particle)
            && quads_bodies(*final(quads)).len() == quads_bodies(*old(quads)).len() + 1,
    decreases b.w + b.h, 0int,
{
    broadcast use vstd::seq_lib::group_to_multiset_ensures;
    broadcast use vstd::multiset::group_multiset_axioms;

    proof {
        lemma_child_rect_smaller(*b, false, false);
        lemma_child_rect_smaller(*b, true, false);
        lemma_child_rect_smaller(*b, false, true);
        lemma_child_rect_smaller(*b, true, true);
        lemma_quadrant_partition(*b, particle.pos);
        lemma_concat4_multiset(
            old(quads).tl.bodies(),
            old(quads).tr.bodies(),
            old(quads).bl.bodies(),
            old(quads).br.bodies(),
        );
    }
    let ghost pre = *quads;
    quads.tl.insert(particle);
    quads.tr.insert(particle);
    quads.bl.insert(particle);
    quads.br.insert(particle);
    proof {
        lemma_concat4_multiset(
            quads.tl.bodies(),
            quads.tr.bodies(),
            quads.bl.bodies(),
            quads.br.bodies(),
        );
        let p = *particle;
        if !b.contains_spec(p.pos) {
            assert(*quads == pre);
        } else if has_body_at(quads_set(pre), p.pos) {
            let w = choose|w: Particle| quads_set(pre).count(w) > 0 && w.pos == p.pos;
            lemma_witness_in_one_quadrant(pre, *b, w);
            assert(*quads == pre);
        } else {
            lemma_no_body_at_component(pre, p.pos);
            assert(quads_set(*quads) =~= quads_set(pre).insert(p));
        }
    }
}

/// A body of the quadrants lies in the single quadrant whose bounds contain
/// its position.
proof fn lemma_witness_in_one_quadrant(q: Quadrants, b: Rectangle, w: Particle)
    requires
        b.valid(),
        quads_wf(q, b),
        quads_set(q).count(w) > 0,
    ensures
        q.tl.bounds.contains_spec(w.pos) ==> has_body_at(q.tl.body_set(), w.pos),
        q.tr.bounds.contains_spec(w.pos) ==> has_body_at(q.tr.body_set(), w.pos),
        q.bl.bounds.contains_spec(w.pos) ==> has_body_at(q.bl.body_set(), w.pos),
        q.br.bounds.contains_spec(w.pos) ==> has_body_at(q.br.body_set(), w.pos),
    decreases 0int,
{
    broadcast use vstd::seq_lib::group_to_multiset_ensures;
    broadcast use vstd::multiset::group_multiset_axioms;

    lemma_concat4_multiset(q.tl.bodies(), q.tr.bodies(), q.bl.bodies(), q.br.bodies());
    lemma_quadrant_partition(b, w.pos);
    lemma_wf_bodies(q.tl);
    lemma_wf_bodies(q.tr);
    lemma_wf_bodies(q.bl);
    lemma_wf_bodies(q.br);
    if q.tl.body_set().count(w) > 0 {
        let i = choose|i: int| 0 <= i < q.tl.bodies().len() && q.tl.bodies()[i] == w;
        assert(q.tl.bounds.contains_spec(w.pos));
    } else if q.tr.body_set().count(w) > 0 {
        let i = choose|i: int| 0 <= i < q.tr.bodies().len() && q.tr.bodies()[i] == w;
        assert(q.tr.bounds.contains_spec(w.pos));
    } else if q.bl.body_set().count(w) > 0 {
        let i = choose|i: int| 0 <= i < q.bl.bodies().len() && q.bl.bodies()[i] == w;
        assert(q.bl.bounds.contains_spec(w.pos));
    } else {
        assert(q.br.body_set().count(w) > 0);
        let i = choose|i: int| 0 <= i < q.br.bodies().len() && q.br.bodies()[i] == w;
        assert(q.br.bounds.contains_spec(w.pos));
    }
}

/// Build the four empty quadrant leaves of `b`.
fn subdivide(b: &Rectangle) -> (q: Quadrants)
    requires
        b.valid(),
    ensures
        quads_wf(q, *b),
        q.tl.children is None && q.tr.children is None && q.bl.children is None
            && q.br.children is None,
        q.tl.particle is None && q.tr.particle is None && q.bl.particle is None
            && q.br.particle is None,
        q.tl.bodies() =~= Seq::<Particle>::empty(),
        q.tr.bodies() =~= Seq::<Particle>::empty(),
        q.bl.bodies() =~= Seq::<Particle>::empty(),
        q.br.bodies() =~= Seq::<Particle>::empty(),
{
    proof {
        lemma_child_rect_valid(*b, false, false);
        lemma_child_rect_valid(*b, true, false);
        lemma_child_rect_valid(*b, false, true);
        lemma_child_rect_valid(*b, true, true);
    }
    let x = b.top_left_pos.x;
    let y = b.top_left_pos.y;
    let half_w: i64 = ((b.w as u64) / 2) as i64;
    let half_h: i64 = ((b.h as u64) / 2) as i64;
    let tl = QuadTree::new(Rectangle::new(Vec2::new(x, y), half_w, half_h));
    let tr = QuadTree::new(Rectangle::new(Vec2::new(x + half_w, y), b.w - half_w, half_h));
    let bl = QuadTree::new(Rectangle::new(Vec2::new(x, y + half_h), half_w, b.h - half_h));
    let br = QuadTree::new(
        Rectangle::new(Vec2::new(x + half_w, y + half_h), b.w - half_w, b.h - half_h),
    );
    Quadrants { tl, tr, bl, br }
}

/// Every body of a well-formed subtree is valid and lies inside the
/// subtree's bounds.
pub proof fn lemma_wf_bodies(t: QuadTree)
    requires
        t.wf(),
    ensures
        forall|i: int|
            0 <= i < t.bodies().len() ==> (#[trigger] t.bodies()[i]).valid()
                && t.bounds.contains_spec(t.bodies()[i].pos),
    decreases t,
{
    match t.children {
        None => {
            match t.particle {
                None => {
                    assert(t.bodies().len() == 0);
                },
                Some(p) => {
                    assert(t.bodies() =~= seq![p]);
                    assert(t.bodies()[0] == p);
                },
            }
        },
        Some(q) => {
            lemma_wf_bodies(q.tl);
            lemma_wf_bodies(q.tr);
            lemma_wf_bodies(q.bl);
            lemma_wf_bodies(q.br);
            let s1 = q.tl.bodies();
            let s2 = q.tr.bodies();
            let s3 = q.bl.bodies();
            let s4 = q.br.bodies();
            assert(t.bodies() =~= s1 + s2 + s3 + s4);
            assert forall|i: int|
                0 <= i < t.bodies().len() implies (#[trigger] t.bodies()[i]).valid()
                && t.bounds.contains_spec(t.bodies()[i].pos) by {
                let b = t.bodies()[i];
                if i < s1.len() {
                    assert(b == s1[i]);
                } else if i < s1.len() + s2.len() {
                    assert(b == s2[i - s1.len()]);
                } else if i < s1.len() + s2.len() + s3.len() {
                    assert(b == s3[i - s1.len() - s2.len()]);
                } else {
                    assert(b == s4[i - s1.len() - s2.len() - s3.len()]);
                }
                lemma_quadrant_partition(t.bounds, b.pos);
            }
        },
    }
}

/// If no body of the four quadrants sits at `pos`, neither does any body of
/// a single quadrant.
proof fn lemma_no_body_at_component(q: Quadrants, pos: Vec2)
    requires
        !has_body_at(quads_set(q), pos),
    ensures
        !has_body_at(q.tl.body_set(), pos),
        !has_body_at(q.tr.body_set(), pos),
        !has_body_at(q.bl.body_set(), pos),
        !has_body_at(q.br.body_set(), pos),
{
    broadcast use vstd::seq_lib::group_to_multiset_ensures;
    broadcast use vstd::multiset::group_multiset_axioms;

    lemma_concat4_multiset(q.tl.bodies(), q.tr.bodies(), q.bl.bodies(), q.br.bodies());
    if has_body_at(q.tl.body_set(), pos) {
        let w = choose|w: Particle| q.tl.body_set().count(w) > 0 && w.pos == pos;
        assert(quads_set(q).count(w) > 0);
    }
    if has_body_at(q.tr.body_set(), pos) {
        let w = choose|w: Particle| q.tr.body_set().count(w) > 0 && w.pos == pos;
        assert(quads_set(q).count(w) > 0);
    }
    if has_body_at(q.bl.body_set(), pos) {
        let w = choose|w: Particle| q.bl.body_set().count(w) > 0 && w.pos == pos;
        assert(quads_set(q).count(w) > 0);
    }
    if has_body_at(q.br.body_set(), pos) {
        let w = choose|w: Particle| q.br.body_set().count(w) > 0 && w.pos == pos;
        assert(quads_set(q).count(w) > 0);
    }
}

/// The mass-weighted sum of the children's centers of mass, x axis.
pub open spec fn quads_weighted_x(q: Quadrants) -> int {
    q.tl.m_center_pos.x * q.tl.mass + q.tr.m_center_pos.x * q.tr.mass + q.bl.m_center_pos.x
        * q.bl.mass + q.br.m_center_pos.x * q.br.mass
}

/// The mass-weighted sum of the children's centers of mass, y axis.
pub open spec fn quads_weighted_y(q: Quadrants) -> int {
    q.tl.m_center_pos.y * q.tl.mass + q.tr.m_center_pos.y * q.tr.mass + q.bl.m_center_pos.y
        * q.bl.mass + q.br.m_center_pos.y * q.br.mass
}

impl QuadTree {
    /// The aggregate fields represent the subtree: an empty leaf weighs
    /// nothing and is centered on its bounds, an occupied leaf mirrors its
    /// occupant, and an internal node carries the sum of its children's
    /// masses and their mass-weighted center (components truncated toward
    /// zero). Established by `update_mass`, read by `calculate_force`.
    pub open spec fn mass_valid(self) -> bool
        decreases self,
    {
        match self.children {
            None => match self.particle {
                None => self.mass == 0 && self.m_center_pos.x as int == self.bounds.center_spec().0
                    && self.m_center_pos.y as int == self.bounds.center_spec().1,
                Some(p) => self.mass == p.mass && self.m_center_pos == p.pos,
            },
            Some(q) => {
                &&& q.tl.mass_valid()
                &&& q.tr.mass_valid()
                &&& q.bl.mass_valid()
                &&& q.br.mass_valid()
                &&& self.mass == q.tl.mass + q.tr.mass + q.bl.mass + q.br.mass
                &&& self.mass >= 1
                &&& self.m_center_pos.x as int == div_tz(quads_weighted_x(*q), self.mass as int)
                &&& self.m_center_pos.y as int == div_tz(quads_weighted_y(*q), self.mass as int)
            },
        }
    }

    /// Recompute the aggregate mass and center of mass of the whole
    /// subtree, bottom-up, leaving the bodies untouched. Must run after all
    /// insertions and before any force traversal.
    pub fn update_mass(&mut self)
        requires
            old(self).wf(),
            old(self).bodies().len() <= MAX_BODIES,
        ensures
            final(self).wf(),
            final(self).mass_valid(),
            final(self).bounds == old(self).bounds,
            final(self).particle == old(self).particle,
            final(self).bodies() == old(self).bodies(),
        decreases *old(self),
    {
        if self.children.is_none() {
            let p_opt = self.particle;
            match p_opt {
                None => {
                    let center = self.bounds.center();
                    self.mass = 0;
                    self.m_center_pos = center;
                },
                Some(p) => {
                    self.mass = p.mass;
                    self.m_center_pos = p.pos;
                },
            }
            return ;
        }
        let mut quads = *self.children.take().unwrap();
        let ghost pre = quads;
        proof {
            assert(old(self).bodies() =~= quads_bodies(pre));
        }
        quads.tl.update_mass();
        quads.tr.update_mass();
        quads.bl.update_mass();
        quads.br.update_mass();
        proof {
            lemma_mass_bounds(quads.tl);
            lemma_mass_bounds(quads.tr);
            lemma_mass_bounds(quads.bl);
            lemma_mass_bounds(quads.br);
        }
        let mass_sum: i64 = quads.tl.mass + quads.tr.mass + quads.bl.mass + quads.br.mass;
        let wx: i128 = weighted_term(quads.tl.m_center_pos.x, quads.tl.mass) + weighted_term(
            quads.tr.m_center_pos.x,
            quads.tr.mass,
        ) + weighted_term(quads.bl.m_center_pos.x, quads.bl.mass) + weighted_term(
            quads.br.m_center_pos.x,
            quads.br.mass,
        );
        let wy: i128 = weighted_term(quads.tl.m_center_pos.y, quads.tl.mass) + weighted_term(
            quads.tr.m_center_pos.y,
            quads.tr.mass,
        ) + weighted_term(quads.bl.m_center_pos.y, quads.bl.mass) + weighted_term(
            quads.br.m_center_pos.y,
            quads.br.mass,
        );
        assert(mass_sum >= 1);
        proof {
            lemma_div_tz_bound(wx as int, mass_sum as int, COORD_LIMIT as int);
            lemma_div_tz_bound(wy as int, mass_sum as int, COORD_LIMIT as int);
        }
        let cx: i64 = div_tz_i128(wx, mass_sum as i128) as i64;
        let cy: i64 = div_tz_i128(wy, mass_sum as i128) as i64;
        self.mass = mass_sum;
        self.m_center_pos = Vec2 { x: cx, y: cy };
        self.children = Some(Box::new(quads));
        proof {
            assert(self.bodies() =~= quads_bodies(quads));
            assert(quads_bodies(quads) =~= quads_bodies(pre));
            assert(self.bodies() == old(self).bodies());
        }
    }
}

/// Add one force contribution to an accumulator component, clamped to the
/// accumulator range.
pub open spec fn sat_force(acc: int, df: int) -> int {
    clamp_spec(acc + df, FORCE_LIMIT as int)
}

/// The net force the Barnes-Hut traversal adds to the accumulator
/// `(fx, fy)` for the body `p` against the subtree `t`: leaves contribute
/// their occupant's direct attraction (skipping an occupant at `p`'s own
/// position), and an internal node whose bounds-width-to-distance ratio is
/// below the opening-angle threshold contributes its aggregate pseudo-body
/// instead of its children.
pub open spec fn acc_force(t: QuadTree, p_pos: Vec2, p_mass: int, cfg: SimConfig, fx: int, fy: int) -> (
    int,
    int,
)
    decreases t,
{
    match t.children {
        None => match t.particle {
            None => (fx, fy),
            Some(q) => {
                if q.pos == p_pos {
                    (fx, fy)
                } else {
                    let f = attraction_spec(p_pos, p_mass, q.pos, q.mass as int, cfg);
                    (sat_force(fx, f.0), sat_force(fy, f.1))
                }
            },
        },
        Some(quads) => {
            let d = sqrt_floor(dist2(p_pos, t.m_center_pos));
            if t.bounds.w * cfg.theta_den < d * cfg.theta_num {
                let f = attraction_spec(p_pos, p_mass, t.m_center_pos, t.mass as int, cfg);
                (sat_force(fx, f.0), sat_force(fy, f.1))
            } else {
                let f1 = acc_force(quads.tl, p_pos, p_mass, cfg, fx, fy);
                let f2 = acc_force(quads.tr, p_pos, p_mass, cfg, f1.0, f1.1);
                let f3 = acc_force(quads.bl, p_pos, p_mass, cfg, f2.0, f2.1);
                acc_force(quads.br, p_pos, p_mass, cfg, f3.0, f3.1)
            }
        },
    }
}

impl QuadTree {
    /// Walk the tree and add its gravitational pull on `particle` to the
    /// body's force accumulator, reading the tree and writing nothing but
    /// that accumulator. Far subtrees (bounds width below `theta` times the
    /// distance to their center of mass) contribute as a single pseudo-body,
    /// which is the approximation that makes the traversal sub-quadratic.
    pub fn calculate_force(&self, particle: &mut Particle, cfg: &SimConfig)
        requires
            self.wf(),
            self.mass_valid(),
            self.bodies().len() <= MAX_BODIES,
            cfg.valid(),
            old(particle).valid(),
        ensures
            final(particle).valid(),
            final(particle).pos == old(particle).pos,
            final(particle).vel == old(particle).vel,
            final(particle).mass == old(particle).mass,
            final(particle).radius == old(particle).radius,
            final(particle).index == old(particle).index,
            (final(particle).net_force.x as int, final(particle).net_force.y as int) == acc_force(
                *self,
                old(particle).pos,
                old(particle).mass as int,
                *cfg,
                old(particle).net_force.x as int,
                old(particle).net_force.y as int,
            ),
        decreases *self,
    {
        if self.children.is_none() {
            let q_opt = self.particle;
            if let Some(q) = q_opt {
                if !(q.pos.x == particle.pos.x && q.pos.y == particle.pos.y) {
                    let f = particle.get_attraction_force(&q, cfg);
                    add_force(particle, f);
                }
            }
            return ;
        }
        proof {
            lemma_mass_bounds(*self);
        }
        let d: i64 = particle.get_distance_to(&self.m_center_pos);
        assert(0 <= (self.bounds.w as int) * (cfg.theta_den as int)
            <= 2_000_000_000_000_000_000 && 0 <= (d as int) * (cfg.theta_num as int)
            <= 3_000_000_000_000_000_000) by (nonlinear_arith)
            requires
                0 <= self.bounds.w <= 2_000_000_000_000 && 1 <= cfg.theta_den <= 1_000_000 && 0
                    <= d <= 3_000_000_000_000 && 0 <= cfg.theta_num <= 1_000_000,
        ;
        let lhs: i128 = (self.bounds.w as i128) * (cfg.theta_den as i128);
        let rhs: i128 = (d as i128) * (cfg.theta_num as i128);
        if lhs < rhs {
            let pseudo = Particle {
                pos: self.m_center_pos,
                vel: Vec2 { x: 0, y: 0 },
                net_force: Vec2 { x: 0, y: 0 },
                mass: self.mass,
                radius: 1,
                index: 10000,
            };
            let f = particle.get_attraction_force(&pseudo, cfg);
            add_force(particle, f);
            return ;
        }
        match &self.children {
            Some(quads) => {
                proof {
                    assert(self.bodies() =~= quads_bodies(**quads));
                }
                quads.tl.calculate_force(particle, cfg);
                quads.tr.calculate_force(particle, cfg);
                quads.bl.calculate_force(particle, cfg);
                quads.br.calculate_force(particle, cfg);
            },
            None => {},
        }
    }
}

/// The net force a direct all-pairs pass adds to the accumulator
/// `(fx, fy)`: every body of the sequence in turn contributes its pairwise
/// attraction, skipping bodies at the affected body's own position.
pub open spec fn seq_force(
    s: Seq<Particle>,
    p_pos: Vec2,
    p_mass: int,
    cfg: SimConfig,
    fx: int,
    fy: int,
) -> (int, int)
    decreases s.len(),
{
    if s.len() == 0 {
        (fx, fy)
    } else {
        let q = s[0];
        let next = if q.pos == p_pos {
            (fx, fy)
        } else {
            let f = attraction_spec(p_pos, p_mass, q.pos, q.mass as int, cfg);
            (sat_force(fx, f.0), sat_force(fy, f.1))
        };
        seq_force(s.drop_first(), p_pos, p_mass, cfg, next.0, next.1)
    }
}

/// The direct pass over a concatenation is the pass over the second part
/// started from the pass over the first.
pub proof fn lemma_seq_force_concat(
    s1: Seq<Particle>,
    s2: Seq<Particle>,
    p_pos: Vec2,
    p_mass: int,
    cfg: SimConfig,
    fx: int,
    fy: int,
)
    ensures
        seq_force(s1 + s2, p_pos, p_mass, cfg, fx, fy) == {
            let m = seq_force(s1, p_pos, p_mass, cfg, fx, fy);
            seq_force(s2, p_pos, p_mass, cfg, m.0, m.1)
        },
    decreases s1.len(),
{
    if s1.len() == 0 {
        assert(s1 + s2 =~= s2);
    } else {
        assert((s1 + s2)[0] == s1[0]);
        assert((s1 + s2).drop_first() =~= s1.drop_first() + s2);
        let q = s1[0];
        let next = if q.pos == p_pos {
            (fx, fy)
        } else {
            let f = attraction_spec(p_pos, p_mass, q.pos, q.mass as int, cfg);
            (sat_force(fx, f.0), sat_force(fy, f.1))
        };
        lemma_seq_force_concat(s1.drop_first(), s2, p_pos, p_mass, cfg, next.0, next.1);
    }
}

/// With the opening-angle threshold at zero no subtree is ever far enough
/// to be approximated, so the quadtree traversal adds exactly the direct
/// all-pairs sum over the bodies it holds. This is the limit the
/// approximation converges to as the threshold shrinks.
pub proof fn lemma_exact_when_theta_zero(
    t: QuadTree,
    p_pos: Vec2,
    p_mass: int,
    cfg: SimConfig,
    fx: int,
    fy: int,
)
    requires
        t.wf(),
        cfg.valid(),
        cfg.theta_num == 0,
    ensures
        acc_force(t, p_pos, p_mass, cfg, fx, fy) == seq_force(
            t.bodies(),
            p_pos,
            p_mass,
            cfg,
            fx,
            fy,
        ),
    decreases t,
{
    reveal_with_fuel(seq_force, 2);
    match t.children {
        None => {
            match t.particle {
                None => {
                    assert(t.bodies() =~= Seq::<Particle>::empty());
                },
                Some(q) => {
                    assert(t.bodies() =~= seq![q]);
                    assert(seq![q][0] == q);
                    assert(seq![q].drop_first() =~= Seq::<Particle>::empty());
                },
            }
        },
        Some(quads) => {
            let d = sqrt_floor(dist2(p_pos, t.m_center_pos));
            assert(t.bounds.w * cfg.theta_den >= 0) by (nonlinear_arith)
                requires
                    t.bounds.w >= 0 && cfg.theta_den >= 1,
            ;
            assert(d * cfg.theta_num == 0) by (nonlinear_arith)
                requires
                    cfg.theta_num == 0,
            ;
            let s1 = quads.tl.bodies();
            let s2 = quads.tr.bodies();
            let s3 = quads.bl.bodies();
            let s4 = quads.br.bodies();
            assert(t.bodies() =~= s1 + s2 + s3 + s4);
            let f1 = acc_force(quads.tl, p_pos, p_mass, cfg, fx, fy);
            let f2 = acc_force(quads.tr, p_pos, p_mass, cfg, f1.0, f1.1);
            let f3 = acc_force(quads.bl, p_pos, p_mass, cfg, f2.0, f2.1);
            lemma_exact_when_theta_zero(quads.tl, p_pos, p_mass, cfg, fx, fy);
            lemma_exact_when_theta_zero(quads.tr, p_pos, p_mass, cfg, f1.0, f1.1);
            lemma_exact_when_theta_zero(quads.bl, p_pos, p_mass, cfg, f2.0, f2.1);
            lemma_exact_when_theta_zero(quads.br, p_pos, p_mass, cfg, f3.0, f3.1);
            lemma_seq_force_concat(s1, s2, p_pos, p_mass, cfg, fx, fy);
            lemma_seq_force_concat(s1 + s2, s3, p_pos, p_mass, cfg, fx, fy);
            lemma_seq_force_concat(s1 + s2 + s3, s4, p_pos, p_mass, cfg, fx, fy);
        },
    }
}

/// In a settled subtree whose bodies all sit at one position, that
/// position is the center of mass.
proof fn lemma_com_of_coincident(t: QuadTree, pos: Vec2)
    requires
        t.wf(),
        t.mass_valid(),
        t.bodies().len() >= 1,
        forall|i: int| 0 <= i < t.bodies().len() ==> (#[trigger] t.bodies()[i]).pos == pos,
    ensures
        t.mass >= 1,
        t.m_center_pos == pos,
    decreases t,
{
    match t.children {
        None => {
            match t.particle {
                None => {
                    assert(t.bodies().len() == 0);
                },
                Some(q) => {
                    assert(t.bodies() =~= seq![q]);
                    assert(t.bodies()[0] == q);
                },
            }
        },
        Some(quads) => {
            let s1 = quads.tl.bodies();
            let s2 = quads.tr.bodies();
            let s3 = quads.bl.bodies();
            let s4 = quads.br.bodies();
            assert(t.bodies() =~= s1 + s2 + s3 + s4);
            assert forall|i: int| 0 <= i < s1.len() implies (#[trigger] s1[i]).pos == pos by {
                assert(s1[i] == t.bodies()[i]);
            }
            assert forall|i: int| 0 <= i < s2.len() implies (#[trigger] s2[i]).pos == pos by {
                assert(s2[i] == t.bodies()[s1.len() + i]);
            }
            assert forall|i: int| 0 <= i < s3.len() implies (#[trigger] s3[i]).pos == pos by {
                assert(s3[i] == t.bodies()[s1.len() + s2.len() + i]);
            }
            assert forall|i: int| 0 <= i < s4.len() implies (#[trigger] s4[i]).pos == pos by {
                assert(s4[i] == t.bodies()[s1.len() + s2.len() + s3.len() + i]);
            }
            lemma_mass_bounds(quads.tl);
            lemma_mass_bounds(quads.tr);
            lemma_mass_bounds(quads.bl);
            lemma_mass_bounds(quads.br);
            if s1.len() >= 1 {
                lemma_com_of_coincident(quads.tl, pos);
            } else {
                assert(quads.tl.mass == 0);
            }
            if s2.len() >= 1 {
                lemma_com_of_coincident(quads.tr, pos);
            } else {
                assert(quads.tr.mass == 0);
            }
            if s3.len() >= 1 {
                lemma_com_of_coincident(quads.bl, pos);
            } else {
                assert(quads.bl.mass == 0);
            }
            if s4.len() >= 1 {
                lemma_com_of_coincident(quads.br, pos);
            } else {
                assert(quads.br.mass == 0);
            }
            assert(quads_weighted_x(*quads) == pos.x * (t.mass as int)) by (nonlinear_arith)
                requires
                    quads_weighted_x(*quads) == quads.tl.m_center_pos.x * quads.tl.mass
                        + quads.tr.m_center_pos.x * quads.tr.mass + quads.bl.m_center_pos.x
                        * quads.bl.mass + quads.br.m_center_pos.x * quads.br.mass && t.mass
                        == quads.tl.mass + quads.tr.mass + quads.bl.mass + quads.br.mass && (
                    quads.tl.mass == 0 || quads.tl.m_center_pos.x == pos.x) && (quads.tr.mass == 0
                        || quads.tr.m_center_pos.x == pos.x) && (quads.bl.mass == 0
                        || quads.bl.m_center_pos.x == pos.x) && (quads.br.mass == 0
                        || quads.br.m_center_pos.x == pos.x),
            ;
            assert(quads_weighted_y(*quads) == pos.y * (t.mass as int)) by (nonlinear_arith)
                requires
                    quads_weighted_y(*quads) == quads.tl.m_center_pos.y * quads.tl.mass
                        + quads.tr.m_center_pos.y * quads.tr.mass + quads.bl.m_center_pos.y
                        * quads.bl.mass + quads.br.m_center_pos.y * quads.br.mass && t.mass
                        == quads.tl.mass + quads.tr.mass + quads.bl.mass + quads.br.mass && (
                    quads.tl.mass == 0 || quads.tl.m_center_pos.y == pos.y) && (quads.tr.mass == 0
                        || quads.tr.m_center_pos.y == pos.y) && (quads.bl.mass == 0
                        || quads.bl.m_center_pos.y == pos.y) && (quads.br.mass == 0
                        || quads.br.m_center_pos.y == pos.y),
            ;
            crate::vec2::lemma_div_tz_exact(pos.x as int, t.mass as int);
            crate::vec2::lemma_div_tz_exact(pos.y as int, t.mass as int);
        },
    }
}

/// A lone body feels no force from a tree that holds nothing but bodies at
/// its own position: the self-interaction guard skips every leaf, and no
/// aggregate pseudo-body at that same position is ever opened as far.
pub proof fn lemma_coincident_no_force(
    t: QuadTree,
    p_pos: Vec2,
    p_mass: int,
    cfg: SimConfig,
    fx: int,
    fy: int,
)
    requires
        t.wf(),
        t.mass_valid(),
        cfg.valid(),
        forall|i: int| 0 <= i < t.bodies().len() ==> (#[trigger] t.bodies()[i]).pos == p_pos,
    ensures
        acc_force(t, p_pos, p_mass, cfg, fx, fy) == (fx, fy),
    decreases t,
{
    match t.children {
        None => {
            match t.particle {
                None => {},
                Some(q) => {
                    assert(t.bodies() =~= seq![q]);
                    assert(t.bodies()[0] == q);
                },
            }
        },
        Some(quads) => {
            lemma_com_of_coincident(t, p_pos);
            assert(dist2(p_pos, t.m_center_pos) == 0) by (nonlinear_arith)
                requires
                    t.m_center_pos == p_pos,
            ;
            crate::vec2::lemma_sqrt_floor_is(0, 0);
            let d = sqrt_floor(dist2(p_pos, t.m_center_pos));
            assert(d == 0);
            assert(t.bounds.w * cfg.theta_den >= 0) by (nonlinear_arith)
                requires
                    t.bounds.w >= 0 && cfg.theta_den >= 1,
            ;
            assert(d * cfg.theta_num == 0) by (nonlinear_arith)
                requires
                    d == 0,
            ;
            let s1 = quads.tl.bodies();
            let s2 = quads.tr.bodies();
            let s3 = quads.bl.bodies();
            let s4 = quads.br.bodies();
            assert(t.bodies() =~= s1 + s2 + s3 + s4);
            assert forall|i: int| 0 <= i < s1.len() implies (#[trigger] s1[i]).pos == p_pos by {
                assert(s1[i] == t.bodies()[i]);
            }
            assert forall|i: int| 0 <= i < s2.len() implies (#[trigger] s2[i]).pos == p_pos by {
                assert(s2[i] == t.bodies()[s1.len() + i]);
            }
            assert forall|i: int| 0 <= i < s3.len() implies (#[trigger] s3[i]).pos == p_pos by {
                assert(s3[i] == t.bodies()[s1.len() + s2.len() + i]);
            }
            assert forall|i: int| 0 <= i < s4.len() implies (#[trigger] s4[i]).pos == p_pos by {
                assert(s4[i] == t.bodies()[s1.len() + s2.len() + s3.len() + i]);
            }
            lemma_coincident_no_force(quads.tl, p_pos, p_mass, cfg, fx, fy);
            lemma_coincident_no_force(quads.tr, p_pos, p_mass, cfg, fx, fy);
            lemma_coincident_no_force(quads.bl, p_pos, p_mass, cfg, fx, fy);
            lemma_coincident_no_force(quads.br, p_pos, p_mass, cfg, fx, fy);
        },
    }
}

/// The range-query predicate of a rectangle: the body's position lies in
/// the half-open box.
pub open spec fn in_rect(rect: Rectangle) -> spec_fn(Particle) -> bool {
    |b: Particle| rect.contains_spec(b.pos)
}

/// The range-query predicate of a circle: the body's position lies in the
/// closed disc.
pub open spec fn in_circle(circle: crate::circle::Circle) -> spec_fn(Particle) -> bool {
    |b: Particle| circle.contains_spec(b.pos)
}

impl QuadTree {
    /// Range query: exactly the bodies of the tree whose positions lie in
    /// `rect`, in the tree's own traversal order. Subtrees whose bounds do
    /// not overlap the region are pruned without being visited.
    pub fn query(&self, rect: &Rectangle) -> (res: Vec<Particle>)
        requires
            self.wf(),
            rect.bounded(),
        ensures
            res@ == self.bodies().filter(in_rect(*rect)),
            forall|j: int| 0 <= j < res@.len() ==> (#[trigger] res@[j]).valid(),
        decreases *self,
    {
        let mut results: Vec<Particle> = Vec::new();
        if !self.bounds.intersects(rect) {
            proof {
                lemma_wf_bodies(*self);
                assert forall|i: int| 0 <= i < self.bodies().len() implies !in_rect(*rect)(
                    #[trigger] self.bodies()[i],
                ) by {
                    if in_rect(*rect)(self.bodies()[i]) {
                        crate::rectangle::lemma_common_point_intersects(
                            self.bounds,
                            *rect,
                            self.bodies()[i].pos,
                        );
                    }
                }
                lemma_filter_none(self.bodies(), in_rect(*rect));
            }
            return results;
        }
        let p_opt = self.particle;
        if let Some(p) = p_opt {
            if rect.contains(&p) {
                results.push(p);
            }
        }
        proof {
            lemma_filter_one(self.particle, in_rect(*rect));
        }
        match &self.children {
            Some(quads) => {
                let mut r1 = quads.tl.query(rect);
                let mut r2 = quads.tr.query(rect);
                let mut r3 = quads.bl.query(rect);
                let mut r4 = quads.br.query(rect);
                results.append(&mut r1);
                results.append(&mut r2);
                results.append(&mut r3);
                results.append(&mut r4);
                proof {
                    broadcast use Seq::filter_distributes_over_add;

                    let own: Seq<Particle> = match self.particle {
                        None => Seq::empty(),
                        Some(p) => seq![p],
                    };
                    assert(self.bodies() == own + quads.tl.bodies() + quads.tr.bodies()
                        + quads.bl.bodies() + quads.br.bodies());
                }
            },
            None => {
                proof {
                    let own: Seq<Particle> = match self.particle {
                        None => Seq::empty(),
                        Some(p) => seq![p],
                    };
                    assert(self.bodies() == own);
                }
            },
        }
        results
    }

    /// Range query with a circular region: exactly the bodies whose
    /// positions lie in the closed disc. The broad phase queries the disc's
    /// bounding rectangle, the narrow phase keeps what the disc contains.
    pub fn query_circle(&self, circle: &crate::circle::Circle) -> (res: Vec<Particle>)
        requires
            self.wf(),
            circle.valid(),
        ensures
            res@ == self.bodies().filter(in_circle(*circle)),
            forall|j: int| 0 <= j < res@.len() ==> (#[trigger] res@[j]).valid(),
    {
        let bounding = Rectangle::new(
            Vec2::new(circle.center.x - circle.radius, circle.center.y - circle.radius),
            2 * circle.radius + 1,
            2 * circle.radius + 1,
        );
        proof {
            assert forall|b: Particle| #[trigger] in_circle(*circle)(b) implies in_rect(bounding)(
                b,
            ) by {
                lemma_disc_in_bounding_box(*circle, b.pos);
            }
        }
        let coarse = self.query(&bounding);
        let mut results: Vec<Particle> = Vec::new();
        let ghost coarse_seq = coarse@;
        proof {
            assert forall|j: int|
                0 <= j < coarse_seq.len() implies in_rect(bounding)(
                #[trigger] coarse_seq[j],
            ) by {
                self.bodies().lemma_filter_pred(in_rect(bounding), j);
            }
        }
        let mut i: usize = 0;
        while i < coarse.len()
            invariant
                0 <= i <= coarse.len(),
                coarse@ == coarse_seq,
                coarse_seq == self.bodies().filter(in_rect(bounding)),
                circle.valid(),
                bounding.top_left_pos.x == circle.center.x - circle.radius,
                bounding.top_left_pos.y == circle.center.y - circle.radius,
                bounding.w == 2 * circle.radius + 1,
                bounding.h == 2 * circle.radius + 1,
                forall|j: int|
                    0 <= j < coarse_seq.len() ==> in_rect(bounding)(#[trigger] coarse_seq[j]),
                results@ == coarse_seq.subrange(0, i as int).filter(in_circle(*circle)),
                forall|j: int| 0 <= j < coarse_seq.len() ==> (#[trigger] coarse_seq[j]).valid(),
                forall|j: int| 0 <= j < results@.len() ==> (#[trigger] results@[j]).valid(),
            decreases coarse.len() - i,
        {
            let b = coarse[i];
            proof {
                assert(coarse_seq.subrange(0, i as int + 1) == coarse_seq.subrange(
                    0,
                    i as int,
                ).push(b));
                lemma_filter_push(coarse_seq.subrange(0, i as int), b, in_circle(*circle));
            }
            if circle.contains(&b) {
                results.push(b);
            }
            i = i + 1;
        }
        proof {
            assert(coarse_seq.subrange(0, coarse_seq.len() as int) == coarse_seq);
            lemma_filter_restrict(self.bodies(), in_rect(bounding), in_circle(*circle));
        }
        results
    }
}

/// A position in the closed disc lies in the disc's half-open bounding box.
proof fn lemma_disc_in_bounding_box(circle: crate::circle::Circle, p: Vec2)
    requires
        circle.valid(),
        circle.contains_spec(p),
    ensures
        circle.center.x - circle.radius <= p.x,
        p.x < circle.center.x - circle.radius + (2 * circle.radius + 1),
        circle.center.y - circle.radius <= p.y,
        p.y < circle.center.y - circle.radius + (2 * circle.radius + 1),
{
    let dx = p.x - circle.center.x;
    let dy = p.y - circle.center.y;
    assert(-circle.radius <= dx <= circle.radius && -circle.radius <= dy <= circle.radius)
        by (nonlinear_arith)
        requires
            dx == p.x - circle.center.x && dy == p.y - circle.center.y && dx * dx + dy * dy
                <= circle.radius * circle.radius && circle.radius >= 0,
    ;
}

/// Filtering keeps nothing when no element satisfies the predicate.
proof fn lemma_filter_none(s: Seq<Particle>, pred: spec_fn(Particle) -> bool)
    requires
        forall|i: int| 0 <= i < s.len() ==> !pred(#[trigger] s[i]),
    ensures
        s.filter(pred) == Seq::<Particle>::empty(),
    decreases s.len(),
{
    reveal(Seq::filter);
    if s.len() == 0 {
        assert(s.filter(pred) =~= Seq::<Particle>::empty());
    } else {
        lemma_filter_none(s.drop_last(), pred);
        assert(!pred(s.last()));
        assert(s.filter(pred) =~= Seq::<Particle>::empty());
    }
}

/// Filtering a sequence extended by one element.
proof fn lemma_filter_push(s: Seq<Particle>, x: Particle, pred: spec_fn(Particle) -> bool)
    ensures
        s.push(x).filter(pred) == if pred(x) {
            s.filter(pred).push(x)
        } else {
            s.filter(pred)
        },
{
    reveal(Seq::filter);
    assert(s.push(x).drop_last() =~= s);
    assert(s.push(x).last() == x);
}

/// Filtering the occupant sequence of a leaf.
proof fn lemma_filter_one(p_opt: Option<Particle>, pred: spec_fn(Particle) -> bool)
    ensures
        (match p_opt {
            None => Seq::<Particle>::empty(),
            Some(p) => seq![p],
        }).filter(pred) == (match p_opt {
            None => Seq::<Particle>::empty(),
            Some(p) => if pred(p) {
                seq![p]
            } else {
                Seq::<Particle>::empty()
            },
        }),
{
    reveal_with_fuel(Seq::filter, 2);
    match p_opt {
        None => {
            assert(Seq::<Particle>::empty().filter(pred) =~= Seq::<Particle>::empty());
        },
        Some(p) => {
            assert(seq![p].drop_last() =~= Seq::<Particle>::empty());
            assert(seq![p].last() == p);
            if pred(p) {
                assert(seq![p].filter(pred) =~= seq![p]);
            } else {
                assert(seq![p].filter(pred) =~= Seq::<Particle>::empty());
            }
        },
    }
}

/// Filtering by a finer predicate sees through a coarser filter.
proof fn lemma_filter_restrict(
    s: Seq<Particle>,
    coarse: spec_fn(Particle) -> bool,
    fine: spec_fn(Particle) -> bool,
)
    requires
        forall|b: Particle| #[trigger] fine(b) ==> coarse(b),
    ensures
        s.filter(coarse).filter(fine) == s.filter(fine),
    decreases s.len(),
{
    reveal(Seq::filter);
    if s.len() == 0 {
    } else {
        lemma_filter_restrict(s.drop_last(), coarse, fine);
        let l = s.last();
        if coarse(l) {
            lemma_filter_push(s.drop_last().filter(coarse), l, fine);
        } else {
            assert(!fine(l));
        }
    }
}

/// Add a bounded force contribution into the body's accumulator, each
/// component clamped to the accumulator range.
fn add_force(particle: &mut Particle, f: Vec2)
    requires
        -FORCE_LIMIT <= f.x <= FORCE_LIMIT,
        -FORCE_LIMIT <= f.y <= FORCE_LIMIT,
        old(particle).valid(),
    ensures
        final(particle).pos == old(particle).pos,
        final(particle).vel == old(particle).vel,
        final(particle).mass == old(particle).mass,
        final(particle).radius == old(particle).radius,
        final(particle).index == old(particle).index,
        final(particle).net_force.x as int == sat_force(
            old(particle).net_force.x as int,
            f.x as int,
        ),
        final(particle).net_force.y as int == sat_force(
            old(particle).net_force.y as int,
            f.y as int,
        ),
        final(particle).valid(),
{
    let nx: i64 = clamp_i128((particle.net_force.x as i128) + (f.x as i128), FORCE_LIMIT);
    let ny: i64 = clamp_i128((particle.net_force.y as i128) + (f.y as i128), FORCE_LIMIT);
    particle.net_force = Vec2 { x: nx, y: ny };
}

/// One product of a center-of-mass coordinate and a subtree mass, with the
/// bounds the weighted sums rely on.
fn weighted_term(c: i64, m: i64) -> (r: i128)
    requires
        -COORD_LIMIT <= c <= COORD_LIMIT,
        0 <= m <= 1_000_000_000_000,
    ensures
        r as int == c * m,
        -COORD_LIMIT * m <= r as int <= COORD_LIMIT * m,
        -1_000_000_000_000_000_000_000_000 <= r as int <= 1_000_000_000_000_000_000_000_000,
{
    assert(-COORD_LIMIT * m <= (c as int) * (m as int) <= COORD_LIMIT * m
        && -1_000_000_000_000_000_000_000_000 <= (c as int) * (m as int)
        <= 1_000_000_000_000_000_000_000_000) by (nonlinear_arith)
        requires
            -1_000_000_000_000 <= c <= 1_000_000_000_000 && 0 <= m <= 1_000_000_000_000
                && COORD_LIMIT == 1_000_000_000_000i64,
    ;
    (c as i128) * (m as i128)
}

/// In a well-formed subtree with settled aggregates, the aggregate mass is
/// pinned between the body count and its product with the largest body
/// mass, and the center of mass stays in the coordinate range.
pub proof fn lemma_mass_bounds(t: QuadTree)
    requires
        t.wf(),
        t.mass_valid(),
    ensures
        t.bodies().len() <= t.mass,
        t.mass <= t.bodies().len() * MASS_LIMIT,
        -COORD_LIMIT <= t.m_center_pos.x <= COORD_LIMIT,
        -COORD_LIMIT <= t.m_center_pos.y <= COORD_LIMIT,
    decreases t,
{
    match t.children {
        None => {
            match t.particle {
                None => {
                    assert(t.bodies().len() == 0);
                    vstd::arithmetic::div_mod::lemma_div_pos_is_pos(t.bounds.w as int, 2);
                    vstd::arithmetic::div_mod::lemma_div_pos_is_pos(t.bounds.h as int, 2);
                    vstd::arithmetic::div_mod::lemma_div_nonincreasing(t.bounds.w as int, 2);
                    vstd::arithmetic::div_mod::lemma_div_nonincreasing(t.bounds.h as int, 2);
                },
                Some(p) => {
                    assert(t.bodies() =~= seq![p]);
                },
            }
        },
        Some(q) => {
            lemma_mass_bounds(q.tl);
            lemma_mass_bounds(q.tr);
            lemma_mass_bounds(q.bl);
            lemma_mass_bounds(q.br);
            let s1 = q.tl.bodies();
            let s2 = q.tr.bodies();
            let s3 = q.bl.bodies();
            let s4 = q.br.bodies();
            assert(t.bodies() =~= s1 + s2 + s3 + s4);
            assert(t.bodies().len() == s1.len() + s2.len() + s3.len() + s4.len());
            assert(t.mass <= t.bodies().len() * MASS_LIMIT) by (nonlinear_arith)
                requires
                    t.mass == q.tl.mass + q.tr.mass + q.bl.mass + q.br.mass && q.tl.mass <= s1.len()
                        * MASS_LIMIT && q.tr.mass <= s2.len() * MASS_LIMIT && q.bl.mass <= s3.len()
                        * MASS_LIMIT && q.br.mass <= s4.len() * MASS_LIMIT && t.bodies().len()
                        == s1.len() + s2.len() + s3.len() + s4.len(),
            ;
            assert(-COORD_LIMIT * q.tl.mass <= q.tl.m_center_pos.x * q.tl.mass <= COORD_LIMIT
                * q.tl.mass && -COORD_LIMIT * q.tl.mass <= q.tl.m_center_pos.y * q.tl.mass
                <= COORD_LIMIT * q.tl.mass) by (nonlinear_arith)
                requires
                    -COORD_LIMIT <= q.tl.m_center_pos.x <= COORD_LIMIT && -COORD_LIMIT
                        <= q.tl.m_center_pos.y <= COORD_LIMIT && 0 <= q.tl.mass,
            ;
            assert(-COORD_LIMIT * q.tr.mass <= q.tr.m_center_pos.x * q.tr.mass <= COORD_LIMIT
                * q.tr.mass && -COORD_LIMIT * q.tr.mass <= q.tr.m_center_pos.y * q.tr.mass
                <= COORD_LIMIT * q.tr.mass) by (nonlinear_arith)
                requires
                    -COORD_LIMIT <= q.tr.m_center_pos.x <= COORD_LIMIT && -COORD_LIMIT
                        <= q.tr.m_center_pos.y <= COORD_LIMIT && 0 <= q.tr.mass,
            ;
            assert(-COORD_LIMIT * q.bl.mass <= q.bl.m_center_pos.x * q.bl.mass <= COORD_LIMIT
                * q.bl.mass && -COORD_LIMIT * q.bl.mass <= q.bl.m_center_pos.y * q.bl.mass
                <= COORD_LIMIT * q.bl.mass) by (nonlinear_arith)
                requires
                    -COORD_LIMIT <= q.bl.m_center_pos.x <= COORD_LIMIT && -COORD_LIMIT
                        <= q.bl.m_center_pos.y <= COORD_LIMIT && 0 <= q.bl.mass,
            ;
            assert(-COORD_LIMIT * q.br.mass <= q.br.m_center_pos.x * q.br.mass <= COORD_LIMIT
                * q.br.mass && -COORD_LIMIT * q.br.mass <= q.br.m_center_pos.y * q.br.mass
                <= COORD_LIMIT * q.br.mass) by (nonlinear_arith)
                requires
                    -COORD_LIMIT <= q.br.m_center_pos.x <= COORD_LIMIT && -COORD_LIMIT
                        <= q.br.m_center_pos.y <= COORD_LIMIT && 0 <= q.br.mass,
            ;
            lemma_div_tz_bound(quads_weighted_x(*q), t.mass as int, COORD_LIMIT as int);
            lemma_div_tz_bound(quads_weighted_y(*q), t.mass as int, COORD_LIMIT as int);
        },
    }
}

/// Concatenation of four sequences turns into multiset addition.
proof fn lemma_concat4_multiset(
    a: Seq<Particle>,
    b: Seq<Particle>,
    c: Seq<Particle>,
    d: Seq<Particle>,
)
    ensures
        (a + b + c + d).to_multiset() == a.to_multiset().add(b.to_multiset()).add(
            c.to_multiset(),
        ).add(d.to_multiset()),
{
    lemma_multiset_commutative(a, b);
    lemma_multiset_commutative(a + b, c);
    lemma_multiset_commutative(a + b + c, d);
}

} // verus!
