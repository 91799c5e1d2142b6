//! The per-tick drivers around the spatial index: building the index from
//! the authoritative body collection, advancing every body by one tick
//! (semi-implicit Euler), the direct all-pairs force reference, collision
//! resolution, and the galaxy seeder.

use vstd::prelude::*;
use vstd::multiset::Multiset;

use rand::Rng;

use crate::circle::Circle;
use crate::config::{COORD_LIMIT, FORCE_LIMIT, GALAXY_RADIUS_LIMIT, MASS_LIMIT, MAX_BODIES,
    ORBIT_MIN_RADIUS, SimConfig, VEL_LIMIT};
use crate::particle::{dist2, lemma_square_bound, Particle};
use crate::quadtree::{acc_force, has_body_at, in_circle, seq_force, QuadTree};
use crate::rectangle::Rectangle;
use crate::vec2::{clamp_spec, clamp_i128, div_tz, div_tz_i128, is_sqrt_floor, isqrt,
    lemma_div_tz_bound, lemma_div_tz_of_multiple, lemma_sqrt_floor_is, sqrt_floor, Vec2};

verus! {

/// The multiset of bodies a fresh index holds after the bodies of `s` are
/// offered to it in order: a body is taken when its position lies in the
/// world rectangle and no earlier body claimed the same position.
pub open spec fn build_set(s: Seq<Particle>, bounds: Rectangle) -> Multiset<Particle>
    decreases s.len(),
{
    if s.len() == 0 {
        Multiset::empty()
    } else {
        let m = build_set(s.drop_last(), bounds);
        let p = s.last();
        if bounds.contains_spec(p.pos) && !has_body_at(m, p.pos) {
            m.insert(p)
        } else {
            m
        }
    }
}

/// Build the spatial index of a tick: a fresh tree over the world
/// rectangle, every body inserted in order, aggregates settled in one
/// bottom-up pass. The resulting model is exactly `build_set`; bodies
/// outside the world rectangle are left out for this tick.
pub fn create_quadtree(particles: &Vec<Particle>, bounds: Rectangle) -> (qt: QuadTree)
    requires
        bounds.valid(),
        particles@.len() <= MAX_BODIES,
        forall|i: int| 0 <= i < particles@.len() ==> (#[trigger] particles@[i]).valid(),
    ensures
        qt.wf(),
        qt.mass_valid(),
        qt.bounds == bounds,
        qt.body_set() == build_set(particles@, bounds),
        qt.bodies().len() <= particles@.len(),
{
    broadcast use vstd::seq_lib::group_to_multiset_ensures;
    broadcast use vstd::multiset::group_multiset_axioms;

    let mut qt = QuadTree::new(bounds);
    proof {
        assert(qt.body_set() =~= Multiset::<Particle>::empty());
        assert(particles@.subrange(0, 0) =~= Seq::<Particle>::empty());
    }
    let mut i: usize = 0;
    while i < particles.len()
        invariant
            0 <= i <= particles@.len(),
            particles@.len() <= MAX_BODIES,
            forall|k: int| 0 <= k < particles@.len() ==> (#[trigger] particles@[k]).valid(),
            bounds.valid(),
            qt.wf(),
            qt.bounds == bounds,
            qt.body_set() == build_set(particles@.subrange(0, i as int), bounds),
            qt.bodies().len() <= i,
        decreases particles@.len() - i,
    {
        let p = particles[i];
        let ghost pre_set = qt.body_set();
        let ghost pre_len = qt.bodies().len();
        qt.insert(&p);
        proof {
            let s_pre = particles@.subrange(0, i as int);
            let s_post = particles@.subrange(0, i as int + 1);
            assert(s_post.drop_last() =~= s_pre);
            assert(s_post.last() == particles@[i as int]);
            if bounds.contains_spec(p.pos) && !has_body_at(pre_set, p.pos) {
                assert(qt.body_set() == pre_set.insert(p));
            } else {
                assert(qt.body_set() == pre_set);
                assert(qt.bodies().to_multiset().len() == pre_set.len());
                assert(qt.bodies().len() == pre_len);
            }
        }
        i = i + 1;
    }
    proof {
        assert(particles@.subrange(0, particles@.len() as int) =~= particles@);
    }
    qt.update_mass();
    qt
}

/// When every body lies in the world rectangle and no two share a
/// position, the index takes them all: its model is the input multiset.
pub proof fn lemma_build_all_in(s: Seq<Particle>, bounds: Rectangle)
    requires
        forall|i: int| 0 <= i < s.len() ==> bounds.contains_spec((#[trigger] s[i]).pos),
        forall|i: int, j: int| 0 <= i < j < s.len() ==> s[i].pos != s[j].pos,
    ensures
        build_set(s, bounds) == s.to_multiset(),
    decreases s.len(),
{
    broadcast use vstd::seq_lib::group_to_multiset_ensures;
    broadcast use vstd::multiset::group_multiset_axioms;

    if s.len() == 0 {
        assert(s.to_multiset() =~= Multiset::<Particle>::empty()) by {
            assert forall|b: Particle| s.to_multiset().count(b) == 0 by {
                assert(!s.contains(b));
            }
        }
    } else {
        let s0 = s.drop_last();
        let p = s.last();
        lemma_build_all_in(s0, bounds);
        assert(!has_body_at(s0.to_multiset(), p.pos)) by {
            if has_body_at(s0.to_multiset(), p.pos) {
                let w = choose|w: Particle| s0.to_multiset().count(w) > 0 && w.pos == p.pos;
                assert(s0.contains(w));
                let j = choose|j: int| 0 <= j < s0.len() && s0[j] == w;
                assert(s[j].pos == s[s.len() - 1].pos);
            }
        }
        assert(s =~= s0.push(p));
        assert(s0.push(p).to_multiset() == s0.to_multiset().insert(p));
    }
}

/// One integration tick for a single body against a settled index: zero the
/// accumulator, gather the tree's force, then `velocity += force / mass`
/// and `position += velocity`, each component clamped into its range.
pub open spec fn step_particle_spec(p: Particle, t: QuadTree, cfg: SimConfig) -> Particle {
    let f = acc_force(t, p.pos, p.mass as int, cfg, 0, 0);
    let ax = div_tz(f.0, p.mass as int);
    let ay = div_tz(f.1, p.mass as int);
    let vx = clamp_spec(p.vel.x + ax, VEL_LIMIT as int);
    let vy = clamp_spec(p.vel.y + ay, VEL_LIMIT as int);
    let px = clamp_spec(p.pos.x + vx, COORD_LIMIT as int);
    let py = clamp_spec(p.pos.y + vy, COORD_LIMIT as int);
    Particle {
        pos: Vec2 { x: px as i64, y: py as i64 },
        vel: Vec2 { x: vx as i64, y: vy as i64 },
        net_force: Vec2 { x: f.0 as i64, y: f.1 as i64 },
        ..p
    }
}

/// Advance one body by one tick: reset its force accumulator, drive the
/// index's force approximation, and apply semi-implicit Euler (velocity
/// first, then position), with each component clamped into its range.
pub fn calculate_new_position(particle: &mut Particle, qt: &QuadTree, cfg: &SimConfig)
    requires
        qt.wf(),
        qt.mass_valid(),
        qt.bodies().len() <= MAX_BODIES,
        cfg.valid(),
        old(particle).valid(),
    ensures
        *final(particle) == step_particle_spec(*old(particle), *qt, *cfg),
        final(particle).valid(),
{
    particle.net_force = Vec2 { x: 0, y: 0 };
    qt.calculate_force(particle, cfg);
    let ax: i128 = div_tz_i128(particle.net_force.x as i128, particle.mass as i128);
    let ay: i128 = div_tz_i128(particle.net_force.y as i128, particle.mass as i128);
    let vx: i64 = clamp_i128((particle.vel.x as i128) + ax, VEL_LIMIT);
    let vy: i64 = clamp_i128((particle.vel.y as i128) + ay, VEL_LIMIT);
    let px: i64 = clamp_i128((particle.pos.x as i128) + (vx as i128), COORD_LIMIT);
    let py: i64 = clamp_i128((particle.pos.y as i128) + (vy as i128), COORD_LIMIT);
    particle.vel = Vec2 { x: vx, y: vy };
    particle.pos = Vec2 { x: px, y: py };
}

/// Advance every body of the collection by one tick against the same
/// settled index, in the collection's stable order.
pub fn step(particles: &mut Vec<Particle>, qt: &QuadTree, cfg: &SimConfig)
    requires
        qt.wf(),
        qt.mass_valid(),
        qt.bodies().len() <= MAX_BODIES,
        cfg.valid(),
        forall|i: int| 0 <= i < old(particles)@.len() ==> (#[trigger] old(particles)@[i]).valid(),
    ensures
        final(particles)@.len() == old(particles)@.len(),
        forall|i: int|
            0 <= i < old(particles)@.len() ==> final(particles)@[i] == step_particle_spec(
                #[trigger] old(particles)@[i],
                *qt,
                *cfg,
            ),
        forall|i: int|
            0 <= i < final(particles)@.len() ==> (#[trigger] final(particles)@[i]).valid(),
{
    let mut i: usize = 0;
    while i < particles.len()
        invariant
            0 <= i <= particles@.len(),
            particles@.len() == old(particles)@.len(),
            qt.wf(),
            qt.mass_valid(),
            qt.bodies().len() <= MAX_BODIES,
            cfg.valid(),
            forall|k: int|
                0 <= k < old(particles)@.len() ==> (#[trigger] old(particles)@[k]).valid(),
            forall|k: int| i <= k < particles@.len() ==> particles@[k] == old(particles)@[k],
            forall|k: int|
                0 <= k < i ==> particles@[k] == step_particle_spec(
                    #[trigger] old(particles)@[k],
                    *qt,
                    *cfg,
                ),
            forall|k: int| 0 <= k < particles@.len() ==> (#[trigger] particles@[k]).valid(),
        decreases particles@.len() - i,
    {
        let mut p = particles[i];
        calculate_new_position(&mut p, qt, cfg);
        particles.set(i, p);
        i = i + 1;
    }
}

/// The direct all-pairs force on a probe at `p_pos` of mass `p_mass` from
/// every body of the collection in order: the reference that the quadtree
/// approximation reproduces exactly when the opening-angle threshold is
/// zero.
pub fn direct_force(bodies: &Vec<Particle>, p_pos: Vec2, p_mass: i64, cfg: &SimConfig) -> (f:
    Vec2)
    requires
        cfg.valid(),
        -COORD_LIMIT <= p_pos.x <= COORD_LIMIT,
        -COORD_LIMIT <= p_pos.y <= COORD_LIMIT,
        0 <= p_mass <= MASS_LIMIT,
        forall|i: int| 0 <= i < bodies@.len() ==> (#[trigger] bodies@[i]).valid(),
    ensures
        (f.x as int, f.y as int) == seq_force(bodies@, p_pos, p_mass as int, *cfg, 0, 0),
{
    let probe = Particle {
        pos: p_pos,
        vel: Vec2 { x: 0, y: 0 },
        net_force: Vec2 { x: 0, y: 0 },
        mass: p_mass,
        radius: 0,
        index: 0,
    };
    let mut acc = Vec2 { x: 0, y: 0 };
    let mut i: usize = 0;
    let ghost n = bodies@.len() as int;
    proof {
        assert(bodies@.subrange(0, n) =~= bodies@);
    }
    while i < bodies.len()
        invariant
            0 <= i <= n,
            n == bodies@.len(),
            cfg.valid(),
            probe.pos == p_pos,
            probe.mass == p_mass,
            -COORD_LIMIT <= p_pos.x <= COORD_LIMIT,
            -COORD_LIMIT <= p_pos.y <= COORD_LIMIT,
            0 <= p_mass <= MASS_LIMIT,
            forall|k: int| 0 <= k < bodies@.len() ==> (#[trigger] bodies@[k]).valid(),
            -FORCE_LIMIT <= acc.x <= FORCE_LIMIT,
            -FORCE_LIMIT <= acc.y <= FORCE_LIMIT,
            seq_force(bodies@, p_pos, p_mass as int, *cfg, 0, 0) == seq_force(
                bodies@.subrange(i as int, n),
                p_pos,
                p_mass as int,
                *cfg,
                acc.x as int,
                acc.y as int,
            ),
        decreases n - i,
    {
        let b = bodies[i];
        let ghost s_i = bodies@.subrange(i as int, n);
        proof {
            assert(s_i[0] == bodies@[i as int]);
            assert(s_i.drop_first() =~= bodies@.subrange(i as int + 1, n));
        }
        if !(b.pos.x == p_pos.x && b.pos.y == p_pos.y) {
            let df = probe.get_attraction_force(&b, cfg);
            let nx = clamp_i128((acc.x as i128) + (df.x as i128), FORCE_LIMIT);
            let ny = clamp_i128((acc.y as i128) + (df.y as i128), FORCE_LIMIT);
            acc = Vec2 { x: nx, y: ny };
        }
        i = i + 1;
    }
    proof {
        assert(bodies@.subrange(n, n) =~= Seq::<Particle>::empty());
    }
    acc
}

/// A single body under its own gravity: against an index that holds
/// nothing but bodies at its own position, the tick leaves the net force at
/// zero, and a body at rest does not move.
pub proof fn lemma_single_body_at_rest(p: Particle, t: QuadTree, cfg: SimConfig)
    requires
        t.wf(),
        t.mass_valid(),
        cfg.valid(),
        p.valid(),
        p.vel.x == 0 && p.vel.y == 0,
        forall|i: int| 0 <= i < t.bodies().len() ==> (#[trigger] t.bodies()[i]).pos == p.pos,
    ensures
        step_particle_spec(p, t, cfg).net_force == (Vec2 { x: 0i64, y: 0i64 }),
        step_particle_spec(p, t, cfg).vel == p.vel,
        step_particle_spec(p, t, cfg).pos == p.pos,
{
    crate::quadtree::lemma_coincident_no_force(t, p.pos, p.mass as int, cfg, 0, 0);
    assert(div_tz(0, p.mass as int) == 0) by {
        vstd::arithmetic::div_mod::lemma_div_of0(p.mass as int);
    }
}

/// Floor of the Euclidean norm of a velocity.
pub open spec fn speed_of(v: Vec2) -> int {
    sqrt_floor(v.x * v.x + v.y * v.y)
}

/// The mass-weighted average of two velocities, each component truncated
/// toward zero: the momentum-merge of the collision resolver.
pub open spec fn merge_velocity(v1: Vec2, m1: int, v2: Vec2, m2: int) -> (int, int)
    recommends
        m1 + m2 >= 1,
{
    (div_tz(m1 * v1.x + m2 * v2.x, m1 + m2), div_tz(m1 * v1.y + m2 * v2.y, m1 + m2))
}

/// The collision test: a candidate at a different position whose summed
/// radii plus summed speeds exceed the center distance is closing fast
/// enough to collide this tick.
pub open spec fn colliding(p: Particle, c: Particle) -> bool {
    &&& c.pos != p.pos
    &&& p.radius + c.radius + speed_of(p.vel) + speed_of(c.vel) > sqrt_floor(dist2(p.pos, c.pos))
}

/// The collision resolver's effect on one body: every colliding candidate
/// in turn replaces the body's velocity with the momentum-merge of the two,
/// so the last write wins; nothing but the velocity changes.
pub open spec fn resolve_one(p: Particle, cands: Seq<Particle>) -> Particle
    decreases cands.len(),
{
    if cands.len() == 0 {
        p
    } else {
        let c = cands[0];
        let p2 = if colliding(p, c) {
            let mv = merge_velocity(p.vel, p.mass as int, c.vel, c.mass as int);
            Particle { vel: Vec2 { x: mv.0 as i64, y: mv.1 as i64 }, ..p }
        } else {
            p
        };
        resolve_one(p2, cands.drop_first())
    }
}

/// The proximity disc of a body: twice its collision radius.
pub open spec fn proximity(p: Particle) -> Circle {
    Circle { center: p.pos, radius: (2 * p.radius) as i64 }
}

/// Momentum is conserved by the merge wherever the division is exact: the
/// merged velocity satisfies `m1*v1 + m2*v2 == (m1+m2)*v'` on each axis.
pub proof fn lemma_momentum_conserved(v1: Vec2, m1: int, v2: Vec2, m2: int)
    requires
        m1 >= 1,
        m2 >= 1,
        (m1 * v1.x + m2 * v2.x) % (m1 + m2) == 0,
        (m1 * v1.y + m2 * v2.y) % (m1 + m2) == 0,
    ensures
        m1 * v1.x + m2 * v2.x == (m1 + m2) * merge_velocity(v1, m1, v2, m2).0,
        m1 * v1.y + m2 * v2.y == (m1 + m2) * merge_velocity(v1, m1, v2, m2).1,
{
    lemma_div_tz_of_multiple(m1 * v1.x + m2 * v2.x, m1 + m2);
    lemma_div_tz_of_multiple(m1 * v1.y + m2 * v2.y, m1 + m2);
}

/// Floor of the Euclidean norm of a velocity within range.
fn speed(v: Vec2) -> (r: i64)
    requires
        -VEL_LIMIT <= v.x <= VEL_LIMIT,
        -VEL_LIMIT <= v.y <= VEL_LIMIT,
    ensures
        r == speed_of(v),
        0 <= r <= 1_500_000_000_000,
{
    proof {
        lemma_square_bound(v.x as int);
        lemma_square_bound(v.y as int);
    }
    let d2: i128 = (v.x as i128) * (v.x as i128) + (v.y as i128) * (v.y as i128);
    let r: u64 = isqrt(d2 as u128);
    proof {
        lemma_sqrt_floor_is(r as int, d2 as int);
        assert(r as int <= 1_500_000_000_000) by (nonlinear_arith)
            requires
                is_sqrt_floor(r as int, d2 as int) && d2 <= 2_000_000_000_000_000_000_000_000,
        ;
    }
    r as i64
}

/// The momentum-merge of two velocities, exactly as `merge_velocity`.
fn merge_velocity_exec(v1: Vec2, m1: i64, v2: Vec2, m2: i64) -> (v: Vec2)
    requires
        1 <= m1 <= MASS_LIMIT,
        1 <= m2 <= MASS_LIMIT,
        -VEL_LIMIT <= v1.x <= VEL_LIMIT,
        -VEL_LIMIT <= v1.y <= VEL_LIMIT,
        -VEL_LIMIT <= v2.x <= VEL_LIMIT,
        -VEL_LIMIT <= v2.y <= VEL_LIMIT,
    ensures
        v.x as int == merge_velocity(v1, m1 as int, v2, m2 as int).0,
        v.y as int == merge_velocity(v1, m1 as int, v2, m2 as int).1,
        -VEL_LIMIT <= v.x <= VEL_LIMIT,
        -VEL_LIMIT <= v.y <= VEL_LIMIT,
{
    let t1x = momentum_term(m1, v1.x);
    let t2x = momentum_term(m2, v2.x);
    let t1y = momentum_term(m1, v1.y);
    let t2y = momentum_term(m2, v2.y);
    let den: i64 = m1 + m2;
    proof {
        lemma_div_tz_bound((t1x + t2x) as int, den as int, VEL_LIMIT as int);
        lemma_div_tz_bound((t1y + t2y) as int, den as int, VEL_LIMIT as int);
    }
    let mvx: i128 = div_tz_i128(t1x + t2x, den as i128);
    let mvy: i128 = div_tz_i128(t1y + t2y, den as i128);
    Vec2 { x: mvx as i64, y: mvy as i64 }
}

/// One momentum product `m * v`, bounded by `m * VEL_LIMIT` on both sides.
fn momentum_term(m: i64, v: i64) -> (r: i128)
    requires
        1 <= m <= MASS_LIMIT,
        -VEL_LIMIT <= v <= VEL_LIMIT,
    ensures
        r as int == m * v,
        -(m * (VEL_LIMIT as int)) <= r as int <= m * (VEL_LIMIT as int),
        -1_000_000_000_000_000_000 <= r <= 1_000_000_000_000_000_000,
{
    assert(-(m * (VEL_LIMIT as int)) <= (m as int) * (v as int) <= m * (VEL_LIMIT as int)
        && -1_000_000_000_000_000_000 <= (m as int) * (v as int) <= 1_000_000_000_000_000_000)
        by (nonlinear_arith)
        requires
            1 <= m <= 1_000_000 && -1_000_000_000_000 <= v <= 1_000_000_000_000 && VEL_LIMIT
                == 1_000_000_000_000i64,
    ;
    (m as i128) * (v as i128)
}

/// Resolve proximity collisions for every body: query the index for
/// candidates within twice the body's radius of its position, and for each
/// closing candidate replace the body's velocity with the momentum-merge of
/// the pair. Bodies are never moved or removed here, and each body is
/// resolved against the index's snapshot of the tick.
pub fn resolve_collisions(particles: &mut Vec<Particle>, qt: &QuadTree)
    requires
        qt.wf(),
        forall|i: int| 0 <= i < old(particles)@.len() ==> (#[trigger] old(particles)@[i]).valid(),
    ensures
        final(particles)@.len() == old(particles)@.len(),
        forall|i: int|
            0 <= i < old(particles)@.len() ==> final(particles)@[i] == resolve_one(
                #[trigger] old(particles)@[i],
                qt.bodies().filter(in_circle(proximity(old(particles)@[i]))),
            ),
        forall|i: int|
            0 <= i < final(particles)@.len() ==> (#[trigger] final(particles)@[i]).valid(),
{
    let mut i: usize = 0;
    while i < particles.len()
        invariant
            0 <= i <= particles@.len(),
            particles@.len() == old(particles)@.len(),
            qt.wf(),
            forall|k: int|
                0 <= k < old(particles)@.len() ==> (#[trigger] old(particles)@[k]).valid(),
            forall|k: int| i <= k < particles@.len() ==> particles@[k] == old(particles)@[k],
            forall|k: int|
                0 <= k < i ==> particles@[k] == resolve_one(
                    #[trigger] old(particles)@[k],
                    qt.bodies().filter(in_circle(proximity(old(particles)@[k]))),
                ),
            forall|k: int| 0 <= k < particles@.len() ==> (#[trigger] particles@[k]).valid(),
        decreases particles@.len() - i,
    {
        let p0 = particles[i];
        let circle = Circle::new(p0.pos, 2 * p0.radius);
        proof {
            assert(circle == proximity(p0));
        }
        let cands = qt.query_circle(&circle);
        let ghost cseq = cands@;
        let ghost n = cseq.len() as int;
        let mut p = p0;
        let mut j: usize = 0;
        proof {
            assert(cseq.subrange(0, n) =~= cseq);
        }
        while j < cands.len()
            invariant
                0 <= j <= n,
                n == cands@.len(),
                cands@ == cseq,
                p.valid(),
                p.pos == p0.pos,
                p.mass == p0.mass,
                p.radius == p0.radius,
                p0.valid(),
                forall|k: int| 0 <= k < cseq.len() ==> (#[trigger] cseq[k]).valid(),
                resolve_one(p0, cseq) == resolve_one(p, cseq.subrange(j as int, n)),
            decreases n - j,
        {
            let c = cands[j];
            let ghost s_j = cseq.subrange(j as int, n);
            proof {
                assert(s_j[0] == cseq[j as int]);
                assert(s_j.drop_first() =~= cseq.subrange(j as int + 1, n));
            }
            if !(c.pos.x == p.pos.x && c.pos.y == p.pos.y) {
                let dist = p.get_distance_to(&c.pos);
                let sp = speed(p.vel);
                let sc = speed(c.vel);
                let closing: i64 = p.radius + c.radius + sp + sc;
                if closing > dist {
                    let mv = merge_velocity_exec(p.vel, p.mass, c.vel, c.mass);
                    p.vel = mv;
                }
            }
            j = j + 1;
        }
        proof {
            assert(cseq.subrange(n, n) =~= Seq::<Particle>::empty());
        }
        particles.set(i, p);
        i = i + 1;
    }
}

/// Relies on rand::thread_rng and rand::Rng::gen_range: a draw from a
/// non-empty inclusive integer range lies within that range.
#[verifier::external_body]
fn sample_range(lo: i64, hi: i64) -> (r: i64)
    requires
        lo <= hi,
    ensures
        lo <= r <= hi,
{
    rand::thread_rng().gen_range(lo..=hi)
}

/// Draw a point of the annulus between `ORBIT_MIN_RADIUS` and `radius`
/// around the origin: rejection sampling on the enclosing square, with a
/// point on the outer rim as the fallback after a bounded number of draws.
fn sample_annulus(radius: i64) -> (r: (i64, i64))
    requires
        ORBIT_MIN_RADIUS <= radius <= GALAXY_RADIUS_LIMIT,
    ensures
        ORBIT_MIN_RADIUS * ORBIT_MIN_RADIUS <= r.0 * r.0 + r.1 * r.1 <= radius * radius,
        -radius <= r.0 <= radius,
        -radius <= r.1 <= radius,
{
    proof {
        lemma_square_bound(radius as int);
        assert(ORBIT_MIN_RADIUS * ORBIT_MIN_RADIUS <= radius * radius) by (nonlinear_arith)
            requires
                10 <= radius && ORBIT_MIN_RADIUS == 10i64,
        ;
    }
    let rim2: i64 = radius * radius;
    let mut tries: u32 = 0;
    while tries < 16384
        invariant
            ORBIT_MIN_RADIUS <= radius <= GALAXY_RADIUS_LIMIT,
            rim2 == radius * radius,
            ORBIT_MIN_RADIUS * ORBIT_MIN_RADIUS <= rim2,
        decreases 16384 - tries,
    {
        let dx = sample_range(-radius, radius);
        let dy = sample_range(-radius, radius);
        proof {
            lemma_square_bound(dx as int);
            lemma_square_bound(dy as int);
        }
        let d2: i128 = (dx as i128) * (dx as i128) + (dy as i128) * (dy as i128);
        if 100 <= d2 && d2 <= rim2 as i128 {
            return (dx, dy);
        }
        tries = tries + 1;
    }
    (radius, 0)
}

/// The quasi-stable circular-orbit velocity of a body displaced by
/// `(dx, dy)` from a dominant central mass: tangential to the radius vector
/// (rotating it a quarter turn), with magnitude close to
/// `sqrt(G * central_mass / distance)`. Built as an exact integer multiple
/// of the perpendicular `(dy, -dx)`, so the tangential direction is exact
/// and the magnitude absorbs all rounding.
pub open spec fn orbital_velocity(dx: int, dy: int, central_mass: int, cfg: SimConfig) -> (
    int,
    int,
) {
    let d2 = dx * dx + dy * dy;
    let d = sqrt_floor(d2);
    if d == 0 {
        (0, 0)
    } else {
        let s2 = (cfg.gravity_num * central_mass) / (cfg.gravity_den * d);
        let speed = sqrt_floor(s2);
        let k = speed / d;
        (dy * k, -(dx * k))
    }
}

/// The seeded velocity is perpendicular to the radius vector from the
/// galactic center, exactly: their dot product is zero.
pub proof fn lemma_orbital_velocity_perpendicular(
    dx: int,
    dy: int,
    central_mass: int,
    cfg: SimConfig,
)
    ensures
        orbital_velocity(dx, dy, central_mass, cfg).0 * dx + orbital_velocity(
            dx,
            dy,
            central_mass,
            cfg,
        ).1 * dy == 0,
{
    let d2 = dx * dx + dy * dy;
    let d = sqrt_floor(d2);
    if d == 0 {
        assert(orbital_velocity(dx, dy, central_mass, cfg) == (0int, 0int));
    } else {
        let s2 = (cfg.gravity_num * central_mass) / (cfg.gravity_den * d);
        let speed = sqrt_floor(s2);
        let k = speed / d;
        assert(orbital_velocity(dx, dy, central_mass, cfg) == (dy * k, -(dx * k)));
        assert((dy * k) * dx + (-(dx * k)) * dy == 0) by (nonlinear_arith);
    }
}

/// Compute `orbital_velocity` on machine integers.
fn orbital_velocity_exec(dx: i64, dy: i64, central_mass: i64, cfg: &SimConfig) -> (v: Vec2)
    requires
        cfg.valid(),
        1 <= central_mass <= MASS_LIMIT,
        -GALAXY_RADIUS_LIMIT <= dx <= GALAXY_RADIUS_LIMIT,
        -GALAXY_RADIUS_LIMIT <= dy <= GALAXY_RADIUS_LIMIT,
        dx * dx + dy * dy >= 1,
    ensures
        v.x as int == orbital_velocity(dx as int, dy as int, central_mass as int, *cfg).0,
        v.y as int == orbital_velocity(dx as int, dy as int, central_mass as int, *cfg).1,
        -VEL_LIMIT <= v.x <= VEL_LIMIT,
        -VEL_LIMIT <= v.y <= VEL_LIMIT,
{
    proof {
        lemma_square_bound(dx as int);
        lemma_square_bound(dy as int);
    }
    let d2: i128 = (dx as i128) * (dx as i128) + (dy as i128) * (dy as i128);
    let d: u64 = isqrt(d2 as u128);
    proof {
        lemma_sqrt_floor_is(d as int, d2 as int);
        assert(1 <= d as int && d as int <= 5_000_000) by (nonlinear_arith)
            requires
                is_sqrt_floor(d as int, d2 as int) && 1 <= d2 <= 18_000_000_000_000,
        ;
        assert(0 <= (cfg.gravity_num as int) * (central_mass as int) <= 1_000_000_000_000)
            by (nonlinear_arith)
            requires
                0 <= cfg.gravity_num <= 1_000_000 && 1 <= central_mass <= 1_000_000,
        ;
        assert(1 <= (cfg.gravity_den as int) * (d as int) <= 5_000_000_000_000)
            by (nonlinear_arith)
            requires
                1 <= cfg.gravity_den <= 1_000_000 && 1 <= d as int <= 5_000_000,
        ;
    }
    let num: u64 = (cfg.gravity_num as u64) * central_mass as u64;
    let den: u64 = (cfg.gravity_den as u64) * d;
    let s2: u64 = num / den;
    let speed: u64 = isqrt(s2 as u128);
    proof {
        lemma_sqrt_floor_is(speed as int, s2 as int);
        assert(speed as int <= 1_000_000) by (nonlinear_arith)
            requires
                is_sqrt_floor(speed as int, s2 as int) && s2 <= 1_000_000_000_000,
        ;
    }
    let k: u64 = speed / d;
    proof {
        vstd::arithmetic::div_mod::lemma_div_nonincreasing(speed as int, d as int);
        assert(-1_000_000_000_000 <= (dy as int) * (k as int) <= 1_000_000_000_000
            && -1_000_000_000_000 <= (dx as int) * (k as int) <= 1_000_000_000_000)
            by (nonlinear_arith)
            requires
                -1_000_000 <= dx <= 1_000_000 && -1_000_000 <= dy <= 1_000_000 && 0 <= k
                    <= 1_000_000,
        ;
    }
    let vx: i64 = dy * (k as i64);
    let vy: i64 = -(dx * (k as i64));
    Vec2 { x: vx, y: vy }
}

/// What holds of every seeded orbiting body: the configured mass, a zeroed
/// accumulator, a point-like radius, a distance from the galactic center
/// inside `[ORBIT_MIN_RADIUS, radius]`, and the tangential orbital velocity
/// for its own displacement.
pub open spec fn orbiter_ok(
    b: Particle,
    center: Vec2,
    radius: int,
    central_mass: int,
    body_mass: int,
    cfg: SimConfig,
) -> bool {
    let dx = b.pos.x - center.x;
    let dy = b.pos.y - center.y;
    &&& b.valid()
    &&& b.mass == body_mass
    &&& b.radius == 0
    &&& b.net_force.x == 0 && b.net_force.y == 0
    &&& ORBIT_MIN_RADIUS * ORBIT_MIN_RADIUS <= dx * dx + dy * dy
    &&& dx * dx + dy * dy <= radius * radius
    &&& b.vel.x as int == orbital_velocity(dx, dy, central_mass, cfg).0
    &&& b.vel.y as int == orbital_velocity(dx, dy, central_mass, cfg).1
}

/// Seed a galaxy: `particles_amount` bodies at uniform draws over the
/// annulus between `ORBIT_MIN_RADIUS` and `radius` around `center`, each
/// with the tangential circular-orbit velocity for its distance, followed
/// by one dominant central body at `center` with the caller's initial
/// velocity. Indices continue the population: each new body's index is its
/// position in the collection.
pub fn create_galaxy(
    particles: &mut Vec<Particle>,
    center: Vec2,
    initial_vel: Vec2,
    radius: i64,
    sun_mass: i64,
    particle_mass: i64,
    particles_amount: usize,
    cfg: &SimConfig,
)
    requires
        cfg.valid(),
        ORBIT_MIN_RADIUS <= radius <= GALAXY_RADIUS_LIMIT,
        -COORD_LIMIT <= center.x - radius,
        center.x + radius <= COORD_LIMIT,
        -COORD_LIMIT <= center.y - radius,
        center.y + radius <= COORD_LIMIT,
        -VEL_LIMIT <= initial_vel.x <= VEL_LIMIT,
        -VEL_LIMIT <= initial_vel.y <= VEL_LIMIT,
        1 <= sun_mass <= MASS_LIMIT,
        1 <= particle_mass <= MASS_LIMIT,
        old(particles)@.len() + particles_amount + 1 <= MAX_BODIES,
    ensures
        final(particles)@.len() == old(particles)@.len() + particles_amount + 1,
        forall|k: int| 0 <= k < old(particles)@.len() ==> final(particles)@[k] == old(particles)@[k],
        forall|j: int|
            0 <= j < particles_amount ==> orbiter_ok(
                #[trigger] final(particles)@[old(particles)@.len() + j],
                center,
                radius as int,
                sun_mass as int,
                particle_mass as int,
                *cfg,
            ) && final(particles)@[old(particles)@.len() + j].index == old(particles)@.len() + j,
        final(particles)@.last() == (Particle {
            pos: center,
            vel: initial_vel,
            net_force: Vec2 { x: 0, y: 0 },
            mass: sun_mass,
            radius: 1,
            index: (old(particles)@.len() + particles_amount) as usize,
        }),
{
    let base_len = particles.len();
    let mut i: usize = 0;
    while i < particles_amount
        invariant
            0 <= i <= particles_amount,
            particles@.len() == base_len + i,
            base_len == old(particles)@.len(),
            base_len + particles_amount + 1 <= MAX_BODIES,
            cfg.valid(),
            ORBIT_MIN_RADIUS <= radius <= GALAXY_RADIUS_LIMIT,
            -COORD_LIMIT <= center.x - radius,
            center.x + radius <= COORD_LIMIT,
            -COORD_LIMIT <= center.y - radius,
            center.y + radius <= COORD_LIMIT,
            1 <= sun_mass <= MASS_LIMIT,
            1 <= particle_mass <= MASS_LIMIT,
            forall|k: int| 0 <= k < base_len ==> particles@[k] == old(particles)@[k],
            forall|j: int|
                0 <= j < i ==> orbiter_ok(
                    #[trigger] particles@[base_len + j],
                    center,
                    radius as int,
                    sun_mass as int,
                    particle_mass as int,
                    *cfg,
                ) && particles@[base_len + j].index == base_len + j,
        decreases particles_amount - i,
    {
        let (dx, dy) = sample_annulus(radius);
        proof {
            assert(dx * dx + dy * dy >= 1) by (nonlinear_arith)
                requires
                    dx * dx + dy * dy >= ORBIT_MIN_RADIUS * ORBIT_MIN_RADIUS && ORBIT_MIN_RADIUS
                        == 10i64,
            ;
        }
        let v = orbital_velocity_exec(dx, dy, sun_mass, cfg);
        let pos = Vec2 { x: center.x + dx, y: center.y + dy };
        let idx = particles.len();
        let b = Particle::new(pos, v, particle_mass, 0, idx);
        particles.push(b);
        i = i + 1;
    }
    let sun_idx = particles.len();
    let sun = Particle::new(center, initial_vel, sun_mass, 1, sun_idx);
    particles.push(sun);
}

} // verus!
