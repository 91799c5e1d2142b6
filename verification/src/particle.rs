//! The physical point-mass entity: position, velocity, per-tick force
//! accumulator, mass, collision radius and a stable identity index, plus the
//! pairwise gravitational attraction law.

use vstd::prelude::*;

use crate::config::{AGG_MASS_LIMIT, COORD_LIMIT, FORCE_LIMIT, MASS_LIMIT, RADIUS_LIMIT,
    SimConfig, VEL_LIMIT};
use crate::vec2::{clamp_spec, clamp_i128, div_tz, is_sqrt_floor, isqrt, lemma_sqrt_floor_exists,
    lemma_sqrt_floor_is, sqrt_floor, Vec2};

verus! {

#[derive(Clone, Copy, PartialEq, Eq, Structural, Debug)]
pub struct Particle {
    pub pos: Vec2,
    pub vel: Vec2,
    /// Transient per-tick accumulator: reset at the start of each tick,
    /// written during force approximation, consumed by the integrator.
    pub net_force: Vec2,
    pub mass: i64,
    pub radius: i64,
    /// Stable identity assigned at creation; never changes afterwards.
    pub index: usize,
}

impl Particle {
    /// Every field within the fixed-point ranges the simulation arithmetic
    /// is proved against; in particular the mass is strictly positive, since
    /// the integrator divides by it.
    pub open spec fn valid(self) -> bool {
        &&& -COORD_LIMIT <= self.pos.x <= COORD_LIMIT
        &&& -COORD_LIMIT <= self.pos.y <= COORD_LIMIT
        &&& -VEL_LIMIT <= self.vel.x <= VEL_LIMIT
        &&& -VEL_LIMIT <= self.vel.y <= VEL_LIMIT
        &&& -FORCE_LIMIT <= self.net_force.x <= FORCE_LIMIT
        &&& -FORCE_LIMIT <= self.net_force.y <= FORCE_LIMIT
        &&& 1 <= self.mass <= MASS_LIMIT
        &&& 0 <= self.radius <= RADIUS_LIMIT
    }

    /// Create a body with a zeroed force accumulator. Non-positive masses
    /// are rejected here, at creation time, rather than surfacing later as a
    /// division fault in the integrator.
    pub fn new(pos: Vec2, vel: Vec2, mass: i64, radius: i64, index: usize) -> (p: Particle)
        requires
            -COORD_LIMIT <= pos.x <= COORD_LIMIT,
            -COORD_LIMIT <= pos.y <= COORD_LIMIT,
            -VEL_LIMIT <= vel.x <= VEL_LIMIT,
            -VEL_LIMIT <= vel.y <= VEL_LIMIT,
            1 <= mass <= MASS_LIMIT,
            0 <= radius <= RADIUS_LIMIT,
        ensures
            p == (Particle { pos, vel, net_force: Vec2 { x: 0, y: 0 }, mass, radius, index }),
            p.valid(),
    {
        Particle { pos, vel, net_force: Vec2 { x: 0, y: 0 }, mass, radius, index }
    }

    /// Floor of the Euclidean distance from this body to `object`.
    pub fn get_distance_to(&self, object: &Vec2) -> (r: i64)
        requires
            -COORD_LIMIT <= self.pos.x <= COORD_LIMIT,
            -COORD_LIMIT <= self.pos.y <= COORD_LIMIT,
            -COORD_LIMIT <= object.x <= COORD_LIMIT,
            -COORD_LIMIT <= object.y <= COORD_LIMIT,
        ensures
            r == sqrt_floor(dist2(self.pos, *object)),
            0 <= r <= 3_000_000_000_000,
    {
        let dx: i64 = object.x - self.pos.x;
        let dy: i64 = object.y - self.pos.y;
        proof {
            lemma_square_bound(dx as int);
            lemma_square_bound(dy as int);
        }
        let d2: i128 = (dx as i128) * (dx as i128) + (dy as i128) * (dy as i128);
        let d: u64 = isqrt(d2 as u128);
        proof {
            lemma_sqrt_floor_is(d as int, d2 as int);
            assert(d as int <= 3_000_000_000_000) by (nonlinear_arith)
                requires
                    is_sqrt_floor(d as int, d2 as int) && d2 <= 8_000_000_000_000_000_000_000_000,
            ;
        }
        d as i64
    }

    /// The gravitational pull that `another_particle` exerts on this body:
    /// magnitude `G * m1 * m2 / (d^2 + softening^2)`, directed from this body
    /// toward the other, each component truncated toward zero and clamped to
    /// the accumulator range. Exact coincidence yields no force; callers
    /// guard it as "same body, skip".
    pub fn get_attraction_force(&self, another_particle: &Particle, cfg: &SimConfig) -> (f: Vec2)
        requires
            cfg.valid(),
            -COORD_LIMIT <= self.pos.x <= COORD_LIMIT,
            -COORD_LIMIT <= self.pos.y <= COORD_LIMIT,
            -COORD_LIMIT <= another_particle.pos.x <= COORD_LIMIT,
            -COORD_LIMIT <= another_particle.pos.y <= COORD_LIMIT,
            0 <= self.mass <= MASS_LIMIT,
            0 <= another_particle.mass <= AGG_MASS_LIMIT,
        ensures
            (f.x as int, f.y as int) == attraction_spec(
                self.pos,
                self.mass as int,
                another_particle.pos,
                another_particle.mass as int,
                *cfg,
            ),
            -FORCE_LIMIT <= f.x <= FORCE_LIMIT,
            -FORCE_LIMIT <= f.y <= FORCE_LIMIT,
    {
        let dx: i64 = another_particle.pos.x - self.pos.x;
        let dy: i64 = another_particle.pos.y - self.pos.y;
        proof {
            lemma_square_bound(dx as int);
            lemma_square_bound(dy as int);
        }
        let d2: i128 = (dx as i128) * (dx as i128) + (dy as i128) * (dy as i128);
        let d: u64 = isqrt(d2 as u128);
        proof {
            lemma_sqrt_floor_is(d as int, d2 as int);
        }
        if d == 0 {
            return Vec2 { x: 0, y: 0 };
        }
        assert(d as int <= 3_000_000_000_000) by (nonlinear_arith)
            requires
                is_sqrt_floor(d as int, d2 as int) && d2 <= 8_000_000_000_000_000_000_000_000,
        ;
        proof {
            lemma_square_bound(cfg.softening as int);
        }
        let s2: i128 = (cfg.softening as i128) * (cfg.softening as i128);
        assert(1 <= d2 + s2) by (nonlinear_arith)
            requires
                is_sqrt_floor(d as int, d2 as int) && 1 <= d as int && 0 <= s2,
        ;
        assert(1 <= (d as int) * ((d2 + s2) as int)
            <= 40_000_000_000_000_000_000_000_000_000_000_000_000) by (nonlinear_arith)
            requires
                1 <= d as int <= 3_000_000_000_000 && 1 <= d2 + s2
                    <= 12_000_000_000_000_000_000_000_000,
        ;
        let denom: i128 = (d as i128) * (d2 + s2);
        assert(0 <= (cfg.gravity_num as int) * (self.mass as int) <= 1_000_000_000_000)
            by (nonlinear_arith)
            requires
                0 <= cfg.gravity_num <= 1_000_000 && 0 <= self.mass <= 1_000_000,
        ;
        let gm: i128 = (cfg.gravity_num as i128) * (self.mass as i128);
        assert(0 <= (gm as int) * (another_particle.mass as int)
            <= 1_000_000_000_000_000_000_000_000) by (nonlinear_arith)
            requires
                0 <= gm <= 1_000_000_000_000 && 0 <= another_particle.mass <= 1_000_000_000_000,
        ;
        let num: i128 = gm * (another_particle.mass as i128);
        assert(num as int == (cfg.gravity_num as int) * (self.mass as int)
            * (another_particle.mass as int));
        let fx: i64 = force_component(num, dx, denom, cfg.gravity_den);
        let fy: i64 = force_component(num, dy, denom, cfg.gravity_den);
        Vec2 { x: fx, y: fy }
    }
}

/// Squared Euclidean distance between two positions.
pub open spec fn dist2(a: Vec2, b: Vec2) -> int {
    (b.x - a.x) * (b.x - a.x) + (b.y - a.y) * (b.y - a.y)
}

/// The square of an axis separation between two in-range coordinates is
/// non-negative and bounded.
pub proof fn lemma_square_bound(v: int)
    ensures
        0 <= v * v,
        -2_000_000_000_000 <= v <= 2_000_000_000_000 ==> v * v
            <= 4_000_000_000_000_000_000_000_000,
        -10_000_000_000_000 <= v <= 10_000_000_000_000 ==> v * v
            <= 100_000_000_000_000_000_000_000_000,
        -3_000_000 <= v <= 3_000_000 ==> v * v <= 9_000_000_000_000,
        -1_000_000_000_000 <= v <= 1_000_000_000_000 ==> v * v
            <= 1_000_000_000_000_000_000_000_000,
{
    assert(0 <= v * v) by (nonlinear_arith);
    if -2_000_000_000_000 <= v <= 2_000_000_000_000 {
        assert(v * v <= 4_000_000_000_000_000_000_000_000) by (nonlinear_arith)
            requires
                -2_000_000_000_000 <= v <= 2_000_000_000_000,
        ;
    }
    if -10_000_000_000_000 <= v <= 10_000_000_000_000 {
        assert(v * v <= 100_000_000_000_000_000_000_000_000) by (nonlinear_arith)
            requires
                -10_000_000_000_000 <= v <= 10_000_000_000_000,
        ;
    }
    if -3_000_000 <= v <= 3_000_000 {
        assert(v * v <= 9_000_000_000_000) by (nonlinear_arith)
            requires
                -3_000_000 <= v <= 3_000_000,
        ;
    }
    if -1_000_000_000_000 <= v <= 1_000_000_000_000 {
        assert(v * v <= 1_000_000_000_000_000_000_000_000) by (nonlinear_arith)
            requires
                -1_000_000_000_000 <= v <= 1_000_000_000_000,
        ;
    }
}

/// One axis of the attraction law: `num * delta / denom / den2`, truncated
/// toward zero and clamped to the accumulator range.
pub open spec fn force_component_spec(num: int, delta: int, denom: int, den2: int) -> int {
    clamp_spec(div_tz(div_tz(num * delta, denom), den2), FORCE_LIMIT as int)
}

/// The pairwise gravitational attraction on a body at `p_pos` of mass
/// `p_mass` from a (possibly aggregate) body at `q_pos` of mass `q_mass`.
/// The direction runs from the affected body toward the attractor; the
/// magnitude is `G * p_mass * q_mass / (d^2 + softening^2)`. Bodies at the
/// exact same position exert no force on each other.
pub open spec fn attraction_spec(
    p_pos: Vec2,
    p_mass: int,
    q_pos: Vec2,
    q_mass: int,
    cfg: SimConfig,
) -> (int, int) {
    let dx = q_pos.x - p_pos.x;
    let dy = q_pos.y - p_pos.y;
    let d2 = dist2(p_pos, q_pos);
    let d = sqrt_floor(d2);
    if d == 0 {
        (0, 0)
    } else {
        let denom = d * (d2 + cfg.softening * cfg.softening);
        let num = cfg.gravity_num * p_mass * q_mass;
        (
            force_component_spec(num, dx, denom, cfg.gravity_den as int),
            force_component_spec(num, dy, denom, cfg.gravity_den as int),
        )
    }
}

/// Compute one force component from the non-negative numerator `num`, the
/// signed axis separation `delta` and the positive divisors.
fn force_component(num: i128, delta: i64, denom: i128, den2: i64) -> (r: i64)
    requires
        0 <= num <= 1_000_000_000_000_000_000_000_000,
        -2_000_000_000_000 <= delta <= 2_000_000_000_000,
        1 <= denom,
        1 <= den2,
    ensures
        r as int == force_component_spec(num as int, delta as int, denom as int, den2 as int),
        -FORCE_LIMIT <= r <= FORCE_LIMIT,
{
    let adelta: u64 = if delta >= 0 {
        delta as u64
    } else {
        (-delta) as u64
    };
    assert((num as int) * (adelta as int) <= 2_000_000_000_000_000_000_000_000_000_000_000_000
        && 0 <= (num as int) * (adelta as int)) by (nonlinear_arith)
        requires
            0 <= num <= 1_000_000_000_000_000_000_000_000 && 0 <= adelta <= 2_000_000_000_000,
    ;
    let mag: u128 = (num as u128) * (adelta as u128);
    let q1: u128 = mag / (denom as u128);
    let q2: u128 = q1 / (den2 as u128);
    proof {
        assert(q2 as int == div_tz(div_tz(mag as int, denom as int), den2 as int));
        assert((num as int) * (delta as int) == if delta >= 0 {
            mag as int
        } else {
            -(mag as int)
        }) by (nonlinear_arith)
            requires
                mag == (num as int) * (adelta as int) && num >= 0 && adelta as int == (if delta
                    >= 0 {
                    delta as int
                } else {
                    -(delta as int)
                }),
        ;
    }
    if delta >= 0 || q2 == 0 {
        clamp_i128(q2 as i128, FORCE_LIMIT)
    } else {
        clamp_i128(-(q2 as i128), FORCE_LIMIT)
    }
}

/// Newton's third law, exactly: with the roles of the two bodies swapped,
/// each component of the pairwise attraction negates, so the two forces are
/// equal in magnitude and opposite in direction.
pub proof fn lemma_force_symmetry(a: Particle, b: Particle, cfg: SimConfig)
    requires
        cfg.valid(),
        a.valid(),
        b.valid(),
    ensures
        attraction_spec(a.pos, a.mass as int, b.pos, b.mass as int, cfg).0 == -attraction_spec(
            b.pos,
            b.mass as int,
            a.pos,
            a.mass as int,
            cfg,
        ).0,
        attraction_spec(a.pos, a.mass as int, b.pos, b.mass as int, cfg).1 == -attraction_spec(
            b.pos,
            b.mass as int,
            a.pos,
            a.mass as int,
            cfg,
        ).1,
{
    assert(dist2(a.pos, b.pos) == dist2(b.pos, a.pos)) by (nonlinear_arith);
    let d2 = dist2(a.pos, b.pos);
    lemma_square_bound(b.pos.x - a.pos.x);
    lemma_square_bound(b.pos.y - a.pos.y);
    lemma_sqrt_floor_exists(d2);
    let d = sqrt_floor(d2);
    if d != 0 {
        assert(cfg.gravity_num * a.mass * b.mass == cfg.gravity_num * b.mass * a.mass)
            by (nonlinear_arith);
        assert(cfg.gravity_num * a.mass * b.mass >= 0) by (nonlinear_arith)
            requires
                cfg.gravity_num >= 0 && a.mass >= 1 && b.mass >= 1,
        ;
        let num_ab = cfg.gravity_num * a.mass * b.mass;
        lemma_square_bound(cfg.softening as int);
        let denom = d * (d2 + cfg.softening * cfg.softening);
        assert(denom >= 1) by (nonlinear_arith)
            requires
                denom == d * (d2 + cfg.softening * cfg.softening) && d >= 1 && d * d <= d2
                    && cfg.softening * cfg.softening >= 0,
        ;
        lemma_force_component_antisym(num_ab, b.pos.x - a.pos.x, denom, cfg.gravity_den as int);
        lemma_force_component_antisym(num_ab, b.pos.y - a.pos.y, denom, cfg.gravity_den as int);
    }
}

/// Negating the axis separation negates the force component.
proof fn lemma_force_component_antisym(num: int, delta: int, denom: int, den2: int)
    requires
        num >= 0,
        denom >= 1,
        den2 >= 1,
    ensures
        force_component_spec(num, -delta, denom, den2) == -force_component_spec(
            num,
            delta,
            denom,
            den2,
        ),
{
    assert(num * -delta == -(num * delta)) by (nonlinear_arith);
    assert(num * delta >= 0 <==> num * -delta <= 0) by (nonlinear_arith)
        requires
            num >= 0,
    ;
}

} // verus!
