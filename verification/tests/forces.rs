use gravity::config::SimConfig;
use gravity::particle::Particle;
use gravity::utils::{create_quadtree, direct_force};
use gravity::rectangle::Rectangle;
use gravity::vec2::Vec2;

fn cfg_plain() -> SimConfig {
    SimConfig::new(100, 1, 0, 1, 2)
}

#[test]
fn attraction_has_the_exact_textbook_value() {
    let cfg = cfg_plain();
    let p = Particle::new(Vec2::new(0, 0), Vec2::new(0, 0), 2, 0, 0);
    let q = Particle::new(Vec2::new(3, 4), Vec2::new(0, 0), 10, 0, 1);
    // d = 5, magnitude = G*m1*m2/d^2 = 100*2*10/25 = 80, direction (3/5, 4/5)
    let f = p.get_attraction_force(&q, &cfg);
    assert_eq!(f.x, 48);
    assert_eq!(f.y, 64);
}

#[test]
fn attraction_of_coincident_bodies_is_zero() {
    let cfg = cfg_plain();
    let p = Particle::new(Vec2::new(7, 7), Vec2::new(0, 0), 2, 0, 0);
    let q = Particle::new(Vec2::new(7, 7), Vec2::new(0, 0), 10, 0, 1);
    let f = p.get_attraction_force(&q, &cfg);
    assert_eq!(f.x, 0);
    assert_eq!(f.y, 0);
}

#[test]
fn softening_weakens_the_attraction() {
    let soft = SimConfig::new(100, 1, 4, 1, 2);
    let p = Particle::new(Vec2::new(0, 0), Vec2::new(0, 0), 2, 0, 0);
    let q = Particle::new(Vec2::new(3, 4), Vec2::new(0, 0), 10, 0, 1);
    // denom becomes d*(d^2 + soft^2) = 5*(25+16) = 205: fx = 6000/205 = 29
    let f = p.get_attraction_force(&q, &soft);
    assert_eq!(f.x, 29);
    assert_eq!(f.y, 39);
}

#[test]
fn force_symmetry_between_two_bodies() {
    let cfg = cfg_plain();
    let a = Particle::new(Vec2::new(11, -7), Vec2::new(0, 0), 13, 0, 0);
    let b = Particle::new(Vec2::new(-170, 350), Vec2::new(0, 0), 900, 0, 1);
    let f_ab = a.get_attraction_force(&b, &cfg);
    let f_ba = b.get_attraction_force(&a, &cfg);
    assert_eq!(f_ab.x, -f_ba.x);
    assert_eq!(f_ab.y, -f_ba.y);
    assert!(f_ab.x != 0 || f_ab.y != 0);
}

fn grid_particles() -> Vec<Particle> {
    let mut particles = Vec::new();
    for i in 0..8i64 {
        for j in 0..8i64 {
            particles.push(Particle::new(
                Vec2::new(100 + 50 * i, 100 + 50 * j),
                Vec2::new(0, 0),
                1_000_000,
                0,
                (8 * i + j) as usize,
            ));
        }
    }
    particles
}

#[test]
fn zero_opening_angle_reproduces_the_direct_sum_exactly() {
    // With theta = 0 no subtree is ever far enough to be approximated, so
    // the quadtree traversal must equal the direct all-pairs pass exactly.
    let exact_cfg = SimConfig::new(1_000_000, 1, 0, 0, 2);
    let particles = grid_particles();
    let qt = create_quadtree(&particles, Rectangle::new(Vec2::new(0, 0), 1024, 1024));
    for probe_idx in [0usize, 27, 63] {
        let mut probe = particles[probe_idx];
        probe.net_force = Vec2::new(0, 0);
        qt.calculate_force(&mut probe, &exact_cfg);
        let direct = direct_force(&particles, probe.pos, probe.mass, &exact_cfg);
        assert_eq!(probe.net_force.x, direct.x);
        assert_eq!(probe.net_force.y, direct.y);
        assert!(direct.x != 0 || direct.y != 0);
    }
}

#[test]
fn half_opening_angle_stays_within_five_percent_of_the_direct_sum() {
    let approx_cfg = SimConfig::new(1_000_000, 1, 0, 1, 2);
    let exact_cfg = SimConfig::new(1_000_000, 1, 0, 0, 2);
    let particles = grid_particles();
    assert!(particles.len() >= 50);
    let qt = create_quadtree(&particles, Rectangle::new(Vec2::new(0, 0), 1024, 1024));
    for probe_idx in [0usize, 7, 56] {
        let mut probe = particles[probe_idx];
        probe.net_force = Vec2::new(0, 0);
        qt.calculate_force(&mut probe, &approx_cfg);
        let direct = direct_force(&particles, probe.pos, probe.mass, &exact_cfg);
        let ex = probe.net_force.x as i128 - direct.x as i128;
        let ey = probe.net_force.y as i128 - direct.y as i128;
        let err2 = ex * ex + ey * ey;
        let ref2 = (direct.x as i128) * (direct.x as i128)
            + (direct.y as i128) * (direct.y as i128);
        // |approx - direct|^2 <= (5% |direct|)^2
        assert!(err2 * 400 <= ref2, "error {err2} too large against {ref2}");
    }
}

#[test]
fn single_body_feels_no_force_and_does_not_move() {
    let cfg = cfg_plain();
    let particles = vec![Particle::new(Vec2::new(500, 500), Vec2::new(0, 0), 50, 0, 0)];
    let qt = create_quadtree(&particles, Rectangle::new(Vec2::new(0, 0), 1000, 1000));
    let mut p = particles[0];
    gravity::utils::calculate_new_position(&mut p, &qt, &cfg);
    assert_eq!(p.net_force.x, 0);
    assert_eq!(p.net_force.y, 0);
    assert_eq!(p.vel.x, 0);
    assert_eq!(p.vel.y, 0);
    assert_eq!(p.pos.x, 500);
    assert_eq!(p.pos.y, 500);
}
