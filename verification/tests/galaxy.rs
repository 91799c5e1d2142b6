use gravity::config::SimConfig;
use gravity::particle::Particle;
use gravity::utils::create_galaxy;
use gravity::vec2::Vec2;

#[test]
fn orbital_seeding_scenario() {
    let cfg = SimConfig::new(1, 1, 0, 1, 2);
    let mut particles: Vec<Particle> = Vec::new();
    create_galaxy(
        &mut particles,
        Vec2::new(0, 0),
        Vec2::new(0, 0),
        100,
        10_000,
        1,
        500,
        &cfg,
    );

    // 500 orbiting bodies plus one central body
    assert_eq!(particles.len(), 501);

    for (i, b) in particles.iter().take(500).enumerate() {
        let dx = b.pos.x as i128;
        let dy = b.pos.y as i128;
        let d2 = dx * dx + dy * dy;
        // distance from the center within [r_min, radius]
        assert!(d2 >= 100, "body {i} closer than the minimum orbit radius");
        assert!(d2 <= 10_000, "body {i} outside the galaxy radius");
        // velocity exactly perpendicular to the radius vector
        let dot = (b.vel.x as i128) * dx + (b.vel.y as i128) * dy;
        assert_eq!(dot, 0, "body {i} velocity not tangential");
        assert_eq!(b.mass, 1);
        assert_eq!(b.index, i);
    }

    let sun = particles[500];
    assert_eq!(sun.pos.x, 0);
    assert_eq!(sun.pos.y, 0);
    assert_eq!(sun.vel.x, 0);
    assert_eq!(sun.vel.y, 0);
    assert_eq!(sun.mass, 10_000);
    assert_eq!(sun.index, 500);
}

#[test]
fn two_galaxies_combine_with_continuing_indices() {
    let cfg = SimConfig::new(1, 1, 0, 1, 2);
    let mut particles: Vec<Particle> = Vec::new();
    create_galaxy(
        &mut particles,
        Vec2::new(-500, -500),
        Vec2::new(1, 0),
        100,
        10_000,
        1,
        40,
        &cfg,
    );
    create_galaxy(
        &mut particles,
        Vec2::new(500, 500),
        Vec2::new(-1, 0),
        100,
        10_000,
        2,
        30,
        &cfg,
    );
    assert_eq!(particles.len(), 40 + 1 + 30 + 1);
    // population order is fixed: every index is the body's position
    for (i, b) in particles.iter().enumerate() {
        assert_eq!(b.index, i);
    }
    // the first galaxy is untouched by the second call
    assert_eq!(particles[40].pos.x, -500);
    assert_eq!(particles[40].mass, 10_000);
    assert_eq!(particles[71].pos.x, 500);
    assert_eq!(particles[71].vel.x, -1);
    for b in particles.iter().skip(41).take(30) {
        assert_eq!(b.mass, 2);
    }
}

#[test]
fn a_seeded_galaxy_survives_several_ticks() {
    let cfg = SimConfig::new(1000, 1, 2, 1, 2);
    let mut particles: Vec<Particle> = Vec::new();
    create_galaxy(
        &mut particles,
        Vec2::new(5_000, 5_000),
        Vec2::new(0, 0),
        1_000,
        1_000_000,
        1,
        100,
        &cfg,
    );
    let world = gravity::rectangle::Rectangle::new(Vec2::new(0, 0), 10_000, 10_000);
    for _ in 0..3 {
        let qt = gravity::utils::create_quadtree(&particles, world);
        gravity::utils::step(&mut particles, &qt, &cfg);
        gravity::utils::resolve_collisions(&mut particles, &qt);
    }
    // the population is never grown or shrunk by a tick
    assert_eq!(particles.len(), 101);
    for (i, b) in particles.iter().enumerate() {
        assert_eq!(b.index, i);
        assert_eq!(b.mass, if i == 100 { 1_000_000 } else { 1 });
    }
}

#[test]
fn seeded_orbiters_move_under_a_strong_gravity() {
    // With a sizable gravitational constant the seeded tangential speeds
    // are non-zero; this fails if the sampling handed back constants or
    // the velocity formula degenerated.
    let cfg = SimConfig::new(1_000_000, 1, 0, 1, 2);
    let mut particles: Vec<Particle> = Vec::new();
    create_galaxy(
        &mut particles,
        Vec2::new(0, 0),
        Vec2::new(3, -4),
        1000,
        1_000_000,
        1,
        200,
        &cfg,
    );
    assert_eq!(particles.len(), 201);
    let moving = particles
        .iter()
        .take(200)
        .filter(|b| b.vel.x != 0 || b.vel.y != 0)
        .count();
    assert!(moving >= 150, "only {moving} of 200 orbiters move");
    // bodies land on varied positions, not one fallback point
    let mut xs: Vec<i64> = particles.iter().take(200).map(|b| b.pos.x).collect();
    xs.sort();
    xs.dedup();
    assert!(xs.len() > 20, "sampling produced only {} distinct x positions", xs.len());
    // the central body carries the caller's initial velocity
    assert_eq!(particles[200].vel.x, 3);
    assert_eq!(particles[200].vel.y, -4);
    assert_eq!(particles[200].radius, 1);
}
