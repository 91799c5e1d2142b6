use gravity::config::SimConfig;
use gravity::particle::Particle;
use gravity::rectangle::Rectangle;
use gravity::utils::{create_quadtree, resolve_collisions, step};
use gravity::vec2::Vec2;

fn world() -> Rectangle {
    Rectangle::new(Vec2::new(0, 0), 1000, 1000)
}

#[test]
fn a_free_body_drifts_by_its_velocity() {
    let cfg = SimConfig::new(100, 1, 0, 1, 2);
    let mut particles = vec![Particle::new(Vec2::new(10, 10), Vec2::new(5, -3), 1, 0, 0)];
    let qt = create_quadtree(&particles, world());
    step(&mut particles, &qt, &cfg);
    assert_eq!(particles[0].pos.x, 15);
    assert_eq!(particles[0].pos.y, 7);
    assert_eq!(particles[0].vel.x, 5);
    assert_eq!(particles[0].vel.y, -3);
}

#[test]
fn two_attracting_bodies_gain_velocity_toward_each_other() {
    let cfg = SimConfig::new(1_000_000, 1, 0, 1, 2);
    let mut particles = vec![
        Particle::new(Vec2::new(100, 500), Vec2::new(0, 0), 1_000_000, 0, 0),
        Particle::new(Vec2::new(900, 500), Vec2::new(0, 0), 1_000_000, 0, 1),
    ];
    let qt = create_quadtree(&particles, world());
    step(&mut particles, &qt, &cfg);
    assert!(particles[0].vel.x > 0);
    assert!(particles[1].vel.x < 0);
    assert_eq!(particles[0].vel.x, -particles[1].vel.x);
    assert_eq!(particles[0].vel.y, 0);
    assert_eq!(particles[1].vel.y, 0);
}

#[test]
fn collision_merge_is_the_momentum_weighted_average() {
    // m1=1, v1=(100,0) against m2=3, v2=(0,100): the merged velocity is the
    // momentum-weighted average (25, 75), and with these inputs momentum is
    // conserved exactly: 1*(100,0) + 3*(0,100) == 4*(25,75).
    let mut particles = vec![
        Particle::new(Vec2::new(100, 100), Vec2::new(100, 0), 1, 10, 0),
        Particle::new(Vec2::new(105, 100), Vec2::new(0, 100), 3, 10, 1),
    ];
    let qt = create_quadtree(&particles, world());
    resolve_collisions(&mut particles, &qt);
    assert_eq!(particles[0].vel.x, 25);
    assert_eq!(particles[0].vel.y, 75);
    // the partner merges against the index's snapshot of this tick
    assert_eq!(particles[1].vel.x, 25);
    assert_eq!(particles[1].vel.y, 75);
    // positions and masses are never changed by the resolver
    assert_eq!(particles[0].pos.x, 100);
    assert_eq!(particles[1].pos.x, 105);
    assert_eq!(particles[0].mass, 1);
    assert_eq!(particles[1].mass, 3);
}

#[test]
fn distant_slow_bodies_do_not_collide() {
    let mut particles = vec![
        Particle::new(Vec2::new(100, 100), Vec2::new(1, 0), 1, 2, 0),
        Particle::new(Vec2::new(200, 100), Vec2::new(0, 1), 3, 2, 1),
    ];
    let qt = create_quadtree(&particles, world());
    resolve_collisions(&mut particles, &qt);
    assert_eq!(particles[0].vel.x, 1);
    assert_eq!(particles[0].vel.y, 0);
    assert_eq!(particles[1].vel.x, 0);
    assert_eq!(particles[1].vel.y, 1);
}

#[test]
fn collision_test_uses_radii_plus_closing_speeds() {
    // distance 20 is exactly the broad-phase reach (twice the radius); the
    // summed radii alone (10+10) do not exceed it, but the closing speeds
    // 6+6 do: 20 + 12 > 20.
    let mut particles = vec![
        Particle::new(Vec2::new(100, 100), Vec2::new(6, 0), 2, 10, 0),
        Particle::new(Vec2::new(120, 100), Vec2::new(-6, 0), 2, 10, 1),
    ];
    let qt = create_quadtree(&particles, world());
    resolve_collisions(&mut particles, &qt);
    // merge of (6,0) and (-6,0) with equal masses averages to (0,0)
    assert_eq!(particles[0].vel.x, 0);
    assert_eq!(particles[1].vel.x, 0);
}

#[test]
fn touching_bodies_at_rest_do_not_collide() {
    // the same geometry with zero speeds: 10 + 10 is not greater than 20,
    // so the resolver leaves both bodies alone
    let mut particles = vec![
        Particle::new(Vec2::new(100, 100), Vec2::new(0, 0), 2, 10, 0),
        Particle::new(Vec2::new(120, 100), Vec2::new(0, 0), 7, 10, 1),
    ];
    let qt = create_quadtree(&particles, world());
    resolve_collisions(&mut particles, &qt);
    assert_eq!(particles[0].vel.x, 0);
    assert_eq!(particles[0].vel.y, 0);
    assert_eq!(particles[1].vel.x, 0);
    assert_eq!(particles[1].vel.y, 0);
}
