use gravity::circle::Circle;
use gravity::particle::Particle;
use gravity::rectangle::Rectangle;
use gravity::vec2::Vec2;

fn body_at(x: i64, y: i64) -> Particle {
    Particle::new(Vec2::new(x, y), Vec2::new(0, 0), 1, 0, 0)
}

#[test]
fn rectangle_contains_is_half_open() {
    let r = Rectangle::new(Vec2::new(0, 0), 10, 10);
    assert!(r.contains(&body_at(0, 0)));
    assert!(r.contains(&body_at(9, 9)));
    assert!(!r.contains(&body_at(10, 0)));
    assert!(!r.contains(&body_at(0, 10)));
    assert!(!r.contains(&body_at(-1, 5)));
}

#[test]
fn rectangle_intersects_overlapping_and_disjoint() {
    let a = Rectangle::new(Vec2::new(0, 0), 10, 10);
    let b = Rectangle::new(Vec2::new(5, 5), 10, 10);
    let c = Rectangle::new(Vec2::new(30, 30), 5, 5);
    assert!(a.intersects(&b));
    assert!(b.intersects(&a));
    assert!(!a.intersects(&c));
    assert!(!c.intersects(&a));
}

#[test]
fn circle_contains_closed_disc() {
    let c = Circle::new(Vec2::new(0, 0), 5);
    assert!(c.contains(&body_at(3, 4)));
    assert!(c.contains(&body_at(0, 5)));
    assert!(c.contains(&body_at(0, 0)));
    assert!(!c.contains(&body_at(4, 4)));
}

#[test]
fn distance_is_floor_of_euclidean_norm() {
    let p = body_at(0, 0);
    assert_eq!(p.get_distance_to(&Vec2::new(3, 4)), 5);
    assert_eq!(p.get_distance_to(&Vec2::new(1, 1)), 1);
    assert_eq!(p.get_distance_to(&Vec2::new(0, 0)), 0);
    assert_eq!(p.get_distance_to(&Vec2::new(-3, -4)), 5);
    assert_eq!(p.get_distance_to(&Vec2::new(10, 0)), 10);
}
