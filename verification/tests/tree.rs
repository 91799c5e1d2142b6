use gravity::circle::Circle;
use gravity::particle::Particle;
use gravity::quadtree::QuadTree;
use gravity::rectangle::Rectangle;
use gravity::utils::create_quadtree;
use gravity::vec2::Vec2;

fn body(x: i64, y: i64, mass: i64, index: usize) -> Particle {
    Particle::new(Vec2::new(x, y), Vec2::new(0, 0), mass, 0, index)
}

fn world() -> Rectangle {
    Rectangle::new(Vec2::new(0, 0), 1000, 1000)
}

#[test]
fn empty_tree_has_no_mass_and_empty_queries() {
    let qt = create_quadtree(&Vec::new(), world());
    assert_eq!(qt.mass, 0);
    let found = qt.query(&world());
    assert!(found.is_empty());
}

#[test]
fn out_of_region_insert_leaves_aggregate_mass_unchanged() {
    let mut qt = QuadTree::new(world());
    qt.insert(&body(10, 10, 7, 0));
    qt.update_mass();
    assert_eq!(qt.mass, 7);

    qt.insert(&body(2000, 2000, 100, 1));
    assert_eq!(qt.mass, 7);
    assert_eq!(qt.query(&world()).len(), 1);

    qt.insert(&body(-5, 3, 100, 2));
    assert_eq!(qt.mass, 7);
}

#[test]
fn out_of_region_bodies_are_excluded_from_the_built_index() {
    let particles = vec![
        body(10, 10, 3, 0),
        body(5000, 5000, 50, 1),
        body(20, 20, 4, 2),
    ];
    let qt = create_quadtree(&particles, world());
    assert_eq!(qt.mass, 7);
    assert_eq!(qt.query(&world()).len(), 2);
}

#[test]
fn coincident_bodies_keep_only_the_first() {
    let particles = vec![body(10, 10, 3, 0), body(10, 10, 9, 1)];
    let qt = create_quadtree(&particles, world());
    let found = qt.query(&world());
    assert_eq!(found.len(), 1);
    assert_eq!(found[0].index, 0);
    assert_eq!(qt.mass, 3);
}

#[test]
fn aggregate_mass_is_total_mass_and_com_is_weighted_center() {
    let particles = vec![body(100, 100, 1, 0), body(900, 900, 3, 1)];
    let qt = create_quadtree(&particles, world());
    assert_eq!(qt.mass, 4);
    // center of mass: (1*100 + 3*900) / 4 = 700 on both axes
    assert_eq!(qt.m_center_pos.x, 700);
    assert_eq!(qt.m_center_pos.y, 700);
}

#[test]
fn range_query_returns_exactly_the_bodies_inside() {
    let particles = vec![
        body(10, 10, 1, 0),
        body(20, 20, 1, 1),
        body(80, 80, 1, 2),
        body(95, 5, 1, 3),
        body(49, 49, 1, 4),
    ];
    let qt = create_quadtree(&particles, world());
    let found = qt.query(&Rectangle::new(Vec2::new(0, 0), 50, 50));
    let mut got: Vec<usize> = found.iter().map(|p| p.index).collect();
    got.sort();
    assert_eq!(got, vec![0, 1, 4]);

    let everything = qt.query(&world());
    assert_eq!(everything.len(), 5);
}

#[test]
fn range_query_exactness_does_not_depend_on_subdivision_depth() {
    // A tight cluster forces deep subdivision; the query must still return
    // exactly the bodies inside the region.
    let particles = vec![
        body(500, 500, 1, 0),
        body(501, 500, 1, 1),
        body(500, 501, 1, 2),
        body(501, 501, 1, 3),
        body(502, 500, 1, 4),
    ];
    let qt = create_quadtree(&particles, world());
    let found = qt.query(&Rectangle::new(Vec2::new(500, 500), 2, 2));
    let mut got: Vec<usize> = found.iter().map(|p| p.index).collect();
    got.sort();
    assert_eq!(got, vec![0, 1, 2, 3]);
}

#[test]
fn circle_query_returns_exactly_the_bodies_in_the_disc() {
    let particles = vec![
        body(100, 100, 1, 0),
        body(103, 104, 1, 1),
        body(100, 105, 1, 2),
        body(104, 104, 1, 3),
        body(200, 200, 1, 4),
    ];
    let qt = create_quadtree(&particles, world());
    let found = qt.query_circle(&Circle::new(Vec2::new(100, 100), 5));
    let mut got: Vec<usize> = found.iter().map(|p| p.index).collect();
    got.sort();
    assert_eq!(got, vec![0, 1, 2]);
}
