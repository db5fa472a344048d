use quadtree_sim::geometry::{Circle, Rect};
use quadtree_sim::point::{Point, Tag};
use quadtree_sim::quadtree::QuadTreeError;
use quadtree_sim::sim::{
    build_quadtree, check_overlap, generate_random_points, move_points, step_position, wrap_coord,
};

fn world() -> Rect {
    Rect { x: 0, y: 0, w: 1024, h: 1024 }
}

/// The wrapped per-axis distance between two in-world coordinates.
fn toroidal_dist(a: i64, b: i64, extent: i64) -> i64 {
    let d = (a - b).abs();
    d.min(extent - d)
}

#[test]
fn wrap_coord_wraps_both_edges() {
    assert_eq!(wrap_coord(5, -10, 100), 95);
    assert_eq!(wrap_coord(95, 10, 100), 5);
    assert_eq!(wrap_coord(50, 0, 100), 50);
    assert_eq!(wrap_coord(0, -100, 100), 0);
    assert_eq!(wrap_coord(99, 100, 100), 99);
}

#[test]
fn step_position_keeps_radius_and_tag() {
    let p = Point { x: 5, y: 90, radius: 3, tag: Tag::Overlapping };
    let q = step_position(p, -10, 15, 100, 100);
    assert_eq!(q, Point { x: 95, y: 5, radius: 3, tag: Tag::Overlapping });
}

#[test]
fn move_points_stays_in_world_and_within_one_step() {
    let mut points: Vec<Point> = (0..200)
        .map(|i| Point { x: (i * 5) % 1024, y: (i * 13) % 1024, radius: 5, tag: Tag::Normal })
        .collect();
    let before = points.clone();
    move_points(&mut points, 10, 1024, 1024);
    assert_eq!(points.len(), before.len());
    for (p, q) in before.iter().zip(points.iter()) {
        assert!(0 <= q.x && q.x < 1024);
        assert!(0 <= q.y && q.y < 1024);
        assert_eq!(q.radius, p.radius);
        assert_eq!(q.tag, p.tag);
        assert!(toroidal_dist(p.x, q.x, 1024) <= 10);
        assert!(toroidal_dist(p.y, q.y, 1024) <= 10);
    }
}

#[test]
fn generate_random_points_seeds_in_world() {
    let points = generate_random_points(50, 1024, 1024, 5, 10);
    assert_eq!(points.len(), 50);
    assert_eq!(points[0].x, 512);
    assert_eq!(points[0].y, 512);
    for p in &points {
        assert!(0 <= p.x && p.x < 1024);
        assert!(0 <= p.y && p.y < 1024);
        assert_eq!(p.radius, 5);
        assert_eq!(p.tag, Tag::Normal);
    }
}

#[test]
fn build_quadtree_rejects_zero_capacity() {
    let points = vec![Point { x: 1, y: 1, radius: 5, tag: Tag::Normal }];
    let r = build_quadtree(&points, 0, world());
    assert_eq!(r.err(), Some(QuadTreeError::InvalidConfiguration));
}

#[test]
fn build_quadtree_conserves_points() {
    let mut points = Vec::new();
    for i in 0..100 {
        points.push(Point { x: (i * 37) % 1024, y: (i * 91) % 1024, radius: 5, tag: Tag::Normal });
    }
    // One point outside the world is dropped as well.
    points.push(Point { x: 5000, y: 5000, radius: 5, tag: Tag::Normal });
    let (tree, dropped) = build_quadtree(&points, 4, world()).unwrap();
    assert_eq!(tree.len() + dropped, points.len());
    assert!(dropped >= 1);
}

#[test]
fn rebuild_from_same_points_is_identical() {
    let points = generate_random_points(300, 1024, 1024, 5, 10);
    let (t1, d1) = build_quadtree(&points, 8, world()).unwrap();
    let (t2, d2) = build_quadtree(&points, 8, world()).unwrap();
    assert_eq!(d1, d2);
    assert_eq!(t1.len(), t2.len());
    assert_eq!(t1.display(), t2.display());
    let cover = Circle { x: 512, y: 512, r: 1000 };
    assert_eq!(t1.query(cover), t2.query(cover));
}

#[test]
fn overlap_classification_near_and_far() {
    // Two points two apart with radius 5: the query circle of radius 10
    // around each contains both, so both classify as Overlapping.
    let mut points = vec![
        Point { x: 10, y: 10, radius: 5, tag: Tag::Normal },
        Point { x: 12, y: 10, radius: 5, tag: Tag::Normal },
    ];
    let (tree, _) = build_quadtree(&points, 30, world()).unwrap();
    check_overlap(&mut points, &tree);
    assert_eq!(points[0].tag, Tag::Overlapping);
    assert_eq!(points[1].tag, Tag::Overlapping);

    // Far apart: both classify as Normal.
    let mut points = vec![
        Point { x: 10, y: 10, radius: 5, tag: Tag::Normal },
        Point { x: 500, y: 500, radius: 5, tag: Tag::Normal },
    ];
    let (tree, _) = build_quadtree(&points, 30, world()).unwrap();
    check_overlap(&mut points, &tree);
    assert_eq!(points[0].tag, Tag::Normal);
    assert_eq!(points[1].tag, Tag::Normal);
}

#[test]
fn classify_point_dropped_by_build_stays_normal_when_alone() {
    // A point outside the world bounds is never stored, so its own query
    // finds nothing and it stays Normal.
    let mut points = vec![Point { x: 5000, y: 5000, radius: 5, tag: Tag::Overlapping }];
    let (tree, dropped) = build_quadtree(&points, 4, world()).unwrap();
    assert_eq!(dropped, 1);
    check_overlap(&mut points, &tree);
    assert_eq!(points[0].tag, Tag::Normal);
}

#[test]
fn empty_point_set_is_a_no_op() {
    let mut points: Vec<Point> = Vec::new();
    move_points(&mut points, 10, 1024, 1024);
    let (tree, dropped) = build_quadtree(&points, 30, world()).unwrap();
    assert_eq!(dropped, 0);
    assert_eq!(tree.len(), 0);
    check_overlap(&mut points, &tree);
    assert!(points.is_empty());
}

#[test]
fn full_tick_from_a_single_origin() {
    // Seed 2000 points at a single origin, then run one
    // perturb + rebuild + classify pass.
    let mut points: Vec<Point> =
        (0..2000).map(|_| Point { x: 512, y: 512, radius: 5, tag: Tag::Normal }).collect();
    let before = points.clone();
    move_points(&mut points, 10, 1024, 1024);
    for (p, q) in before.iter().zip(points.iter()) {
        assert!(toroidal_dist(p.x, q.x, 1024) <= 10);
        assert!(toroidal_dist(p.y, q.y, 1024) <= 10);
    }
    let (tree, dropped) = build_quadtree(&points, 30, world()).unwrap();
    // Conservation under the drop-on-subdivision policy: every input
    // point is either held by a leaf or accounted as dropped.
    assert_eq!(tree.len() + dropped, 2000);
    check_overlap(&mut points, &tree);
    assert_eq!(points.len(), 2000);
}
