use quadtree_sim::geometry::{Circle, Rect};
use quadtree_sim::point::{Point, Tag};
use quadtree_sim::quadtree::{QuadTree, QuadTreeError};

fn world() -> Rect {
    Rect { x: 0, y: 0, w: 1024, h: 1024 }
}

fn pt(x: i64, y: i64) -> Point {
    Point { x, y, radius: 5, tag: Tag::Normal }
}

#[test]
fn new_rejects_zero_capacity() {
    let r = QuadTree::new(0, world());
    assert_eq!(r.err(), Some(QuadTreeError::InvalidConfiguration));
}

#[test]
fn new_accepts_positive_capacity() {
    let t = QuadTree::new(1, world()).unwrap();
    assert_eq!(t.len(), 0);
    assert!(!t.is_subdivided());
    assert_eq!(t.boundary(), world());
}

#[test]
fn leaf_query_covering_returns_all() {
    let mut t = QuadTree::new(4, world()).unwrap();
    let a = pt(10, 10);
    let b = pt(500, 200);
    let c = pt(1023, 1023);
    t.insert(a);
    t.insert(b);
    t.insert(c);
    assert_eq!(t.len(), 3);
    // A circle around the center large enough to cover the whole boundary.
    let cover = Circle { x: 512, y: 512, r: 1000 };
    let got = t.query(cover);
    assert_eq!(got, vec![a, b, c]);
}

#[test]
fn query_filters_by_strict_circle_containment() {
    let mut t = QuadTree::new(8, world()).unwrap();
    t.insert(pt(100, 100));
    t.insert(pt(109, 100)); // distance 9 < 10: inside
    t.insert(pt(110, 100)); // distance 10: not strictly inside
    t.insert(pt(900, 900)); // far away
    let got = t.query(Circle { x: 100, y: 100, r: 10 });
    assert_eq!(got, vec![pt(100, 100), pt(109, 100)]);
}

#[test]
fn query_never_returns_points_outside_range() {
    let mut t = QuadTree::new(2, world()).unwrap();
    for i in 0..40 {
        t.insert(pt(i * 25, i * 25));
    }
    let range = Circle { x: 512, y: 512, r: 100 };
    for p in t.query(range) {
        let dx = p.x - 512;
        let dy = p.y - 512;
        assert!(dx * dx + dy * dy < 100 * 100);
    }
}

#[test]
fn out_of_bounds_insert_is_silently_not_stored() {
    let mut t = QuadTree::new(4, world()).unwrap();
    t.insert(pt(-1, 10));
    t.insert(pt(10, 1024)); // the high edges are exclusive
    t.insert(pt(2000, 2000));
    assert_eq!(t.len(), 0);
    let got = t.query(Circle { x: 512, y: 512, r: 100000 });
    assert!(got.is_empty());
}

#[test]
fn subdivision_drops_held_and_arriving_points() {
    let mut t = QuadTree::new(2, world()).unwrap();
    t.insert(pt(10, 10));
    t.insert(pt(20, 20));
    assert_eq!(t.len(), 2);
    assert!(!t.is_subdivided());
    // The third insert finds the leaf at capacity: the node subdivides and
    // the two held points and the arriving point are all dropped.
    t.insert(pt(30, 30));
    assert!(t.is_subdivided());
    assert_eq!(t.len(), 0);
}

#[test]
fn subdivision_children_tile_the_parent() {
    let mut t = QuadTree::new(1, world()).unwrap();
    t.insert(pt(10, 10));
    t.insert(pt(20, 20)); // triggers subdivision
    let rects = t.display();
    // Parent first, then the children north-east, north-west, south-east,
    // south-west: four quadrants that exactly quarter the parent.
    assert_eq!(
        rects,
        vec![
            Rect { x: 0, y: 0, w: 1024, h: 1024 },
            Rect { x: 512, y: 0, w: 512, h: 512 },
            Rect { x: 0, y: 0, w: 512, h: 512 },
            Rect { x: 512, y: 512, w: 512, h: 512 },
            Rect { x: 0, y: 512, w: 512, h: 512 },
        ]
    );
}

#[test]
fn odd_extent_quadrants_still_tile() {
    let bounds = Rect { x: 0, y: 0, w: 7, h: 5 };
    let mut t = QuadTree::new(1, bounds).unwrap();
    t.insert(Point { x: 0, y: 0, radius: 1, tag: Tag::Normal });
    t.insert(Point { x: 1, y: 1, radius: 1, tag: Tag::Normal });
    let rects = t.display();
    // Widths 3 and 4, heights 2 and 3: areas sum to the parent's 35.
    assert_eq!(rects[0], bounds);
    let area: i64 = rects[1..].iter().map(|r| r.w * r.h).sum();
    assert_eq!(area, 35);
    assert_eq!(rects[1], Rect { x: 3, y: 0, w: 4, h: 2 });
    assert_eq!(rects[2], Rect { x: 0, y: 0, w: 3, h: 2 });
    assert_eq!(rects[3], Rect { x: 3, y: 2, w: 4, h: 3 });
    assert_eq!(rects[4], Rect { x: 0, y: 2, w: 3, h: 3 });
}

#[test]
fn points_after_subdivision_go_to_the_right_child() {
    let mut t = QuadTree::new(1, world()).unwrap();
    t.insert(pt(10, 10));
    t.insert(pt(20, 20)); // subdivides; both points dropped
    let nw = pt(100, 100);
    let ne = pt(600, 100);
    let sw = pt(100, 600);
    let se = pt(600, 600);
    t.insert(nw);
    t.insert(ne);
    t.insert(sw);
    t.insert(se);
    assert_eq!(t.len(), 4);
    // Query order is north-west, north-east, south-west, south-east.
    let got = t.query(Circle { x: 512, y: 512, r: 1000 });
    assert_eq!(got, vec![nw, ne, sw, se]);
}

#[test]
fn point_on_dividing_line_belongs_to_the_high_side() {
    let mut t = QuadTree::new(1, world()).unwrap();
    t.insert(pt(10, 10));
    t.insert(pt(20, 20)); // subdivides
    // x = 512 is the dividing line: the west children end at 511, so the
    // point belongs to the north-east child.
    let on_line = pt(512, 10);
    t.insert(on_line);
    assert_eq!(t.len(), 1);
    let got = t.query(Circle { x: 512, y: 10, r: 2 });
    assert_eq!(got, vec![on_line]);
}

#[test]
fn contains_matches_half_open_boundary() {
    let t = QuadTree::new(4, world()).unwrap();
    assert!(t.contains(&pt(0, 0)));
    assert!(t.contains(&pt(1023, 1023)));
    assert!(!t.contains(&pt(1024, 0)));
    assert!(!t.contains(&pt(0, -1)));
}

#[test]
fn intersects_is_strict_on_the_combined_radius() {
    let a = pt(10, 10);
    let b = pt(12, 10); // distance 2 < 5 + 5
    assert!(a.intersects(&b));
    let c = pt(20, 10); // distance 10 is not strictly below 10
    assert!(!a.intersects(&c));
    let d = Point { x: 500, y: 500, radius: 5, tag: Tag::Normal };
    assert!(!a.intersects(&d));
}

#[test]
fn update_pos_changes_only_the_position() {
    let mut p = Point { x: 1, y: 2, radius: 7, tag: Tag::Overlapping };
    p.update_pos(30, 40);
    assert_eq!(p, Point { x: 30, y: 40, radius: 7, tag: Tag::Overlapping });
}

#[test]
fn empty_tree_is_well_defined() {
    let t = QuadTree::new(4, world()).unwrap();
    assert_eq!(t.len(), 0);
    assert!(t.query(Circle { x: 0, y: 0, r: 100 }).is_empty());
    assert_eq!(t.display(), vec![world()]);
}
