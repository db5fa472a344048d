//! The per-tick simulation step: perturb every point by a bounded random
//! walk with toroidal wraparound, rebuild the spatial index from scratch,
//! and classify every point by a circular range query against the index.

use vstd::prelude::*;
use crate::geometry::{Circle, Rect, COORD_LIMIT};
use crate::point::{Point, Tag};
use crate::quadtree::{build_dropped, build_model, QuadTree, QuadTreeError};

verus! {

/// One coordinate after a toroidal step: the step is added and the sum is
/// wrapped into `[0, extent)` by taking the remainder of a positive
/// intermediate value, so a point leaving one edge reappears at the
/// opposite edge.
pub open spec fn wrap_spec(v: int, d: int, extent: int) -> int {
    (v + d + extent) % extent
}

/// Toroidal wraparound: for every position and every step size, the
/// wrapped coordinate lies in `[0, extent)`.
pub proof fn lemma_wrap_in_world(v: int, d: int, extent: int)
    requires
        0 < extent,
    ensures
        0 <= wrap_spec(v, d, extent) < extent,
{
}

/// One coordinate of a toroidal step.
pub fn wrap_coord(v: i64, d: i64, extent: i64) -> (r: i64)
    requires
        0 < extent <= COORD_LIMIT,
        0 <= v < extent,
        -extent <= d <= extent,
    ensures
        r == wrap_spec(v as int, d as int, extent as int),
        0 <= r < extent,
{
    (v + d + extent) % extent
}

/// Move a point by `(dx, dy)` on the torus `[0, w) x [0, h)`; the radius
/// and the tag are unchanged.
pub fn step_position(p: Point, dx: i64, dy: i64, w: i64, h: i64) -> (q: Point)
    requires
        0 < w <= COORD_LIMIT,
        0 < h <= COORD_LIMIT,
        0 <= p.x < w,
        0 <= p.y < h,
        -w <= dx <= w,
        -h <= dy <= h,
    ensures
        q == (Point {
            x: wrap_spec(p.x as int, dx as int, w as int) as i64,
            y: wrap_spec(p.y as int, dy as int, h as int) as i64,
            ..p
        }),
        0 <= q.x < w,
        0 <= q.y < h,
{
    Point { x: wrap_coord(p.x, dx, w), y: wrap_coord(p.y, dy, h), ..p }
}

/// Relies on rand::thread_rng and rand::Rng::gen_range: a value drawn
/// uniformly from the non-empty inclusive range `lo..=hi` (gen_range
/// panics on an empty range, which the precondition rules out).
#[verifier::external_body]
fn rand_in_range(lo: i64, hi: i64) -> (r: i64)
    requires
        lo <= hi,
    ensures
        lo <= r <= hi,
{
    rand::Rng::gen_range(&mut rand::thread_rng(), lo..=hi)
}

/// Perturb every point by one random-walk step of at most `step` along
/// each axis, wrapped toroidally into `[0, w) x [0, h)`.  Radii and tags
/// are unchanged; every new position is in the world, and each lies
/// within one wrapped step of the old position along each axis.
pub fn move_points(points: &mut Vec<Point>, step: i64, w: i64, h: i64)
    requires
        0 < w <= COORD_LIMIT,
        0 < h <= COORD_LIMIT,
        0 <= step,
        step <= w,
        step <= h,
        forall|i: int|
            0 <= i < old(points)@.len() ==> 0 <= (#[trigger] old(points)@[i]).x < w && 0 <= old(
                points,
            )@[i].y < h,
    ensures
        final(points)@.len() == old(points)@.len(),
        forall|i: int|
            0 <= i < old(points)@.len() ==> {
                let p = old(points)@[i];
                let q = #[trigger] final(points)@[i];
                &&& q.radius == p.radius
                &&& q.tag == p.tag
                &&& 0 <= q.x < w
                &&& 0 <= q.y < h
                &&& exists|dx: int, dy: int|
                    -step <= dx <= step && -step <= dy <= step && q.x == wrap_spec(
                        p.x as int,
                        dx,
                        w as int,
                    ) && q.y == wrap_spec(p.y as int, dy, h as int)
            },
{
    let mut out: Vec<Point> = Vec::new();
    let mut i: usize = 0;
    while i < points.len()
        invariant
            0 <= i <= points@.len(),
            out@.len() == i,
            0 < w <= COORD_LIMIT,
            0 < h <= COORD_LIMIT,
            0 <= step && step <= w && step <= h,
            forall|j: int|
                0 <= j < points@.len() ==> 0 <= (#[trigger] points@[j]).x < w && 0 <= points@[j].y
                    < h,
            forall|j: int|
                0 <= j < i ==> {
                    let p = points@[j];
                    let q = #[trigger] out@[j];
                    &&& q.radius == p.radius
                    &&& q.tag == p.tag
                    &&& 0 <= q.x < w
                    &&& 0 <= q.y < h
                    &&& exists|dx: int, dy: int|
                        -step <= dx <= step && -step <= dy <= step && q.x == wrap_spec(
                            p.x as int,
                            dx,
                            w as int,
                        ) && q.y == wrap_spec(p.y as int, dy, h as int)
                },
        decreases points@.len() - i,
    {
        let dx = rand_in_range(-step, step);
        let dy = rand_in_range(-step, step);
        let p = points[i];
        let q = step_position(p, dx, dy, w, h);
        out.push(q);
        proof {
            assert(q.x == wrap_spec(p.x as int, dx as int, w as int) && q.y == wrap_spec(
                p.y as int,
                dy as int,
                h as int,
            ));
        }
        i += 1;
    }
    *points = out;
}

/// Seed `n` points: the first at the world center, each next displaced
/// from the previous seed position by a random step of at most `step`
/// along each axis, wrapped toroidally.  Every seeded point lies in
/// `[0, w) x [0, h)`, carries the given radius, and starts `Normal`.
pub fn generate_random_points(n: usize, w: i64, h: i64, radius: i64, step: i64) -> (points: Vec<
    Point,
>)
    requires
        0 < w <= COORD_LIMIT,
        0 < h <= COORD_LIMIT,
        0 <= step,
        step <= w,
        step <= h,
        0 <= radius <= COORD_LIMIT,
    ensures
        points@.len() == n,
        forall|i: int|
            0 <= i < n ==> {
                let p = #[trigger] points@[i];
                &&& 0 <= p.x < w
                &&& 0 <= p.y < h
                &&& p.radius == radius
                &&& p.tag == Tag::Normal
                &&& p.valid()
            },
        n > 0 ==> points@[0].x == w / 2 && points@[0].y == h / 2,
{
    let mut points: Vec<Point> = Vec::new();
    let mut x: i64 = w / 2;
    let mut y: i64 = h / 2;
    let mut i: usize = 0;
    while i < n
        invariant
            0 <= i <= n,
            points@.len() == i,
            0 < w <= COORD_LIMIT,
            0 < h <= COORD_LIMIT,
            0 <= step && step <= w && step <= h,
            0 <= radius <= COORD_LIMIT,
            0 <= x < w,
            0 <= y < h,
            forall|j: int|
                0 <= j < i ==> {
                    let p = #[trigger] points@[j];
                    &&& 0 <= p.x < w
                    &&& 0 <= p.y < h
                    &&& p.radius == radius
                    &&& p.tag == Tag::Normal
                    &&& p.valid()
                },
            i == 0 ==> x == w / 2 && y == h / 2,
            i > 0 ==> points@[0].x == w / 2 && points@[0].y == h / 2,
        decreases n - i,
    {
        points.push(Point { x, y, radius, tag: Tag::Normal });
        let dx = rand_in_range(-step, step);
        let dy = rand_in_range(-step, step);
        x = wrap_coord(x, dx, w);
        y = wrap_coord(y, dy, h);
        i += 1;
    }
    points
}

/// Classify every point through the index: a point becomes `Overlapping`
/// exactly when the query circle around its position, of twice its
/// radius, contains more than one held point (when the point itself is
/// stored, the query finds it, so more than one means at least one
/// neighbour within the combined-radius window).  Positions and radii
/// are unchanged.
pub fn check_overlap(points: &mut Vec<Point>, tree: &QuadTree)
    requires
        tree.inv(),
        tree@.wf(),
        forall|i: int| 0 <= i < old(points)@.len() ==> (#[trigger] old(points)@[i]).valid(),
    ensures
        final(points)@.len() == old(points)@.len(),
        forall|i: int|
            0 <= i < old(points)@.len() ==> {
                let p = old(points)@[i];
                let q = #[trigger] final(points)@[i];
                &&& q.x == p.x
                &&& q.y == p.y
                &&& q.radius == p.radius
                &&& q.tag == (if tree@.query_model(
                    Circle { x: p.x, y: p.y, r: (2 * p.radius) as i64 },
                ).len() > 1 {
                    Tag::Overlapping
                } else {
                    Tag::Normal
                })
            },
{
    let mut out: Vec<Point> = Vec::new();
    let mut i: usize = 0;
    while i < points.len()
        invariant
            0 <= i <= points@.len(),
            out@.len() == i,
            tree.inv(),
            tree@.wf(),
            forall|j: int| 0 <= j < points@.len() ==> (#[trigger] points@[j]).valid(),
            forall|j: int|
                0 <= j < i ==> {
                    let p = points@[j];
                    let q = #[trigger] out@[j];
                    &&& q.x == p.x
                    &&& q.y == p.y
                    &&& q.radius == p.radius
                    &&& q.tag == (if tree@.query_model(
                        Circle { x: p.x, y: p.y, r: (2 * p.radius) as i64 },
                    ).len() > 1 {
                        Tag::Overlapping
                    } else {
                        Tag::Normal
                    })
                },
        decreases points@.len() - i,
    {
        let p = points[i];
        let range = Circle { x: p.x, y: p.y, r: 2 * p.radius };
        let found = tree.query(range);
        let tag = if found.len() > 1 {
            Tag::Overlapping
        } else {
            Tag::Normal
        };
        out.push(Point { x: p.x, y: p.y, radius: p.radius, tag });
        i += 1;
    }
    *points = out;
}

/// Build a fresh index over `bounds` and insert every point in order,
/// returning the tree together with how many points the build dropped
/// (points outside the bounds, and points lost to subdivisions under the
/// drop-on-subdivision policy).  Insertion order is observable: it decides which
/// points a subdivision drops.
pub fn build_quadtree(points: &Vec<Point>, capacity: usize, bounds: Rect) -> (r: Result<
    (QuadTree, usize),
    QuadTreeError,
>)
    requires
        bounds.valid(),
        capacity < usize::MAX,
        forall|i: int| 0 <= i < points@.len() ==> (#[trigger] points@[i]).valid(),
    ensures
        r is Ok <==> capacity >= 1,
        r is Err ==> r->Err_0 == QuadTreeError::InvalidConfiguration,
        r is Ok ==> {
            let t = r->Ok_0.0;
            let dropped = r->Ok_0.1;
            &&& t.inv()
            &&& t@ == build_model(points@, capacity as nat, bounds)
            &&& t@.wf()
            &&& dropped == build_dropped(points@, capacity as nat, bounds)
            &&& t@.points_of().len() + dropped == points@.len()
        },
{
    let mut tree = match QuadTree::new(capacity, bounds) {
        Ok(t) => t,
        Err(e) => {
            return Err(e);
        },
    };
    let mut dropped: usize = 0;
    let mut i: usize = 0;
    while i < points.len()
        invariant
            0 <= i <= points@.len(),
            bounds.valid(),
            1 <= capacity < usize::MAX,
            forall|j: int| 0 <= j < points@.len() ==> (#[trigger] points@[j]).valid(),
            tree.inv(),
            tree@.wf(),
            tree@ == build_model(points@.take(i as int), capacity as nat, bounds),
            dropped == build_dropped(points@.take(i as int), capacity as nat, bounds),
            tree@.points_of().len() + dropped == i,
        decreases points@.len() - i,
    {
        let p = points[i];
        let ghost m0 = tree@;
        proof {
            m0.lemma_insert_model_wf(p);
            m0.lemma_insert_model_count(p);
        }
        let d = tree.insert_impl(p);
        dropped = dropped + d;
        i += 1;
        proof {
            assert(points@.take(i as int).drop_last() =~= points@.take(i - 1));
            assert(points@.take(i as int).last() == points@[i - 1]);
        }
    }
    proof {
        assert(points@.take(points@.len() as int) =~= points@);
    }
    Ok((tree, dropped))
}

} // verus!

