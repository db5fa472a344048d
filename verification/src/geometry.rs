//! Plane geometry for the spatial index: axis-aligned rectangles with
//! half-open extents, circles with strict containment, and the
//! circle/rectangle overlap test used for query pruning.
//!
//! Positions, side lengths and radii are fixed-point integers bounded by
//! `COORD_LIMIT`, which keeps every squared-distance computation within
//! `i64`.

use vstd::prelude::*;

verus! {

/// Bound on coordinates, rectangle extents and radii, chosen so that a sum
/// of two squared coordinate differences still fits in `i64`.
pub const COORD_LIMIT: i64 = 1_000_000_000;

pub open spec fn coord_ok(v: int) -> bool {
    -COORD_LIMIT <= v <= COORD_LIMIT
}

/// An axis-aligned rectangle covering the half-open region
/// `[x, x + w) x [y, y + h)`.
#[derive(Clone, Copy, PartialEq, Eq, Structural, Debug)]
pub struct Rect {
    pub x: i64,
    pub y: i64,
    pub w: i64,
    pub h: i64,
}

/// A circle given by center and radius; it covers the positions whose
/// squared distance from the center is strictly less than `r * r`.
#[derive(Clone, Copy, PartialEq, Eq, Structural, Debug)]
pub struct Circle {
    pub x: i64,
    pub y: i64,
    pub r: i64,
}

pub open spec fn sq_dist(x1: int, y1: int, x2: int, y2: int) -> int {
    (x1 - x2) * (x1 - x2) + (y1 - y2) * (y1 - y2)
}

pub open spec fn clamp_spec(v: int, lo: int, hi: int) -> int {
    if v < lo {
        lo
    } else if v > hi {
        hi
    } else {
        v
    }
}

/// `0 <= a * a <= b * b` whenever `-b <= a <= b`.
pub proof fn lemma_sq_bound(a: int, b: int)
    requires
        -b <= a <= b,
    ensures
        0 <= a * a <= b * b,
{
    assert(0 <= a * a <= b * b) by (nonlinear_arith)
        requires
            -b <= a <= b,
    ;
}

/// Squares are monotone in the absolute value.
pub proof fn lemma_sq_monotone(a: int, b: int)
    requires
        (if a < 0 { -a } else { a }) <= (if b < 0 { -b } else { b }),
    ensures
        a * a <= b * b,
{
    assert(a * a <= b * b) by (nonlinear_arith)
        requires
            (if a < 0 { -a } else { a }) <= (if b < 0 { -b } else { b }),
    ;
}

impl Rect {
    pub open spec fn valid(self) -> bool {
        &&& coord_ok(self.x as int)
        &&& coord_ok(self.y as int)
        &&& 0 <= self.w
        &&& 0 <= self.h
        &&& coord_ok(self.x + self.w)
        &&& coord_ok(self.y + self.h)
    }

    pub open spec fn contains_spec(self, px: int, py: int) -> bool {
        &&& self.x <= px < self.x + self.w
        &&& self.y <= py < self.y + self.h
    }

    /// Whether a position lies inside the rectangle.  The low edges are
    /// inclusive and the high edges exclusive, so a position on the line
    /// shared by two adjacent rectangles belongs to exactly one of them.
    pub fn contains(&self, px: i64, py: i64) -> (r: bool)
        requires
            self.valid(),
        ensures
            r == self.contains_spec(px as int, py as int),
    {
        self.x <= px && px < self.x + self.w && self.y <= py && py < self.y + self.h
    }

    pub open spec fn area(self) -> int {
        self.w * self.h
    }

    pub open spec fn half_w(self) -> int {
        self.w as int / 2
    }

    pub open spec fn half_h(self) -> int {
        self.h as int / 2
    }

    /// North-west quadrant: the low-x, low-y quarter of the rectangle.
    pub open spec fn nw_quad(self) -> Rect {
        Rect { x: self.x, y: self.y, w: self.half_w() as i64, h: self.half_h() as i64 }
    }

    /// North-east quadrant: the high-x, low-y quarter.
    pub open spec fn ne_quad(self) -> Rect {
        Rect {
            x: (self.x + self.half_w()) as i64,
            y: self.y,
            w: (self.w - self.half_w()) as i64,
            h: self.half_h() as i64,
        }
    }

    /// South-west quadrant: the low-x, high-y quarter.
    pub open spec fn sw_quad(self) -> Rect {
        Rect {
            x: self.x,
            y: (self.y + self.half_h()) as i64,
            w: self.half_w() as i64,
            h: (self.h - self.half_h()) as i64,
        }
    }

    /// South-east quadrant: the high-x, high-y quarter.
    pub open spec fn se_quad(self) -> Rect {
        Rect {
            x: (self.x + self.half_w()) as i64,
            y: (self.y + self.half_h()) as i64,
            w: (self.w - self.half_w()) as i64,
            h: (self.h - self.half_h()) as i64,
        }
    }

    /// The four quadrants of the rectangle, in the order north-east,
    /// north-west, south-east, south-west.
    pub fn quadrants(&self) -> (q: (Rect, Rect, Rect, Rect))
        requires
            self.valid(),
        ensures
            q.0 == self.ne_quad(),
            q.1 == self.nw_quad(),
            q.2 == self.se_quad(),
            q.3 == self.sw_quad(),
            q.0.valid() && q.1.valid() && q.2.valid() && q.3.valid(),
    {
        let w2 = self.w / 2;
        let h2 = self.h / 2;
        (
            Rect { x: self.x + w2, y: self.y, w: self.w - w2, h: h2 },
            Rect { x: self.x, y: self.y, w: w2, h: h2 },
            Rect { x: self.x + w2, y: self.y + h2, w: self.w - w2, h: self.h - h2 },
            Rect { x: self.x, y: self.y + h2, w: w2, h: self.h - h2 },
        )
    }
}

/// The quadrants of a valid rectangle are valid.
pub proof fn lemma_quadrants_valid(r: Rect)
    requires
        r.valid(),
    ensures
        r.nw_quad().valid(),
        r.ne_quad().valid(),
        r.sw_quad().valid(),
        r.se_quad().valid(),
{
}

/// The four quadrants exactly tile their parent: a position lies in the
/// parent if and only if it lies in exactly one of the quadrants.
pub proof fn lemma_quadrants_tile(r: Rect, px: int, py: int)
    requires
        r.valid(),
    ensures
        r.contains_spec(px, py) <==> (r.nw_quad().contains_spec(px, py)
            || r.ne_quad().contains_spec(px, py) || r.sw_quad().contains_spec(px, py)
            || r.se_quad().contains_spec(px, py)),
        r.nw_quad().contains_spec(px, py) ==> !r.ne_quad().contains_spec(px, py)
            && !r.sw_quad().contains_spec(px, py) && !r.se_quad().contains_spec(px, py),
        r.ne_quad().contains_spec(px, py) ==> !r.nw_quad().contains_spec(px, py)
            && !r.sw_quad().contains_spec(px, py) && !r.se_quad().contains_spec(px, py),
        r.sw_quad().contains_spec(px, py) ==> !r.nw_quad().contains_spec(px, py)
            && !r.ne_quad().contains_spec(px, py) && !r.se_quad().contains_spec(px, py),
        r.se_quad().contains_spec(px, py) ==> !r.nw_quad().contains_spec(px, py)
            && !r.ne_quad().contains_spec(px, py) && !r.sw_quad().contains_spec(px, py),
{
}

/// The quadrants' areas add up to the parent's area; together with the
/// disjointness in `lemma_quadrants_tile`, the split loses no area and
/// introduces no overlap.
pub proof fn lemma_quadrants_area(r: Rect)
    requires
        r.valid(),
    ensures
        r.nw_quad().area() + r.ne_quad().area() + r.sw_quad().area() + r.se_quad().area()
            == r.area(),
{
    let a = r.half_w();
    let b = r.w - r.half_w();
    let c = r.half_h();
    let d = r.h - r.half_h();
    assert(a * c + b * c + a * d + b * d == (a + b) * (c + d)) by (nonlinear_arith);
}

impl Circle {
    pub open spec fn valid(self) -> bool {
        &&& coord_ok(self.x as int)
        &&& coord_ok(self.y as int)
        &&& 0 <= self.r <= 2 * COORD_LIMIT
    }

    pub open spec fn contains_spec(self, px: int, py: int) -> bool {
        sq_dist(px, py, self.x as int, self.y as int) < self.r * self.r
    }

    /// Strict circle containment: the squared distance from the center is
    /// strictly below the squared radius.
    pub fn contains(&self, px: i64, py: i64) -> (b: bool)
        requires
            self.valid(),
            coord_ok(px as int),
            coord_ok(py as int),
        ensures
            b == self.contains_spec(px as int, py as int),
    {
        let dx = px - self.x;
        let dy = py - self.y;
        proof {
            lemma_sq_bound(dx as int, 2 * (COORD_LIMIT as int));
            lemma_sq_bound(dy as int, 2 * (COORD_LIMIT as int));
            lemma_sq_bound(self.r as int, 2 * (COORD_LIMIT as int));
        }
        dx * dx + dy * dy < self.r * self.r
    }

    /// Overlap with a rectangle: the point of the closed rectangle nearest
    /// to the center lies strictly inside the circle.
    pub open spec fn overlaps_rect_spec(self, rect: Rect) -> bool {
        sq_dist(
            clamp_spec(self.x as int, rect.x as int, rect.x + rect.w),
            clamp_spec(self.y as int, rect.y as int, rect.y + rect.h),
            self.x as int,
            self.y as int,
        ) < self.r * self.r
    }

    pub fn overlaps_rect(&self, rect: &Rect) -> (b: bool)
        requires
            self.valid(),
            rect.valid(),
        ensures
            b == self.overlaps_rect_spec(*rect),
    {
        let qx = if self.x < rect.x {
            rect.x
        } else if self.x > rect.x + rect.w {
            rect.x + rect.w
        } else {
            self.x
        };
        let qy = if self.y < rect.y {
            rect.y
        } else if self.y > rect.y + rect.h {
            rect.y + rect.h
        } else {
            self.y
        };
        let dx = qx - self.x;
        let dy = qy - self.y;
        proof {
            lemma_sq_bound(dx as int, 2 * (COORD_LIMIT as int));
            lemma_sq_bound(dy as int, 2 * (COORD_LIMIT as int));
            lemma_sq_bound(self.r as int, 2 * (COORD_LIMIT as int));
        }
        dx * dx + dy * dy < self.r * self.r
    }
}

/// Soundness of query pruning: a position inside both a rectangle and a
/// circle witnesses that the circle overlaps the rectangle, so a node whose
/// boundary does not overlap the query circle can hold no matching point.
pub proof fn lemma_contained_point_overlaps(c: Circle, rect: Rect, px: int, py: int)
    requires
        c.valid(),
        rect.valid(),
        rect.contains_spec(px, py),
        c.contains_spec(px, py),
    ensures
        c.overlaps_rect_spec(rect),
{
    let qx = clamp_spec(c.x as int, rect.x as int, rect.x + rect.w);
    let qy = clamp_spec(c.y as int, rect.y as int, rect.y + rect.h);
    lemma_sq_monotone(qx - c.x, px - c.x);
    lemma_sq_monotone(qy - c.y, py - c.y);
}

} // verus!
