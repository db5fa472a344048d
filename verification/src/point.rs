//! The moving points that the spatial index stores: a fixed-point position,
//! a display radius, and the overlap classification derived each tick.

use vstd::prelude::*;
use crate::geometry::{coord_ok, sq_dist, COORD_LIMIT};

verus! {

/// The per-tick classification of a point: `Overlapping` when a circular
/// range query around it finds more than the point itself.
#[derive(Clone, Copy, PartialEq, Eq, Structural, Debug)]
pub enum Tag {
    Normal,
    Overlapping,
}

/// A 2-D point with a display radius and its current classification.
#[derive(Clone, Copy, PartialEq, Eq, Structural, Debug)]
pub struct Point {
    pub x: i64,
    pub y: i64,
    pub radius: i64,
    pub tag: Tag,
}

impl Point {
    pub open spec fn valid(self) -> bool {
        &&& coord_ok(self.x as int)
        &&& coord_ok(self.y as int)
        &&& 0 <= self.radius <= COORD_LIMIT
    }

    /// Replace the position unconditionally; radius and tag are untouched.
    pub fn update_pos(&mut self, nx: i64, ny: i64)
        ensures
            *final(self) == (Point { x: nx, y: ny, ..*old(self) }),
    {
        self.x = nx;
        self.y = ny;
    }

    pub open spec fn intersects_spec(self, other: Point) -> bool {
        sq_dist(self.x as int, self.y as int, other.x as int, other.y as int) < (self.radius
            + other.radius) * (self.radius + other.radius)
    }

    /// Circle-circle overlap: the squared distance between the centers is
    /// strictly below the squared sum of the radii.  The simulation step
    /// classifies through the index instead; this test is the exact
    /// pairwise reference.
    pub fn intersects(&self, other: &Point) -> (b: bool)
        requires
            self.valid(),
            other.valid(),
        ensures
            b == self.intersects_spec(*other),
    {
        let dx = self.x - other.x;
        let dy = self.y - other.y;
        let rs = self.radius + other.radius;
        proof {
            crate::geometry::lemma_sq_bound(dx as int, 2 * (COORD_LIMIT as int));
            crate::geometry::lemma_sq_bound(dy as int, 2 * (COORD_LIMIT as int));
            crate::geometry::lemma_sq_bound(rs as int, 2 * (COORD_LIMIT as int));
        }
        dx * dx + dy * dy < rs * rs
    }
}

} // verus!
