//! The spatial index: a four-way region-partitioning tree over the plane.
//!
//! A node is either a leaf holding up to `capacity` points, or an internal
//! node holding exactly four children whose boundaries quarter its own.  A
//! leaf that receives a point while at capacity subdivides; under the
//! drop-on-subdivision policy chosen here, the points it held and the
//! point that triggered the subdivision are dropped from the index rather
//! than redistributed into the children (the dropped count is reported,
//! and conservation of points is proved against it).  Redistribution would
//! not terminate once more than `capacity` points share one position, so
//! the dropping policy is kept and stated exactly.  A point outside a
//! node's boundary is silently not stored.
//!
//! Contracts are stated over `NodeModel`, a mathematical view of the tree
//! in which a leaf is its boundary, capacity and point sequence, and an
//! internal node is its four child models.

use vstd::prelude::*;
use crate::geometry::{Circle, Rect};
use crate::point::Point;

verus! {

/// The mathematical view of a tree node.
#[verifier::ext_equal]
pub enum NodeModel {
    Leaf { capacity: nat, boundary: Rect, items: Seq<Point> },
    Inner {
        capacity: nat,
        boundary: Rect,
        ne: Box<NodeModel>,
        nw: Box<NodeModel>,
        se: Box<NodeModel>,
        sw: Box<NodeModel>,
    },
}

/// Whether a point's position lies strictly inside the query circle.
pub open spec fn in_range(range: Circle, q: Point) -> bool {
    range.contains_spec(q.x as int, q.y as int)
}

impl NodeModel {
    pub open spec fn capacity(self) -> nat {
        match self {
            NodeModel::Leaf { capacity, .. } => capacity,
            NodeModel::Inner { capacity, .. } => capacity,
        }
    }

    pub open spec fn boundary(self) -> Rect {
        match self {
            NodeModel::Leaf { boundary, .. } => boundary,
            NodeModel::Inner { boundary, .. } => boundary,
        }
    }

    /// Well-formedness: capacities are uniform and at least 1, boundaries
    /// are valid, a leaf holds at most `capacity` points and only points
    /// inside its boundary, and each child's boundary is exactly one
    /// quadrant of its parent's.
    pub open spec fn wf(self) -> bool
        decreases self,
    {
        match self {
            NodeModel::Leaf { capacity, boundary, items } => {
                &&& 1 <= capacity < usize::MAX
                &&& boundary.valid()
                &&& items.len() <= capacity
                &&& forall|i: int|
                    0 <= i < items.len() ==> (#[trigger] items[i]).valid()
                        && boundary.contains_spec(items[i].x as int, items[i].y as int)
            },
            NodeModel::Inner { capacity, boundary, ne, nw, se, sw } => {
                &&& 1 <= capacity < usize::MAX
                &&& boundary.valid()
                &&& ne.boundary() == boundary.ne_quad()
                &&& nw.boundary() == boundary.nw_quad()
                &&& se.boundary() == boundary.se_quad()
                &&& sw.boundary() == boundary.sw_quad()
                &&& ne.capacity() == capacity
                &&& nw.capacity() == capacity
                &&& se.capacity() == capacity
                &&& sw.capacity() == capacity
                &&& ne.wf()
                &&& nw.wf()
                &&& se.wf()
                &&& sw.wf()
            },
        }
    }

    /// Every point the tree holds, in query traversal order: a leaf's own
    /// points, an internal node's children in the order north-west,
    /// north-east, south-west, south-east.
    pub open spec fn points_of(self) -> Seq<Point>
        decreases self,
    {
        match self {
            NodeModel::Leaf { items, .. } => items,
            NodeModel::Inner { ne, nw, se, sw, .. } => nw.points_of() + ne.points_of()
                + sw.points_of() + se.points_of(),
        }
    }

    /// One rectangle per node, in display traversal order: the node's own
    /// boundary, then the children north-east, north-west, south-east,
    /// south-west.
    pub open spec fn rects_of(self) -> Seq<Rect>
        decreases self,
    {
        match self {
            NodeModel::Leaf { boundary, .. } => seq![boundary],
            NodeModel::Inner { boundary, ne, nw, se, sw, .. } => seq![boundary] + ne.rects_of()
                + nw.rects_of() + se.rects_of() + sw.rects_of(),
        }
    }

    /// What a circular range query returns: the held points whose position
    /// lies strictly inside the circle, in traversal order.
    pub open spec fn query_model(self, range: Circle) -> Seq<Point> {
        self.points_of().filter(|q: Point| in_range(range, q))
    }

    /// The tree after one insertion.  A point outside the node's boundary
    /// is not stored; at an internal node the insertion descends into the
    /// one child whose boundary contains the position; a leaf below
    /// capacity appends the point; a leaf at capacity subdivides into four
    /// empty leaves, dropping its held points and the new point.
    pub open spec fn insert_model(self, p: Point) -> NodeModel
        decreases self,
    {
        if !self.boundary().contains_spec(p.x as int, p.y as int) {
            self
        } else {
            match self {
                NodeModel::Inner { capacity, boundary, ne, nw, se, sw } => {
                    if ne.boundary().contains_spec(p.x as int, p.y as int) {
                        NodeModel::Inner { capacity, boundary, ne: Box::new(ne.insert_model(p)), nw, se, sw }
                    } else if nw.boundary().contains_spec(p.x as int, p.y as int) {
                        NodeModel::Inner { capacity, boundary, ne, nw: Box::new(nw.insert_model(p)), se, sw }
                    } else if se.boundary().contains_spec(p.x as int, p.y as int) {
                        NodeModel::Inner { capacity, boundary, ne, nw, se: Box::new(se.insert_model(p)), sw }
                    } else if sw.boundary().contains_spec(p.x as int, p.y as int) {
                        NodeModel::Inner { capacity, boundary, ne, nw, se, sw: Box::new(sw.insert_model(p)) }
                    } else {
                        NodeModel::Inner { capacity, boundary, ne, nw, se, sw }
                    }
                },
                NodeModel::Leaf { capacity, boundary, items } => {
                    if items.len() < capacity {
                        NodeModel::Leaf { capacity, boundary, items: items.push(p) }
                    } else {
                        NodeModel::Inner {
                            capacity,
                            boundary,
                            ne: Box::new(NodeModel::Leaf {
                                capacity,
                                boundary: boundary.ne_quad(),
                                items: Seq::empty(),
                            }),
                            nw: Box::new(NodeModel::Leaf {
                                capacity,
                                boundary: boundary.nw_quad(),
                                items: Seq::empty(),
                            }),
                            se: Box::new(NodeModel::Leaf {
                                capacity,
                                boundary: boundary.se_quad(),
                                items: Seq::empty(),
                            }),
                            sw: Box::new(NodeModel::Leaf {
                                capacity,
                                boundary: boundary.sw_quad(),
                                items: Seq::empty(),
                            }),
                        }
                    }
                },
            }
        }
    }

    /// How many points one insertion removes from the index's results, net
    /// of the arriving point: 1 when the point is not stored (outside the
    /// boundary, or no child claims it), `capacity + 1` when it triggers a
    /// subdivision, 0 when it is stored.
    pub open spec fn insert_dropped(self, p: Point) -> int
        decreases self,
    {
        if !self.boundary().contains_spec(p.x as int, p.y as int) {
            1
        } else {
            match self {
                NodeModel::Inner { ne, nw, se, sw, .. } => {
                    if ne.boundary().contains_spec(p.x as int, p.y as int) {
                        ne.insert_dropped(p)
                    } else if nw.boundary().contains_spec(p.x as int, p.y as int) {
                        nw.insert_dropped(p)
                    } else if se.boundary().contains_spec(p.x as int, p.y as int) {
                        se.insert_dropped(p)
                    } else if sw.boundary().contains_spec(p.x as int, p.y as int) {
                        sw.insert_dropped(p)
                    } else {
                        1
                    }
                },
                NodeModel::Leaf { capacity, items, .. } => {
                    if items.len() < capacity {
                        0
                    } else {
                        capacity as int + 1
                    }
                },
            }
        }
    }
}

/// The index built from a point sequence: every point inserted in order
/// into an empty leaf over `bounds`.
pub open spec fn build_model(points: Seq<Point>, capacity: nat, bounds: Rect) -> NodeModel
    decreases points.len(),
{
    if points.len() == 0 {
        NodeModel::Leaf { capacity, boundary: bounds, items: Seq::empty() }
    } else {
        build_model(points.drop_last(), capacity, bounds).insert_model(points.last())
    }
}

/// The total number of points dropped while building the index.
pub open spec fn build_dropped(points: Seq<Point>, capacity: nat, bounds: Rect) -> int
    decreases points.len(),
{
    if points.len() == 0 {
        0
    } else {
        build_dropped(points.drop_last(), capacity, bounds) + build_model(
            points.drop_last(),
            capacity,
            bounds,
        ).insert_dropped(points.last())
    }
}

/// A sequence none of whose elements satisfies the predicate filters to
/// the empty sequence.
proof fn lemma_filter_none<A>(s: Seq<A>, pred: spec_fn(A) -> bool)
    requires
        forall|i: int| 0 <= i < s.len() ==> !pred(#[trigger] s[i]),
    ensures
        s.filter(pred) == Seq::<A>::empty(),
    decreases s.len(),
{
    reveal(Seq::filter);
    if s.len() == 0 {
        assert(s =~= Seq::<A>::empty());
    } else {
        lemma_filter_none(s.drop_last(), pred);
        assert(!pred(s.last()));
    }
}

/// A sequence all of whose elements satisfy the predicate filters to
/// itself.
proof fn lemma_filter_all<A>(s: Seq<A>, pred: spec_fn(A) -> bool)
    requires
        forall|i: int| 0 <= i < s.len() ==> pred(#[trigger] s[i]),
    ensures
        s.filter(pred) == s,
    decreases s.len(),
{
    reveal(Seq::filter);
    if s.len() == 0 {
    } else {
        lemma_filter_all(s.drop_last(), pred);
        assert(pred(s.last()));
        assert(s.drop_last().push(s.last()) =~= s);
    }
}

impl NodeModel {
    /// Every point a well-formed tree holds is valid and lies inside the
    /// tree's boundary.
    pub proof fn lemma_points_in_boundary(self)
        requires
            self.wf(),
        ensures
            forall|i: int|
                0 <= i < self.points_of().len() ==> (#[trigger] self.points_of()[i]).valid()
                    && self.boundary().contains_spec(
                    self.points_of()[i].x as int,
                    self.points_of()[i].y as int,
                ),
        decreases self,
    {
        match self {
            NodeModel::Leaf { .. } => {},
            NodeModel::Inner { ne, nw, se, sw, boundary, .. } => {
                ne.lemma_points_in_boundary();
                nw.lemma_points_in_boundary();
                se.lemma_points_in_boundary();
                sw.lemma_points_in_boundary();
                let s = self.points_of();
                assert forall|i: int| 0 <= i < s.len() implies (#[trigger] s[i]).valid()
                    && boundary.contains_spec(s[i].x as int, s[i].y as int) by {
                    crate::geometry::lemma_quadrants_tile(boundary, s[i].x as int, s[i].y as int);
                }
            },
        }
    }

    /// Pruning soundness: a query circle that does not overlap the tree's
    /// boundary matches none of the tree's points.
    pub proof fn lemma_prune_empty(self, range: Circle)
        requires
            self.wf(),
            range.valid(),
            !range.overlaps_rect_spec(self.boundary()),
        ensures
            self.query_model(range) == Seq::<Point>::empty(),
    {
        self.lemma_points_in_boundary();
        let s = self.points_of();
        assert forall|i: int| 0 <= i < s.len() implies !(|q: Point| in_range(range, q))(
            #[trigger] s[i],
        ) by {
            if in_range(range, s[i]) {
                crate::geometry::lemma_contained_point_overlaps(
                    range,
                    self.boundary(),
                    s[i].x as int,
                    s[i].y as int,
                );
            }
        }
        lemma_filter_none(s, |q: Point| in_range(range, q));
    }

    /// Insertion preserves well-formedness and leaves the node's boundary
    /// and capacity unchanged.
    pub proof fn lemma_insert_model_wf(self, p: Point)
        requires
            self.wf(),
            p.valid(),
        ensures
            self.insert_model(p).wf(),
            self.insert_model(p).boundary() == self.boundary(),
            self.insert_model(p).capacity() == self.capacity(),
        decreases self,
    {
        if self.boundary().contains_spec(p.x as int, p.y as int) {
            match self {
                NodeModel::Inner { ne, nw, se, sw, .. } => {
                    if ne.boundary().contains_spec(p.x as int, p.y as int) {
                        ne.lemma_insert_model_wf(p);
                    } else if nw.boundary().contains_spec(p.x as int, p.y as int) {
                        nw.lemma_insert_model_wf(p);
                    } else if se.boundary().contains_spec(p.x as int, p.y as int) {
                        se.lemma_insert_model_wf(p);
                    } else if sw.boundary().contains_spec(p.x as int, p.y as int) {
                        sw.lemma_insert_model_wf(p);
                    }
                },
                NodeModel::Leaf { capacity, boundary, items } => {
                    if items.len() < capacity {
                    } else {
                        crate::geometry::lemma_quadrants_valid(boundary);
                        assert((NodeModel::Leaf {
                            capacity,
                            boundary: boundary.ne_quad(),
                            items: Seq::<Point>::empty(),
                        }).wf());
                        assert((NodeModel::Leaf {
                            capacity,
                            boundary: boundary.nw_quad(),
                            items: Seq::<Point>::empty(),
                        }).wf());
                        assert((NodeModel::Leaf {
                            capacity,
                            boundary: boundary.se_quad(),
                            items: Seq::<Point>::empty(),
                        }).wf());
                        assert((NodeModel::Leaf {
                            capacity,
                            boundary: boundary.sw_quad(),
                            items: Seq::<Point>::empty(),
                        }).wf());
                    }
                },
            }
        }
    }

    /// Conservation: one insertion adds one point to the index's contents,
    /// less exactly the number `insert_dropped` accounts as dropped.
    pub proof fn lemma_insert_model_count(self, p: Point)
        requires
            self.wf(),
        ensures
            self.insert_model(p).points_of().len() + self.insert_dropped(p)
                == self.points_of().len() + 1,
        decreases self,
    {
        if self.boundary().contains_spec(p.x as int, p.y as int) {
            match self {
                NodeModel::Inner { ne, nw, se, sw, .. } => {
                    if ne.boundary().contains_spec(p.x as int, p.y as int) {
                        ne.lemma_insert_model_count(p);
                    } else if nw.boundary().contains_spec(p.x as int, p.y as int) {
                        nw.lemma_insert_model_count(p);
                    } else if se.boundary().contains_spec(p.x as int, p.y as int) {
                        se.lemma_insert_model_count(p);
                    } else if sw.boundary().contains_spec(p.x as int, p.y as int) {
                        sw.lemma_insert_model_count(p);
                    }
                },
                NodeModel::Leaf { capacity, boundary, items } => {
                    if items.len() < capacity {
                    } else {
                        assert((NodeModel::Leaf {
                            capacity,
                            boundary: boundary.ne_quad(),
                            items: Seq::<Point>::empty(),
                        }).points_of().len() == 0);
                        assert((NodeModel::Leaf {
                            capacity,
                            boundary: boundary.nw_quad(),
                            items: Seq::<Point>::empty(),
                        }).points_of().len() == 0);
                        assert((NodeModel::Leaf {
                            capacity,
                            boundary: boundary.se_quad(),
                            items: Seq::<Point>::empty(),
                        }).points_of().len() == 0);
                        assert((NodeModel::Leaf {
                            capacity,
                            boundary: boundary.sw_quad(),
                            items: Seq::<Point>::empty(),
                        }).points_of().len() == 0);
                        assert(self.insert_model(p).points_of().len() == 0);
                    }
                },
            }
        }
    }
}

/// Containment: a query whose region covers a tree's whole boundary
/// returns exactly the points the tree holds, in order — no loss, no
/// duplication.  In particular a leaf filled without triggering
/// subdivision answers such a query with exactly its own points.
pub proof fn lemma_query_covering_complete(m: NodeModel, range: Circle)
    requires
        m.wf(),
        forall|px: int, py: int| #[trigger]
            m.boundary().contains_spec(px, py) ==> range.contains_spec(px, py),
    ensures
        m.query_model(range) == m.points_of(),
{
    m.lemma_points_in_boundary();
    let s = m.points_of();
    assert forall|i: int| 0 <= i < s.len() implies (|q: Point| in_range(range, q))(
        #[trigger] s[i],
    ) by {
        assert(m.boundary().contains_spec(s[i].x as int, s[i].y as int));
    }
    lemma_filter_all(s, |q: Point| in_range(range, q));
}

/// Pruning correctness: a query never returns a point whose position lies
/// outside the query range.
pub proof fn lemma_query_sound(m: NodeModel, range: Circle, i: int)
    requires
        0 <= i < m.query_model(range).len(),
    ensures
        in_range(range, m.query_model(range)[i]),
{
    m.points_of().lemma_filter_pred(|q: Point| in_range(range, q), i);
}

/// Idempotent rebuild: building from the same point sequence twice, with
/// the same capacity and bounds and hence the same insertion order,
/// yields the same tree model — identical node structure and identical
/// per-node point membership.
pub proof fn lemma_build_deterministic(
    points1: Seq<Point>,
    points2: Seq<Point>,
    capacity: nat,
    bounds: Rect,
)
    requires
        points1 == points2,
    ensures
        build_model(points1, capacity, bounds) == build_model(points2, capacity, bounds),
{
}

/// Conservation under the drop-on-subdivision policy: the points the
/// built index holds, plus those the build dropped, account exactly for
/// the input points.
pub proof fn lemma_build_conservation(points: Seq<Point>, capacity: nat, bounds: Rect)
    requires
        1 <= capacity < usize::MAX,
        bounds.valid(),
        forall|i: int| 0 <= i < points.len() ==> (#[trigger] points[i]).valid(),
    ensures
        build_model(points, capacity, bounds).wf(),
        build_model(points, capacity, bounds).boundary() == bounds,
        build_model(points, capacity, bounds).capacity() == capacity,
        build_model(points, capacity, bounds).points_of().len() + build_dropped(
            points,
            capacity,
            bounds,
        ) == points.len(),
    decreases points.len(),
{
    if points.len() == 0 {
    } else {
        lemma_build_conservation(points.drop_last(), capacity, bounds);
        let m = build_model(points.drop_last(), capacity, bounds);
        m.lemma_insert_model_wf(points.last());
        m.lemma_insert_model_count(points.last());
    }
}

/// The anomalous conditions the index rejects at construction.
#[derive(Clone, Copy, PartialEq, Eq, Structural, Debug)]
pub enum QuadTreeError {
    /// The node capacity was 0, which would force unbounded subdivision.
    InvalidConfiguration,
}

/// The spatial index.  `subdivided` is irreversible for a node's lifetime;
/// the four children are present as a group exactly when it is set.
pub struct QuadTree {
    capacity: usize,
    boundary: Rect,
    subdivided: bool,
    items: Vec<Point>,
    northeast: Option<Box<QuadTree>>,
    northwest: Option<Box<QuadTree>>,
    southeast: Option<Box<QuadTree>>,
    southwest: Option<Box<QuadTree>>,
}

impl QuadTree {
    /// Structural invariant tying the `subdivided` flag to the presence of
    /// the four children and to the leaf's point storage.
    pub closed spec fn inv(self) -> bool
        decreases self,
    {
        if self.subdivided {
            &&& self.items@.len() == 0
            &&& self.northeast is Some
            &&& self.northwest is Some
            &&& self.southeast is Some
            &&& self.southwest is Some
            &&& QuadTree::opt_inv(self.northeast)
            &&& QuadTree::opt_inv(self.northwest)
            &&& QuadTree::opt_inv(self.southeast)
            &&& QuadTree::opt_inv(self.southwest)
        } else {
            &&& self.northeast is None
            &&& self.northwest is None
            &&& self.southeast is None
            &&& self.southwest is None
        }
    }

    pub closed spec fn opt_inv(o: Option<Box<QuadTree>>) -> bool
        decreases o,
    {
        match o {
            Option::None => true,
            Option::Some(t) => t.inv(),
        }
    }

    pub closed spec fn as_model(self) -> NodeModel
        decreases self,
    {
        if self.subdivided {
            NodeModel::Inner {
                capacity: self.capacity as nat,
                boundary: self.boundary,
                ne: Box::new(QuadTree::opt_model(self.northeast)),
                nw: Box::new(QuadTree::opt_model(self.northwest)),
                se: Box::new(QuadTree::opt_model(self.southeast)),
                sw: Box::new(QuadTree::opt_model(self.southwest)),
            }
        } else {
            NodeModel::Leaf {
                capacity: self.capacity as nat,
                boundary: self.boundary,
                items: self.items@,
            }
        }
    }

    pub closed spec fn opt_model(o: Option<Box<QuadTree>>) -> NodeModel
        decreases o,
    {
        match o {
            Option::None => NodeModel::Leaf {
                capacity: 0,
                boundary: Rect { x: 0, y: 0, w: 0, h: 0 },
                items: Seq::empty(),
            },
            Option::Some(t) => t.as_model(),
        }
    }

    /// Create an empty leaf over `boundary`.  A capacity of 0 is rejected,
    /// since it would force every insertion to subdivide forever.
    pub fn new(capacity: usize, boundary: Rect) -> (r: Result<QuadTree, QuadTreeError>)
        requires
            boundary.valid(),
            capacity < usize::MAX,
        ensures
            r is Ok <==> capacity >= 1,
            r is Err ==> r->Err_0 == QuadTreeError::InvalidConfiguration,
            r is Ok ==> r->Ok_0.inv() && r->Ok_0@ == (NodeModel::Leaf {
                capacity: capacity as nat,
                boundary,
                items: Seq::<Point>::empty(),
            }) && r->Ok_0@.wf(),
    {
        if capacity == 0 {
            return Err(QuadTreeError::InvalidConfiguration);
        }
        Ok(QuadTree {
            capacity,
            boundary,
            subdivided: false,
            items: Vec::new(),
            northeast: None,
            northwest: None,
            southeast: None,
            southwest: None,
        })
    }
    fn leaf(capacity: usize, boundary: Rect) -> (t: QuadTree)
        ensures
            t.inv(),
            t@ == (NodeModel::Leaf {
                capacity: capacity as nat,
                boundary,
                items: Seq::<Point>::empty(),
            }),
    {
        QuadTree {
            capacity,
            boundary,
            subdivided: false,
            items: Vec::new(),
            northeast: None,
            northwest: None,
            southeast: None,
            southwest: None,
        }
    }

    /// Unfolds the model of a subdivided node: the four children are
    /// present, well formed, and their boundaries are the quadrants.
    proof fn lemma_child_facts(t: QuadTree)
        requires
            t.inv(),
            t.as_model().wf(),
            t.subdivided,
        ensures
            t.northeast is Some && t.northwest is Some && t.southeast is Some
                && t.southwest is Some,
            t.northeast.unwrap().inv() && t.northwest.unwrap().inv()
                && t.southeast.unwrap().inv() && t.southwest.unwrap().inv(),
            t.northeast.unwrap().as_model().wf() && t.northwest.unwrap().as_model().wf()
                && t.southeast.unwrap().as_model().wf() && t.southwest.unwrap().as_model().wf(),
            t.northeast.unwrap().boundary == t.boundary.ne_quad() && t.northwest.unwrap().boundary
                == t.boundary.nw_quad() && t.southeast.unwrap().boundary == t.boundary.se_quad()
                && t.southwest.unwrap().boundary == t.boundary.sw_quad(),
            t.northeast.unwrap().boundary.valid() && t.northwest.unwrap().boundary.valid()
                && t.southeast.unwrap().boundary.valid() && t.southwest.unwrap().boundary.valid(),
    {
        assert(QuadTree::opt_model(t.northeast) == t.northeast.unwrap().as_model());
        assert(QuadTree::opt_model(t.northwest) == t.northwest.unwrap().as_model());
        assert(QuadTree::opt_model(t.southeast) == t.southeast.unwrap().as_model());
        assert(QuadTree::opt_model(t.southwest) == t.southwest.unwrap().as_model());
        assert(t.northeast.unwrap().as_model().boundary() == t.northeast.unwrap().boundary);
        assert(t.northwest.unwrap().as_model().boundary() == t.northwest.unwrap().boundary);
        assert(t.southeast.unwrap().as_model().boundary() == t.southeast.unwrap().boundary);
        assert(t.southwest.unwrap().as_model().boundary() == t.southwest.unwrap().boundary);
    }

    /// Insert one point, reporting how many points the operation dropped
    /// from the index's contents: 1 when the point was not stored, the
    /// node capacity plus 1 when it triggered a subdivision, 0 otherwise.
    pub(crate) fn insert_impl(&mut self, p: Point) -> (dropped: usize)
        requires
            old(self).inv(),
            old(self)@.wf(),
            p.valid(),
        ensures
            final(self).inv(),
            final(self)@ == old(self)@.insert_model(p),
            dropped == old(self)@.insert_dropped(p),
        decreases *old(self),
    {
        if !self.boundary.contains(p.x, p.y) {
            return 1;
        }
        if self.subdivided {
            proof {
                QuadTree::lemma_child_facts(*self);
            }
            let mut ne_child = self.northeast.take().unwrap();
            if ne_child.boundary.contains(p.x, p.y) {
                let dropped = ne_child.insert_impl(p);
                self.northeast = Some(ne_child);
                return dropped;
            }
            self.northeast = Some(ne_child);
            let mut nw_child = self.northwest.take().unwrap();
            if nw_child.boundary.contains(p.x, p.y) {
                let dropped = nw_child.insert_impl(p);
                self.northwest = Some(nw_child);
                return dropped;
            }
            self.northwest = Some(nw_child);
            let mut se_child = self.southeast.take().unwrap();
            if se_child.boundary.contains(p.x, p.y) {
                let dropped = se_child.insert_impl(p);
                self.southeast = Some(se_child);
                return dropped;
            }
            self.southeast = Some(se_child);
            let mut sw_child = self.southwest.take().unwrap();
            if sw_child.boundary.contains(p.x, p.y) {
                let dropped = sw_child.insert_impl(p);
                self.southwest = Some(sw_child);
                return dropped;
            }
            self.southwest = Some(sw_child);
            proof {
                crate::geometry::lemma_quadrants_tile(self.boundary, p.x as int, p.y as int);
            }
            return 1;
        }
        if self.items.len() < self.capacity {
            self.items.push(p);
            return 0;
        }
        let q = self.boundary.quadrants();
        self.subdivided = true;
        self.items = Vec::new();
        self.northeast = Some(Box::new(QuadTree::leaf(self.capacity, q.0)));
        self.northwest = Some(Box::new(QuadTree::leaf(self.capacity, q.1)));
        self.southeast = Some(Box::new(QuadTree::leaf(self.capacity, q.2)));
        self.southwest = Some(Box::new(QuadTree::leaf(self.capacity, q.3)));
        self.capacity + 1
    }

    /// Insert one point.  A point outside the root boundary is silently
    /// not stored; a point arriving at a leaf already at capacity makes
    /// the leaf subdivide, dropping its held points and the new point
    /// (the drop-on-subdivision policy, accounted for exactly by
    /// `NodeModel::insert_dropped`).
    pub fn insert(&mut self, p: Point)
        requires
            old(self).inv(),
            old(self)@.wf(),
            p.valid(),
        ensures
            final(self).inv(),
            final(self)@ == old(self)@.insert_model(p),
            final(self)@.wf(),
    {
        proof {
            old(self)@.lemma_insert_model_wf(p);
        }
        self.insert_impl(p);
    }

    /// Collect every held point whose position lies strictly inside
    /// `range`, pruning subtrees whose boundary the circle does not
    /// overlap.  The result is a fresh vector in traversal order: this
    /// node's points, then the children north-west, north-east,
    /// south-west, south-east.
    pub fn query(&self, range: Circle) -> (res: Vec<Point>)
        requires
            self.inv(),
            self@.wf(),
            range.valid(),
        ensures
            res@ == self@.query_model(range),
        decreases *self,
    {
        let mut res: Vec<Point> = Vec::new();
        if !range.overlaps_rect(&self.boundary) {
            proof {
                self@.lemma_prune_empty(range);
            }
            return res;
        }
        proof {
            if !self.subdivided {
                assert(self@ == (NodeModel::Leaf {
                    capacity: self.capacity as nat,
                    boundary: self.boundary,
                    items: self.items@,
                }));
            }
        }
        let ghost pred = |q: Point| in_range(range, q);
        let mut i: usize = 0;
        while i < self.items.len()
            invariant
                0 <= i <= self.items@.len(),
                res@ == self.items@.take(i as int).filter(pred),
                pred == (|q: Point| in_range(range, q)),
                forall|j: int| 0 <= j < self.items@.len() ==> (#[trigger] self.items@[j]).valid(),
                range.valid(),
            decreases self.items@.len() - i,
        {
            let p = self.items[i];
            if range.contains(p.x, p.y) {
                res.push(p);
            }
            i += 1;
            proof {
                reveal(Seq::filter);
                assert(self.items@.take(i as int).drop_last() =~= self.items@.take(i - 1));
                assert(self.items@.take(i as int).last() == self.items@[i - 1]);
            }
        }
        proof {
            assert(self.items@.take(self.items@.len() as int) =~= self.items@);
        }
        if self.subdivided {
            proof {
                QuadTree::lemma_child_facts(*self);
            }
            let mut nw_res = self.northwest.as_ref().unwrap().query(range);
            res.append(&mut nw_res);
            let mut ne_res = self.northeast.as_ref().unwrap().query(range);
            res.append(&mut ne_res);
            let mut sw_res = self.southwest.as_ref().unwrap().query(range);
            res.append(&mut sw_res);
            let mut se_res = self.southeast.as_ref().unwrap().query(range);
            res.append(&mut se_res);
            proof {
                let pnw = QuadTree::opt_model(self.northwest).points_of();
                let pne = QuadTree::opt_model(self.northeast).points_of();
                let psw = QuadTree::opt_model(self.southwest).points_of();
                let pse = QuadTree::opt_model(self.southeast).points_of();
                assert(self@.points_of() == pnw + pne + psw + pse);
                Seq::<Point>::filter_distributes_over_add(pnw + pne + psw, pse, pred);
                Seq::<Point>::filter_distributes_over_add(pnw + pne, psw, pred);
                Seq::<Point>::filter_distributes_over_add(pnw, pne, pred);
                assert(self.items@.filter(pred) == Seq::<Point>::empty()) by {
                    reveal(Seq::filter);
                    assert(self.items@ =~= Seq::<Point>::empty());
                }
            }
        }
        res
    }

    /// The number of points the index currently holds.
    pub fn len(&self) -> (n: usize)
        requires
            self.inv(),
            self@.points_of().len() <= usize::MAX,
        ensures
            n == self@.points_of().len(),
        decreases *self,
    {
        if self.subdivided {
            proof {
                assert(QuadTree::opt_model(self.northeast)
                    == self.northeast.unwrap().as_model());
                assert(QuadTree::opt_model(self.northwest)
                    == self.northwest.unwrap().as_model());
                assert(QuadTree::opt_model(self.southeast)
                    == self.southeast.unwrap().as_model());
                assert(QuadTree::opt_model(self.southwest)
                    == self.southwest.unwrap().as_model());
            }
            let a = self.northwest.as_ref().unwrap().len();
            let b = self.northeast.as_ref().unwrap().len();
            let c = self.southwest.as_ref().unwrap().len();
            let d = self.southeast.as_ref().unwrap().len();
            a + b + c + d
        } else {
            self.items.len()
        }
    }

    /// The node's boundary rectangle.
    pub fn boundary(&self) -> (r: Rect)
        ensures
            r == self@.boundary(),
    {
        self.boundary
    }

    /// Whether the node has subdivided into four children.
    pub fn is_subdivided(&self) -> (b: bool)
        ensures
            b == (self@ is Inner),
    {
        self.subdivided
    }

    /// Whether a point's position lies within the node's boundary.
    pub fn contains(&self, point: &Point) -> (b: bool)
        requires
            self@.wf(),
        ensures
            b == self@.boundary().contains_spec(point.x as int, point.y as int),
    {
        proof {
            assert(self@.boundary() == self.boundary);
        }
        self.boundary.contains(point.x, point.y)
    }

    /// A faithful walk of the tree for the rendering layer: one rectangle
    /// per node boundary, parent first, then the children in the order
    /// north-east, north-west, south-east, south-west.
    pub fn display(&self) -> (r: Vec<Rect>)
        requires
            self.inv(),
        ensures
            r@ == self@.rects_of(),
        decreases *self,
    {
        let mut r: Vec<Rect> = Vec::new();
        r.push(self.boundary);
        proof {
            assert(r@ =~= seq![self.boundary]);
        }
        if self.subdivided {
            proof {
                assert(QuadTree::opt_model(self.northeast)
                    == self.northeast.unwrap().as_model());
                assert(QuadTree::opt_model(self.northwest)
                    == self.northwest.unwrap().as_model());
                assert(QuadTree::opt_model(self.southeast)
                    == self.southeast.unwrap().as_model());
                assert(QuadTree::opt_model(self.southwest)
                    == self.southwest.unwrap().as_model());
            }
            let mut a = self.northeast.as_ref().unwrap().display();
            r.append(&mut a);
            let mut b = self.northwest.as_ref().unwrap().display();
            r.append(&mut b);
            let mut c = self.southeast.as_ref().unwrap().display();
            r.append(&mut c);
            let mut d = self.southwest.as_ref().unwrap().display();
            r.append(&mut d);
        }
        r
    }
}

impl View for QuadTree {
    type V = NodeModel;

    open spec fn view(&self) -> NodeModel {
        self.as_model()
    }
}

} // verus!
