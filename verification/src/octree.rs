//! The octree traversal capability the core consumes, and a simple
//! in-memory implementation of it.
//!
//! The octree's storage layout and geometry are collaborators' business:
//! the core only asks which nodes a query touches and which points of a
//! node the query accepts. The trait below states exactly the guarantees
//! the orchestration relies on.

use vstd::prelude::*;

use crate::frame::Frame;
use crate::point::{Point, Vec3};
use crate::query::{PointLocation, PointQuery};

verus! {

/// Opaque identifier of one octree node; interpreted only by the octree it
/// came from.
#[derive(Clone, Copy, Debug, PartialEq, Eq, Structural, Hash)]
pub struct NodeId(pub u64);

/// Read-only traversal capability of one octree.
///
/// The spec functions fix, per octree value, the node inventory
/// (`node_ids`, `points_of`) and the traversal outcome for a query
/// (`matching_nodes`, `selected`); `traversal_laws` binds the two together:
/// node enumeration may over-approximate but never misses a node with
/// selected points, the unconstrained query selects everything, and which
/// points a query selects does not depend on its local frame (culling is
/// evaluated in the octree's own coordinates; the frame only re-expresses
/// the output).
pub trait Octree<T: Frame>: Sized {
    /// All node identifiers of this octree, without repetition.
    spec fn node_ids(&self) -> Seq<NodeId>;

    /// The points stored in one node, in the octree's traversal order.
    spec fn points_of(&self, n: NodeId) -> Seq<Point>;

    /// The node identifiers enumerated for a query, in enumeration order.
    spec fn matching_nodes(&self, q: PointQuery<T>) -> Seq<NodeId>;

    /// The points of one node that the query's culling accepts, in
    /// traversal order. Stable for a given octree, query and node.
    spec fn selected(&self, q: PointQuery<T>, n: NodeId) -> Seq<Point>;

    proof fn traversal_laws(&self, q: PointQuery<T>)
        ensures
            self.node_ids().no_duplicates(),
            self.matching_nodes(q).no_duplicates(),
            forall|i: int|
                0 <= i < self.matching_nodes(q).len() ==> self.node_ids().contains(
                    #[trigger] self.matching_nodes(q)[i],
                ),
            forall|n: NodeId|
                self.node_ids().contains(n) && !self.matching_nodes(q).contains(n) ==> (
                #[trigger] self.selected(q, n)).len() == 0,
            q.location is AllPoints ==> self.matching_nodes(q) == self.node_ids(),
            q.location is AllPoints ==> forall|n: NodeId|
                self.node_ids().contains(n) ==> #[trigger] self.selected(q, n) == self.points_of(
                    n,
                ),
            self.matching_nodes(q) == self.matching_nodes(q.unframed()),
            forall|n: NodeId| #[trigger] self.selected(q, n) == self.selected(q.unframed(), n),
    ;

    /// Enumerate the nodes whose volume may contain points the query
    /// accepts. Over-approximation is allowed; omission is not (see
    /// `traversal_laws`).
    fn nodes_in_location(&self, q: &PointQuery<T>) -> (r: Vec<NodeId>)
        ensures
            r@ == self.matching_nodes(*q),
    ;

    /// Yield the points of one node that the query accepts, applying the
    /// culling per point.
    fn points_in_node(&self, q: &PointQuery<T>, node_id: NodeId) -> (r: Vec<Point>)
        ensures
            r@ == self.selected(*q, node_id),
    ;
}

/// Whether a query accepts a point under the in-memory octree's reading of
/// coordinate words: axis-aligned boxes filter by unsigned comparison per
/// axis, the unconstrained query accepts everything, and the oriented
/// shapes are treated conservatively as all-accepting.
pub open spec fn accepts<T: Frame>(q: PointQuery<T>, p: Point) -> bool {
    match q.location {
        PointLocation::AllPoints => true,
        PointLocation::Aabb(b) => {
            &&& b.min.x <= p.position.x <= b.max.x
            &&& b.min.y <= p.position.y <= b.max.y
            &&& b.min.z <= p.position.z <= b.max.z
        },
        _ => true,
    }
}

/// The subsequence of `pts` that `q` accepts, in order.
pub open spec fn filter_points<T: Frame>(pts: Seq<Point>, q: PointQuery<T>) -> Seq<Point>
    decreases pts.len(),
{
    if pts.len() == 0 {
        Seq::empty()
    } else {
        filter_points(pts.drop_last(), q) + if accepts(q, pts.last()) {
            seq![pts.last()]
        } else {
            Seq::empty()
        }
    }
}

/// The unconstrained query filters nothing out.
pub proof fn lemma_filter_points_all<T: Frame>(pts: Seq<Point>, q: PointQuery<T>)
    requires
        q.location is AllPoints,
    ensures
        filter_points(pts, q) == pts,
    decreases pts.len(),
{
    if pts.len() > 0 {
        lemma_filter_points_all::<T>(pts.drop_last(), q);
    }
    assert(filter_points(pts, q) =~= pts);
}

/// Queries with the same region filter alike: `accepts` reads the
/// location only.
pub proof fn lemma_filter_points_same_location<T: Frame>(
    pts: Seq<Point>,
    q1: PointQuery<T>,
    q2: PointQuery<T>,
)
    requires
        q1.location == q2.location,
    ensures
        filter_points(pts, q1) == filter_points(pts, q2),
    decreases pts.len(),
{
    if pts.len() > 0 {
        lemma_filter_points_same_location(pts.drop_last(), q1, q2);
    }
    assert(filter_points(pts, q1) =~= filter_points(pts, q2));
}

/// Decide `accepts` for one point.
pub fn point_matches<T: Frame>(q: &PointQuery<T>, p: &Point) -> (r: bool)
    ensures
        r == accepts(*q, *p),
{
    match &q.location {
        PointLocation::AllPoints => true,
        PointLocation::Aabb(b) => {
            b.min.x <= p.position.x && p.position.x <= b.max.x && b.min.y <= p.position.y
                && p.position.y <= b.max.y && b.min.z <= p.position.z && p.position.z <= b.max.z
        },
        _ => true,
    }
}

/// A flat in-memory octree: node `k` holds the `k`-th point list. It
/// enumerates every node for every query (a sound over-approximation) and
/// culls per point with `accepts`.
pub struct VecOctree {
    pub nodes: Vec<Vec<Point>>,
}

impl VecOctree {
    /// The node inventory: one identifier per stored point list.
    pub open spec fn ids(&self) -> Seq<NodeId> {
        Seq::new(self.nodes@.len(), |i: int| NodeId(i as u64))
    }

    /// The points stored under one identifier.
    pub open spec fn stored(&self, n: NodeId) -> Seq<Point> {
        if n.0 < self.nodes@.len() {
            self.nodes@[n.0 as int]@
        } else {
            Seq::empty()
        }
    }
}

impl<T: Frame> Octree<T> for VecOctree {
    open spec fn node_ids(&self) -> Seq<NodeId> {
        self.ids()
    }

    open spec fn points_of(&self, n: NodeId) -> Seq<Point> {
        self.stored(n)
    }

    open spec fn matching_nodes(&self, q: PointQuery<T>) -> Seq<NodeId> {
        self.ids()
    }

    open spec fn selected(&self, q: PointQuery<T>, n: NodeId) -> Seq<Point> {
        filter_points(self.stored(n), q)
    }

    proof fn traversal_laws(&self, q: PointQuery<T>) {
        let ids = self.ids();
        vstd::std_specs::vec::axiom_spec_len(&self.nodes);
        assert forall|i: int, j: int| 0 <= i < ids.len() && 0 <= j < ids.len() && i != j implies ids[i]
            != ids[j] by {
            assert(ids.len() <= usize::MAX);
            assert(ids[i].0 == i as u64);
            assert(ids[j].0 == j as u64);
            assert(i as u64 != j as u64);
        }
        assert(ids.no_duplicates());
        if q.location is AllPoints {
            assert forall|n: NodeId| ids.contains(n) implies #[trigger] Octree::<T>::selected(
                self,
                q,
                n,
            ) == Octree::<T>::points_of(self, n) by {
                lemma_filter_points_all::<T>(self.stored(n), q);
            }
        }
        assert forall|n: NodeId| #[trigger] Octree::<T>::selected(self, q, n) == Octree::<
            T,
        >::selected(self, q.unframed(), n) by {
            lemma_filter_points_same_location(self.stored(n), q, q.unframed());
        }
    }

    fn nodes_in_location(&self, q: &PointQuery<T>) -> (r: Vec<NodeId>)
    {
        let ghost ids = Octree::<T>::node_ids(self);
        let mut r: Vec<NodeId> = Vec::new();
        let n = self.nodes.len();
        let mut i: usize = 0;
        while i < n
            invariant
                i <= n,
                n == self.nodes@.len(),
                ids == Octree::<T>::node_ids(self),
                r@ == ids.take(i as int),
            decreases n - i,
        {
            r.push(NodeId(i as u64));
            i = i + 1;
            proof {
                assert(r@ =~= ids.take(i as int));
            }
        }
        proof {
            assert(r@ =~= ids);
        }
        r
    }

    fn points_in_node(&self, q: &PointQuery<T>, node_id: NodeId) -> (r: Vec<Point>)
    {
        let mut r: Vec<Point> = Vec::new();
        if node_id.0 >= self.nodes.len() as u64 {
            proof {
                assert(Octree::<T>::selected(self, *q, node_id) =~= Seq::<Point>::empty());
            }
            return r;
        }
        let idx = node_id.0 as usize;
        let pts = &self.nodes[idx];
        let m = pts.len();
        let mut j: usize = 0;
        while j < m
            invariant
                j <= m,
                m == pts@.len(),
                pts@ == Octree::<T>::points_of(self, node_id),
                r@ == filter_points(pts@.take(j as int), *q),
            decreases m - j,
        {
            let p = pts[j];
            proof {
                assert(pts@.take(j + 1 as int).drop_last() =~= pts@.take(j as int));
                assert(pts@.take(j + 1 as int).last() == p);
            }
            if point_matches(q, &p) {
                r.push(p);
            }
            j = j + 1;
        }
        proof {
            assert(pts@.take(m as int) =~= pts@);
        }
        r
    }
}

} // verus!
