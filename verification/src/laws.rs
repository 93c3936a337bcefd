//! The library-wide laws: what a whole query delivers, stated over the
//! spec-level rows that [`crate::batch_iterator::BatchIterator`] pins its
//! deliveries to.

use vstd::prelude::*;

use crate::batch_iterator::{local_frame, node_rows, octree_rows, query_rows};
use crate::frame::Frame;
use crate::octree::{accepts, filter_points, NodeId, Octree, VecOctree};
use crate::point::{
    batch_wf, colors_of, delivered_intensities, delivered_positions, intensities_of, Point,
    PointData,
};
use crate::query::PointQuery;
use crate::stream::out_positions;

verus! {

/// The points one octree stores under a run of nodes, in order.
pub open spec fn stored_node_rows<T: Frame, O: Octree<T>>(o: &O, nodes: Seq<NodeId>) -> Seq<Point>
    decreases nodes.len(),
{
    if nodes.len() == 0 {
        Seq::empty()
    } else {
        stored_node_rows(o, nodes.drop_last()) + o.points_of(nodes.last())
    }
}

/// Every point one octree stores, in node order.
pub open spec fn stored_rows<T: Frame, O: Octree<T>>(o: &O) -> Seq<Point> {
    stored_node_rows(o, o.node_ids())
}

/// Every point a run of octrees stores, in order.
pub open spec fn all_stored_rows<T: Frame, O: Octree<T>>(octrees: Seq<&O>) -> Seq<Point>
    decreases octrees.len(),
{
    if octrees.len() == 0 {
        Seq::empty()
    } else {
        all_stored_rows(octrees.drop_last()) + stored_rows(octrees.last())
    }
}

proof fn lemma_node_rows_stored<T: Frame, O: Octree<T>>(
    o: &O,
    q: PointQuery<T>,
    nodes: Seq<NodeId>,
)
    requires
        forall|i: int|
            0 <= i < nodes.len() ==> o.selected(q, #[trigger] nodes[i]) == o.points_of(nodes[i]),
    ensures
        node_rows(o, q, nodes) == stored_node_rows(o, nodes),
    decreases nodes.len(),
{
    if nodes.len() > 0 {
        lemma_node_rows_stored(o, q, nodes.drop_last());
        assert(nodes.last() == nodes[nodes.len() - 1]);
    }
}

/// The unconstrained query selects, from one octree, exactly what the
/// octree stores, in the octree's own order.
pub proof fn lemma_all_points_octree<T: Frame, O: Octree<T>>(o: &O, q: PointQuery<T>)
    requires
        q.location is AllPoints,
    ensures
        octree_rows(o, q) == stored_rows(o),
{
    o.traversal_laws(q);
    let ids = o.node_ids();
    assert forall|i: int| 0 <= i < ids.len() implies o.selected(q, #[trigger] ids[i])
        == o.points_of(ids[i]) by {
        assert(ids.contains(ids[i]));
    }
    lemma_node_rows_stored(o, q, ids);
}

/// The unconstrained query returns exactly every point stored in the
/// octrees passed in: no duplicates, no omissions.
pub proof fn lemma_all_points_query<T: Frame, O: Octree<T>>(octrees: Seq<&O>, q: PointQuery<T>)
    requires
        q.location is AllPoints,
    ensures
        query_rows(octrees, q) == all_stored_rows(octrees),
    decreases octrees.len(),
{
    if octrees.len() > 0 {
        lemma_all_points_query(octrees.drop_last(), q);
        lemma_all_points_octree(octrees.last(), q);
    }
}

proof fn lemma_node_rows_congruent<T: Frame, O: Octree<T>>(
    o: &O,
    q1: PointQuery<T>,
    q2: PointQuery<T>,
    nodes: Seq<NodeId>,
)
    requires
        forall|n: NodeId| #[trigger] o.selected(q1, n) == o.selected(q2, n),
    ensures
        node_rows(o, q1, nodes) == node_rows(o, q2, nodes),
    decreases nodes.len(),
{
    if nodes.len() > 0 {
        lemma_node_rows_congruent(o, q1, q2, nodes.drop_last());
    }
}

/// Setting a local frame changes only how emitted positions are
/// expressed, never which points a query selects: the selected rows of a
/// query equal those of the same query with the frame removed.
pub proof fn lemma_frame_ignores_selection<T: Frame, O: Octree<T>>(
    octrees: Seq<&O>,
    q: PointQuery<T>,
)
    ensures
        query_rows(octrees, q) == query_rows(octrees, q.unframed()),
    decreases octrees.len(),
{
    if octrees.len() > 0 {
        lemma_frame_ignores_selection(octrees.drop_last(), q);
        let o = octrees.last();
        o.traversal_laws(q);
        lemma_node_rows_congruent(o, q, q.unframed(), o.matching_nodes(q));
    }
}

/// What a successful unconstrained run without a local frame delivers is
/// exactly the stored points, column by column: every position and color
/// once, in storage order, with no duplicates and no omissions.
pub proof fn lemma_all_points_delivery<T: Frame, O: Octree<T>>(
    octrees: Seq<&O>,
    q: PointQuery<T>,
    bs: Seq<PointData>,
)
    requires
        q.location is AllPoints,
        q.global_from_local is None,
        delivered_positions(bs) == out_positions(query_rows(octrees, q), local_frame(q)),
        crate::point::delivered_colors(bs) == colors_of(query_rows(octrees, q)),
    ensures
        delivered_positions(bs) == all_stored_rows(octrees).map_values(|p: Point| p.position),
        crate::point::delivered_colors(bs) == all_stored_rows(octrees).map_values(
            |p: Point| p.color,
        ),
{
    lemma_all_points_query(octrees, q);
    assert(out_positions(all_stored_rows(octrees), local_frame(q)) =~= all_stored_rows(
        octrees,
    ).map_values(|p: Point| p.position));
}

/// Running one query twice against unmodified octrees yields the same
/// delivered columns, and so the same multiset of points: the delivered
/// columns of a successful run are a function of the octrees and the
/// query alone.
pub proof fn lemma_idempotent<T: Frame, O: Octree<T>>(
    octrees: Seq<&O>,
    q: PointQuery<T>,
    d1: Seq<PointData>,
    d2: Seq<PointData>,
)
    requires
        delivered_positions(d1) == out_positions(query_rows(octrees, q), local_frame(q)),
        delivered_positions(d2) == out_positions(query_rows(octrees, q), local_frame(q)),
        crate::point::delivered_colors(d1) == colors_of(query_rows(octrees, q)),
        crate::point::delivered_colors(d2) == colors_of(query_rows(octrees, q)),
        delivered_intensities(d1) == intensities_of(query_rows(octrees, q)),
        delivered_intensities(d2) == intensities_of(query_rows(octrees, q)),
    ensures
        delivered_positions(d1) == delivered_positions(d2),
        delivered_positions(d1).to_multiset() == delivered_positions(d2).to_multiset(),
        crate::point::delivered_colors(d1) == crate::point::delivered_colors(d2),
        delivered_intensities(d1) == delivered_intensities(d2),
{
}

/// With `global_from_local` set, every emitted position is the original
/// global position carried through the inverse transform, and applying
/// `global_from_local` to an emitted position recovers the original
/// global-frame position exactly.
pub proof fn lemma_local_projection<T: Frame>(q: PointQuery<T>, g: T, rows: Seq<Point>, i: int)
    requires
        q.global_from_local == Some(g),
        0 <= i < rows.len(),
    ensures
        out_positions(rows, local_frame(q))[i] == g.inverse_spec().apply_spec(rows[i].position),
        g.apply_spec(out_positions(rows, local_frame(q))[i]) == rows[i].position,
{
    g.frame_laws(g, rows[i].position);
}

proof fn lemma_intensities_len_full(rows: Seq<Point>)
    requires
        forall|i: int| 0 <= i < rows.len() ==> (#[trigger] rows[i]).intensity is Some,
    ensures
        intensities_of(rows).len() == rows.len(),
    decreases rows.len(),
{
    if rows.len() > 0 {
        lemma_intensities_len_full(rows.drop_last());
        assert(rows.last() == rows[rows.len() - 1]);
    }
}

proof fn lemma_intensities_len_none(rows: Seq<Point>)
    requires
        forall|i: int| 0 <= i < rows.len() ==> (#[trigger] rows[i]).intensity is None,
    ensures
        intensities_of(rows).len() == 0,
    decreases rows.len(),
{
    if rows.len() > 0 {
        lemma_intensities_len_none(rows.drop_last());
        assert(rows.last() == rows[rows.len() - 1]);
    }
}

proof fn lemma_delivered_len_bound(bs: Seq<PointData>, cap: nat)
    requires
        forall|i: int| 0 <= i < bs.len() ==> batch_wf(#[trigger] bs[i], cap),
    ensures
        delivered_intensities(bs).len() <= delivered_positions(bs).len(),
    decreases bs.len(),
{
    if bs.len() > 0 {
        lemma_delivered_len_bound(bs.drop_last(), cap);
        assert(bs.last() == bs[bs.len() - 1]);
    }
}

/// Layer presence: when every selected point carries an intensity, every
/// delivered batch has a full-length intensity layer; when none does, no
/// delivered batch has one. (The color layer is present and full-length
/// in every batch by `batch_wf`.) When the selected points mix the two,
/// no such alignment is promised: a batch of two points of which only the
/// first carries an intensity yields an intensity layer of length one.
pub proof fn lemma_intensity_alignment(bs: Seq<PointData>, rows: Seq<Point>, total_pos: Seq<
    crate::point::Vec3,
>, cap: nat)
    requires
        forall|i: int| 0 <= i < bs.len() ==> batch_wf(#[trigger] bs[i], cap),
        delivered_positions(bs) == total_pos,
        total_pos.len() == rows.len(),
        delivered_intensities(bs) == intensities_of(rows),
    ensures
        (forall|i: int| 0 <= i < rows.len() ==> (#[trigger] rows[i]).intensity is Some)
            ==> forall|i: int|
            0 <= i < bs.len() ==> (#[trigger] bs[i]).has_intensity()
                && bs[i].intensity_values().len() == bs[i].num_points(),
        (forall|i: int| 0 <= i < rows.len() ==> (#[trigger] rows[i]).intensity is None)
            ==> forall|i: int| 0 <= i < bs.len() ==> !(#[trigger] bs[i]).has_intensity(),
    decreases bs.len(),
{
    if forall|i: int| 0 <= i < rows.len() ==> (#[trigger] rows[i]).intensity is Some {
        lemma_intensities_len_full(rows);
        lemma_balance_full(bs, cap);
    }
    if forall|i: int| 0 <= i < rows.len() ==> (#[trigger] rows[i]).intensity is None {
        lemma_intensities_len_none(rows);
        lemma_balance_none(bs, cap);
    }
}

proof fn lemma_balance_full(bs: Seq<PointData>, cap: nat)
    requires
        forall|i: int| 0 <= i < bs.len() ==> batch_wf(#[trigger] bs[i], cap),
        delivered_intensities(bs).len() == delivered_positions(bs).len(),
    ensures
        forall|i: int|
            0 <= i < bs.len() ==> (#[trigger] bs[i]).has_intensity()
                && bs[i].intensity_values().len() == bs[i].num_points(),
    decreases bs.len(),
{
    if bs.len() > 0 {
        let last = bs.last();
        assert(last == bs[bs.len() - 1]);
        lemma_delivered_len_bound(bs.drop_last(), cap);
        assert(last.intensity_values().len() <= last.num_points());
        assert(last.intensity_values().len() == last.num_points());
        assert(last.intensity_values().len() >= 1);
        assert(last.layers@.len() >= 2);
        assert(last.has_intensity());
        lemma_balance_full(bs.drop_last(), cap);
        assert forall|i: int| 0 <= i < bs.len() implies (#[trigger] bs[i]).has_intensity()
            && bs[i].intensity_values().len() == bs[i].num_points() by {
            if i < bs.len() - 1 {
                assert(bs[i] == bs.drop_last()[i]);
            }
        }
    }
}

proof fn lemma_balance_none(bs: Seq<PointData>, cap: nat)
    requires
        forall|i: int| 0 <= i < bs.len() ==> batch_wf(#[trigger] bs[i], cap),
        delivered_intensities(bs).len() == 0,
    ensures
        forall|i: int| 0 <= i < bs.len() ==> !(#[trigger] bs[i]).has_intensity(),
    decreases bs.len(),
{
    if bs.len() > 0 {
        let last = bs.last();
        assert(last == bs[bs.len() - 1]);
        assert(last.intensity_values().len() == 0);
        assert(last.layers@.len() != 2);
        assert(!last.has_intensity());
        lemma_balance_none(bs.drop_last(), cap);
        assert forall|i: int| 0 <= i < bs.len() implies !(#[trigger] bs[i]).has_intensity() by {
            if i < bs.len() - 1 {
                assert(bs[i] == bs.drop_last()[i]);
            }
        }
    }
}

/// Disjoint regions partition what a query selects: over the in-memory
/// octree, two queries that no point satisfies together, whose union of
/// accepted points is exactly what a third query accepts, select together
/// (as a multiset) exactly what the third selects. Batch boundaries may
/// differ; the points do not.
pub proof fn lemma_disjoint_union_filter<T: Frame>(
    s: Seq<Point>,
    q1: PointQuery<T>,
    q2: PointQuery<T>,
    qu: PointQuery<T>,
)
    requires
        forall|p: Point| !(accepts(q1, p) && accepts(q2, p)),
        forall|p: Point| accepts(qu, p) <==> accepts(q1, p) || accepts(q2, p),
    ensures
        filter_points(s, qu).to_multiset() == filter_points(s, q1).to_multiset().add(
            filter_points(s, q2).to_multiset(),
        ),
    decreases s.len(),
{
    broadcast use vstd::seq_lib::group_to_multiset_ensures;

    if s.len() == 0 {
        assert(filter_points(s, qu).to_multiset() =~= filter_points(s, q1).to_multiset().add(
            filter_points(s, q2).to_multiset(),
        ));
    } else {
        let d = s.drop_last();
        let p = s.last();
        lemma_disjoint_union_filter(d, q1, q2, qu);
        if accepts(qu, p) {
            assert(filter_points(s, qu) =~= filter_points(d, qu).push(p));
            if accepts(q1, p) {
                assert(filter_points(s, q1) =~= filter_points(d, q1).push(p));
                assert(filter_points(s, q2) =~= filter_points(d, q2));
            } else {
                assert(filter_points(s, q1) =~= filter_points(d, q1));
                assert(filter_points(s, q2) =~= filter_points(d, q2).push(p));
            }
            assert(filter_points(s, qu).to_multiset() =~= filter_points(s, q1).to_multiset().add(
                filter_points(s, q2).to_multiset(),
            ));
        } else {
            assert(filter_points(s, qu) =~= filter_points(d, qu));
            assert(filter_points(s, q1) =~= filter_points(d, q1));
            assert(filter_points(s, q2) =~= filter_points(d, q2));
        }
    }
}

proof fn lemma_disjoint_union_nodes<T: Frame>(
    o: &VecOctree,
    q1: PointQuery<T>,
    q2: PointQuery<T>,
    qu: PointQuery<T>,
    nodes: Seq<NodeId>,
)
    requires
        forall|p: Point| !(accepts(q1, p) && accepts(q2, p)),
        forall|p: Point| accepts(qu, p) <==> accepts(q1, p) || accepts(q2, p),
    ensures
        node_rows(o, qu, nodes).to_multiset() == node_rows(o, q1, nodes).to_multiset().add(
            node_rows(o, q2, nodes).to_multiset(),
        ),
    decreases nodes.len(),
{
    broadcast use vstd::seq_lib::group_to_multiset_ensures;

    if nodes.len() == 0 {
        assert(node_rows(o, qu, nodes).to_multiset() =~= node_rows(o, q1, nodes).to_multiset().add(
            node_rows(o, q2, nodes).to_multiset(),
        ));
    } else {
        let d = nodes.drop_last();
        let n = nodes.last();
        lemma_disjoint_union_nodes(o, q1, q2, qu, d);
        lemma_disjoint_union_filter(o.stored(n), q1, q2, qu);
        vstd::seq_lib::lemma_multiset_commutative(node_rows(o, qu, d), Octree::<T>::selected(
            o,
            qu,
            n,
        ));
        vstd::seq_lib::lemma_multiset_commutative(node_rows(o, q1, d), Octree::<T>::selected(
            o,
            q1,
            n,
        ));
        vstd::seq_lib::lemma_multiset_commutative(node_rows(o, q2, d), Octree::<T>::selected(
            o,
            q2,
            n,
        ));
        assert(node_rows(o, qu, nodes).to_multiset() =~= node_rows(o, q1, nodes).to_multiset().add(
            node_rows(o, q2, nodes).to_multiset(),
        ));
    }
}

/// Over the in-memory octree: for two disjoint query regions whose union
/// is a third query's region, the points delivered for the third equal,
/// as a multiset, the disjoint union of the points delivered for the two.
pub proof fn lemma_disjoint_union_octree<T: Frame>(
    o: &VecOctree,
    q1: PointQuery<T>,
    q2: PointQuery<T>,
    qu: PointQuery<T>,
)
    requires
        forall|p: Point| !(accepts(q1, p) && accepts(q2, p)),
        forall|p: Point| accepts(qu, p) <==> accepts(q1, p) || accepts(q2, p),
    ensures
        octree_rows(o, qu).to_multiset() == octree_rows(o, q1).to_multiset().add(
            octree_rows(o, q2).to_multiset(),
        ),
{
    lemma_disjoint_union_nodes(o, q1, q2, qu, o.ids());
}

} // verus!
