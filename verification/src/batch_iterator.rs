//! The orchestration engine: given octrees and a query, enumerate the
//! matching nodes, stream each node's points through a private batch
//! accumulator, and hand every completed batch to one sink, stopping at
//! the first failure.
//!
//! The engine drives the nodes here one after another; the delivered
//! columns are pinned exactly, so a driver that fans the per-node work of
//! [`crate::stream::stream_points_to_sink`] out across workers feeding one
//! channel delivers the same batches, merely interleaved across nodes.

use vstd::prelude::*;

use crate::frame::Frame;
use crate::octree::{NodeId, Octree};
use crate::point::{
    batch_wf, colors_of, delivered_colors, delivered_intensities, delivered_positions,
    intensities_of, lemma_intensities_of_concat, Point, PointData,
};
use crate::query::PointQuery;
use crate::stream::{
    deref_frame, out_positions, stream_points_to_sink, BatchSink, CollectSink, QueryError,
};

verus! {

/// The frame emitted positions are re-expressed under: the inverse of the
/// query's `global_from_local`, when one is set.
pub open spec fn local_frame<T: Frame>(q: PointQuery<T>) -> Option<T> {
    match q.global_from_local {
        Some(g) => Some(g.inverse_spec()),
        None => None,
    }
}

/// The points selected from one octree for a run of nodes, in traversal
/// order.
pub open spec fn node_rows<T: Frame, O: Octree<T>>(
    o: &O,
    q: PointQuery<T>,
    nodes: Seq<NodeId>,
) -> Seq<Point>
    decreases nodes.len(),
{
    if nodes.len() == 0 {
        Seq::empty()
    } else {
        node_rows(o, q, nodes.drop_last()) + o.selected(q, nodes.last())
    }
}

/// Every point one octree contributes to a query, in delivery order.
pub open spec fn octree_rows<T: Frame, O: Octree<T>>(o: &O, q: PointQuery<T>) -> Seq<Point> {
    node_rows(o, q, o.matching_nodes(q))
}

/// Every point a run of octrees contributes to a query, in delivery order.
pub open spec fn query_rows<T: Frame, O: Octree<T>>(
    octrees: Seq<&O>,
    q: PointQuery<T>,
) -> Seq<Point>
    decreases octrees.len(),
{
    if octrees.len() == 0 {
        Seq::empty()
    } else {
        query_rows(octrees.drop_last(), q) + octree_rows(octrees.last(), q)
    }
}

/// The runs of selected points, one per enumerated node, in delivery
/// order.
pub open spec fn node_groups<T: Frame, O: Octree<T>>(
    o: &O,
    q: PointQuery<T>,
    nodes: Seq<NodeId>,
) -> Seq<Seq<Point>>
    decreases nodes.len(),
{
    if nodes.len() == 0 {
        Seq::empty()
    } else {
        node_groups(o, q, nodes.drop_last()).push(o.selected(q, nodes.last()))
    }
}

/// The runs of selected points a whole query produces, one per
/// enumerated (octree, node) pair, in delivery order.
pub open spec fn query_groups<T: Frame, O: Octree<T>>(
    octrees: Seq<&O>,
    q: PointQuery<T>,
) -> Seq<Seq<Point>>
    decreases octrees.len(),
{
    if octrees.len() == 0 {
        Seq::empty()
    } else {
        query_groups(octrees.drop_last(), q) + node_groups(
            octrees.last(),
            q,
            octrees.last().matching_nodes(q),
        )
    }
}

/// A run of batch groups, flattened in order.
pub open spec fn flat_groups(gs: Seq<Seq<PointData>>) -> Seq<PointData>
    decreases gs.len(),
{
    if gs.len() == 0 {
        Seq::empty()
    } else {
        flat_groups(gs.drop_last()) + gs.last()
    }
}

/// One producer's group of batches carries one node's selected points:
/// its columns are exactly the node's projected columns, every batch is
/// well-formed, and only the group's last batch may be smaller than the
/// capacity.
pub open spec fn group_delivers<T: Frame>(
    g: Seq<PointData>,
    rows: Seq<Point>,
    l: Option<T>,
    cap: nat,
) -> bool {
    &&& delivered_positions(g) == out_positions(rows, l)
    &&& delivered_colors(g) == colors_of(rows)
    &&& delivered_intensities(g) == intensities_of(rows)
    &&& forall|i: int| 0 <= i < g.len() ==> batch_wf(#[trigger] g[i], cap)
    &&& forall|i: int| 0 <= i < g.len() - 1 ==> (#[trigger] g[i]).num_points() == cap
}

/// Iterator on point batches: one query over one or more octrees.
pub struct BatchIterator<'a, T: Frame, O: Octree<T>> {
    pub octrees: Vec<&'a O>,
    pub point_location: &'a PointQuery<T>,
    pub batch_size: usize,
}

impl<'a, T: Frame, O: Octree<T>> BatchIterator<'a, T, O> {
    pub fn new(octrees: Vec<&'a O>, point_location: &'a PointQuery<T>, batch_size: usize) -> (r:
        Self)
        requires
            batch_size >= 1,
        ensures
            r.octrees == octrees,
            r.point_location == point_location,
            r.batch_size == batch_size,
    {
        BatchIterator { octrees, point_location, batch_size }
    }

    /// Run the query: every point the octrees select is delivered to
    /// `sink` in well-formed batches of at most `batch_size` points, the
    /// positions re-expressed under the query's local frame. On success
    /// the delivered columns are exactly the selected points' columns, in
    /// delivery order, and the sink refused nothing. A failure is always
    /// a refusal: the sink turned down a batch holding at least one
    /// selected point, the error it answered with is returned, and the
    /// delivered columns cover exactly a proper prefix of the selected
    /// points. When the query selects nothing the call succeeds with no
    /// delivery; a sink that never refuses always sees the whole result.
    #[verifier::rlimit(100)]
    pub fn try_for_each_batch<S: BatchSink>(&mut self, sink: &mut S) -> (r: Result<
        (),
        QueryError,
    >)
        requires
            old(self).batch_size >= 1,
        ensures
            *final(self) == *old(self),
            old(sink).delivered().is_prefix_of(final(sink).delivered()),
            query_rows(old(self).octrees@, *old(self).point_location).len() == 0 ==> r is Ok,
            r is Ok ==> final(sink).refused() == old(sink).refused(),
            r is Err ==> final(sink).refused() == old(sink).refused().push(r->Err_0),
            ({
                let newb = final(sink).delivered().skip(old(sink).delivered().len() as int);
                let rows = query_rows(old(self).octrees@, *old(self).point_location);
                let l = local_frame(*old(self).point_location);
                &&& forall|j: int|
                    0 <= j < newb.len() ==> batch_wf(
                        #[trigger] newb[j],
                        old(self).batch_size as nat,
                    )
                &&& (r is Ok ==> delivered_positions(newb) == out_positions(rows, l)
                    && delivered_colors(newb) == colors_of(rows) && delivered_intensities(newb)
                    == intensities_of(rows))
                &&& (r is Ok ==> exists|gs: Seq<Seq<PointData>>|
                    newb == #[trigger] flat_groups(gs) && gs.len() == query_groups(
                        old(self).octrees@,
                        *old(self).point_location,
                    ).len() && (forall|g: int|
                        0 <= g < gs.len() ==> group_delivers(
                            #[trigger] gs[g],
                            query_groups(old(self).octrees@, *old(self).point_location)[g],
                            l,
                            old(self).batch_size as nat,
                        )))
                &&& (r is Err ==> exists|k: int|
                    0 <= k < rows.len() && delivered_positions(newb) == out_positions(
                        #[trigger] rows.take(k),
                        l,
                    ) && delivered_colors(newb) == colors_of(rows.take(k))
                        && delivered_intensities(newb) == intensities_of(rows.take(k)))
            }),
    {
        let ghost q = *self.point_location;
        let ghost all = self.octrees@;
        let ghost rows = query_rows(all, q);
        let ghost l = local_frame(q);
        let ghost n0 = sink.delivered().len() as int;
        let local_from_global = match &self.point_location.global_from_local {
            Some(t) => Some(t.inverse()),
            None => None,
        };
        let lref = local_from_global.as_ref();
        proof {
            match local_from_global {
                Some(g) => {
                    assert(deref_frame(lref) == l);
                },
                None => {
                    assert(deref_frame(lref) == l);
                },
            }
        }
        let num_octrees = self.octrees.len();
        proof {
            assert(old(sink).delivered() =~= sink.delivered().take(n0));
            assert(all.take(0) =~= Seq::<&O>::empty());
            assert(sink.delivered().skip(n0) =~= Seq::<crate::point::PointData>::empty());
        }
        let ghost mut gs: Seq<Seq<PointData>> = Seq::empty();
        proof {
            assert(flat_groups(gs) =~= Seq::<PointData>::empty());
            assert(query_groups(all.take(0), q) =~= Seq::<Seq<Point>>::empty());
        }
        let mut oi: usize = 0;
        while oi < num_octrees
            invariant
                oi <= num_octrees,
                num_octrees == all.len(),
                0 <= n0,
                self == old(self),
                all == self.octrees@,
                q == *self.point_location,
                rows == query_rows(all, q),
                l == local_frame(q),
                deref_frame(lref) == l,
                self.batch_size >= 1,
                n0 <= sink.delivered().len(),
                old(sink).delivered() == sink.delivered().take(n0),
                sink.refused() == old(sink).refused(),
                forall|j: int|
                    n0 <= j < sink.delivered().len() ==> batch_wf(
                        #[trigger] sink.delivered()[j],
                        self.batch_size as nat,
                    ),
                delivered_positions(sink.delivered().skip(n0)) == out_positions(
                    query_rows(all.take(oi as int), q),
                    l,
                ),
                delivered_colors(sink.delivered().skip(n0)) == colors_of(
                    query_rows(all.take(oi as int), q),
                ),
                delivered_intensities(sink.delivered().skip(n0)) == intensities_of(
                    query_rows(all.take(oi as int), q),
                ),
                gs.len() == query_groups(all.take(oi as int), q).len(),
                sink.delivered().skip(n0) == flat_groups(gs),
                forall|g: int|
                    0 <= g < gs.len() ==> group_delivers(
                        #[trigger] gs[g],
                        query_groups(all.take(oi as int), q)[g],
                        l,
                        self.batch_size as nat,
                    ),
            decreases num_octrees - oi,
        {
            let octree = self.octrees[oi];
            let node_id_vec = octree.nodes_in_location(self.point_location);
            let ghost nodes = node_id_vec@;
            let ghost done_before = query_rows(all.take(oi as int), q);
            let ghost groups_before = query_groups(all.take(oi as int), q);
            proof {
                assert(nodes.take(0) =~= Seq::<NodeId>::empty());
                assert(node_groups(octree, q, nodes.take(0)) =~= Seq::<Seq<Point>>::empty());
            }
            let num_nodes = node_id_vec.len();
            let mut ni: usize = 0;
            while ni < num_nodes
                invariant
                    ni <= num_nodes,
                    oi < all.len(),
                    0 <= n0,
                    num_nodes == nodes.len(),
                    node_id_vec@ == nodes,
                    self == old(self),
                    all == self.octrees@,
                    octree == all[oi as int],
                    q == *self.point_location,
                    rows == query_rows(all, q),
                    l == local_frame(q),
                    deref_frame(lref) == l,
                    self.batch_size >= 1,
                    nodes == octree.matching_nodes(q),
                    done_before == query_rows(all.take(oi as int), q),
                    n0 <= sink.delivered().len(),
                    old(sink).delivered() == sink.delivered().take(n0),
                    sink.refused() == old(sink).refused(),
                    forall|j: int|
                        n0 <= j < sink.delivered().len() ==> batch_wf(
                            #[trigger] sink.delivered()[j],
                            self.batch_size as nat,
                        ),
                    delivered_positions(sink.delivered().skip(n0)) == out_positions(
                        done_before + node_rows(octree, q, nodes.take(ni as int)),
                        l,
                    ),
                    delivered_colors(sink.delivered().skip(n0)) == colors_of(
                        done_before + node_rows(octree, q, nodes.take(ni as int)),
                    ),
                    delivered_intensities(sink.delivered().skip(n0)) == intensities_of(
                        done_before + node_rows(octree, q, nodes.take(ni as int)),
                    ),
                    gs.len() == groups_before.len() + ni,
                    groups_before == query_groups(all.take(oi as int), q),
                    sink.delivered().skip(n0) == flat_groups(gs),
                    forall|g: int|
                        0 <= g < gs.len() ==> group_delivers(
                            #[trigger] gs[g],
                            (groups_before + node_groups(octree, q, nodes.take(ni as int)))[g],
                            l,
                            self.batch_size as nat,
                        ),
                decreases num_nodes - ni,
            {
                let node_id = node_id_vec[ni];
                let points = octree.points_in_node(self.point_location, node_id);
                let ghost pre_delivered = sink.delivered();
                let ghost done = done_before + node_rows(octree, q, nodes.take(ni as int));
                let result = stream_points_to_sink(&points, self.batch_size, lref, sink);
                proof {
                    let pre_len = pre_delivered.len() as int;
                    let group = sink.delivered().skip(pre_len);
                    assert(pre_delivered.skip(n0) == pre_delivered.subrange(
                        n0,
                        pre_delivered.len() as int,
                    ));
                    assert(sink.delivered().skip(n0) =~= pre_delivered.skip(n0) + group);
                    crate::point::lemma_delivered_concat(pre_delivered.skip(n0), group);
                    assert(old(sink).delivered() =~= sink.delivered().take(n0));
                    assert forall|j: int| n0 <= j < sink.delivered().len() implies batch_wf(
                        #[trigger] sink.delivered()[j],
                        self.batch_size as nat,
                    ) by {
                        if j < pre_len {
                            assert(sink.delivered()[j] == pre_delivered[j]);
                        } else {
                            assert(sink.delivered()[j] == group[j - pre_len]);
                        }
                    }
                }
                match result {
                    Ok(()) => {
                        proof {
                            let pre_len = pre_delivered.len() as int;
                            let group = sink.delivered().skip(pre_len);
                            lemma_columns_concat(done, points@, l);
                            lemma_node_rows_step(octree, q, nodes, ni as int);
                            assert(done + points@ =~= done_before + node_rows(
                                octree,
                                q,
                                nodes.take(ni + 1),
                            ));
                            lemma_node_groups_len(octree, q, nodes.take(ni as int));
                            lemma_node_groups_len(octree, q, nodes.take(ni + 1));
                            let pre_gs = gs;
                            gs = gs.push(group);
                            assert(gs.drop_last() =~= pre_gs);
                            assert(gs.last() == group);
                            assert(sink.delivered().skip(n0) =~= flat_groups(pre_gs) + group);
                            assert(sink.delivered().skip(n0) == flat_groups(gs));
                            assert(group_delivers(
                                group,
                                octree.selected(q, nodes[ni as int]),
                                l,
                                self.batch_size as nat,
                            ));
                            assert(nodes.take(ni + 1).drop_last() =~= nodes.take(ni as int));
                            assert(node_groups(octree, q, nodes.take(ni + 1)) == node_groups(
                                octree,
                                q,
                                nodes.take(ni as int),
                            ).push(octree.selected(q, nodes[ni as int])));
                            let expected = groups_before + node_groups(
                                octree,
                                q,
                                nodes.take(ni + 1),
                            );
                            assert(expected =~= (groups_before + node_groups(
                                octree,
                                q,
                                nodes.take(ni as int),
                            )).push(octree.selected(q, nodes[ni as int])));
                            assert forall|g: int| 0 <= g < gs.len() implies group_delivers(
                                #[trigger] gs[g],
                                expected[g],
                                l,
                                self.batch_size as nat,
                            ) by {
                                if g < gs.len() - 1 {
                                    assert(gs[g] == pre_gs[g]);
                                }
                            }
                        }
                    },
                    Err(e) => {
                        proof {
                            let pre_len = pre_delivered.len() as int;
                            let group = sink.delivered().skip(pre_len);
                            let newb = sink.delivered().skip(n0);
                            let kk = choose|kk: int|
                                0 <= kk <= points@.len() && delivered_positions(group)
                                    == out_positions(#[trigger] points@.take(kk), l)
                                    && delivered_colors(group) == colors_of(points@.take(kk))
                                    && delivered_intensities(group) == intensities_of(
                                    points@.take(kk),
                                );
                            lemma_columns_concat(done, points@.take(kk), l);
                            lemma_node_rows_step(octree, q, nodes, ni as int);
                            let mid = done_before + node_rows(octree, q, nodes.take(ni + 1));
                            assert(done + points@ =~= mid);
                            lemma_node_rows_prefix(octree, q, nodes, ni + 1);
                            lemma_query_rows_step(all, q, oi as int);
                            let qnext = query_rows(all.take(oi + 1), q);
                            assert(nodes.take(nodes.len() as int) =~= nodes);
                            assert(node_rows(octree, q, nodes.take(ni + 1)).is_prefix_of(
                                node_rows(octree, q, nodes),
                            ));
                            assert(qnext == done_before + node_rows(octree, q, nodes));
                            assert(mid =~= qnext.subrange(0, mid.len() as int));
                            lemma_query_rows_prefix(all, q, oi + 1);
                            assert(qnext =~= rows.subrange(0, qnext.len() as int));
                            assert(mid =~= rows.subrange(0, mid.len() as int));
                            let k = done.len() + kk;
                            assert(rows.take(k) =~= done + points@.take(kk));
                            assert(done.len() + points@.len() <= rows.len());
                            assert(0 <= k < rows.len());
                            assert(delivered_positions(newb) == out_positions(rows.take(k), l));
                            assert(delivered_colors(newb) == colors_of(rows.take(k)));
                            assert(delivered_intensities(newb) == intensities_of(rows.take(k)));
                            assert(old(sink).delivered().len() == n0);
                            assert(old(sink).delivered() =~= sink.delivered().subrange(0, n0));
                            assert(old(sink).delivered().is_prefix_of(sink.delivered()));
                        }
                        return Err(e);
                    },
                }
                ni = ni + 1;
            }
            proof {
                assert(nodes.take(ni as int) =~= nodes);
                lemma_query_rows_step(all, q, oi as int);
                assert(done_before + node_rows(octree, q, nodes) == query_rows(
                    all.take(oi + 1),
                    q,
                ));
                assert(all.take(oi + 1).drop_last() =~= all.take(oi as int));
                assert(all.take(oi + 1).last() == octree);
                lemma_node_groups_len(octree, q, nodes);
                assert(query_groups(all.take(oi + 1), q) == groups_before + node_groups(
                    octree,
                    q,
                    octree.matching_nodes(q),
                ));
            }
            oi = oi + 1;
        }
        proof {
            assert(all.take(oi as int) =~= all);
            assert(sink.delivered().skip(n0) == flat_groups(gs));
            assert(gs.len() == query_groups(all, q).len());
            assert(forall|g: int|
                0 <= g < gs.len() ==> group_delivers(
                    #[trigger] gs[g],
                    query_groups(all, q)[g],
                    l,
                    self.batch_size as nat,
                ));
        }
        Ok(())
    }

    /// Run the query into a fresh all-accepting sink and hand back every
    /// delivered batch. [`CollectSink`] refuses nothing, so the run is
    /// proved to succeed: the returned batches carry exactly the selected
    /// points' columns, well-formed and grouped per node.
    pub fn collect_batches(&mut self) -> (r: Vec<PointData>)
        requires
            old(self).batch_size >= 1,
        ensures
            *final(self) == *old(self),
            ({
                let rows = query_rows(old(self).octrees@, *old(self).point_location);
                let l = local_frame(*old(self).point_location);
                &&& delivered_positions(r@) == out_positions(rows, l)
                &&& delivered_colors(r@) == colors_of(rows)
                &&& delivered_intensities(r@) == intensities_of(rows)
                &&& forall|j: int|
                    0 <= j < r@.len() ==> batch_wf(#[trigger] r@[j], old(self).batch_size as nat)
            }),
    {
        let mut sink = CollectSink::new();
        let result = self.try_for_each_batch(&mut sink);
        proof {
            if result is Err {
                // an error would be a refusal, and this sink never refuses
                assert(sink.refused().len() == 0);
                assert(false);
            }
            assert(sink.delivered().skip(0) =~= sink.delivered());
        }
        sink.batches
    }
}

/// A node run yields one group per node.
proof fn lemma_node_groups_len<T: Frame, O: Octree<T>>(o: &O, q: PointQuery<T>, nodes: Seq<NodeId>)
    ensures
        node_groups(o, q, nodes).len() == nodes.len(),
    decreases nodes.len(),
{
    if nodes.len() > 0 {
        lemma_node_groups_len(o, q, nodes.drop_last());
    }
}

/// Splitting a run of points splits each output column.
proof fn lemma_columns_concat<T: Frame>(a: Seq<Point>, b: Seq<Point>, l: Option<T>)
    ensures
        out_positions(a + b, l) == out_positions(a, l) + out_positions(b, l),
        colors_of(a + b) == colors_of(a) + colors_of(b),
        intensities_of(a + b) == intensities_of(a) + intensities_of(b),
{
    lemma_intensities_of_concat(a, b);
    assert(out_positions(a + b, l) =~= out_positions(a, l) + out_positions(b, l));
    assert(colors_of(a + b) =~= colors_of(a) + colors_of(b));
}

/// Taking one more node appends exactly that node's selected points.
proof fn lemma_node_rows_step<T: Frame, O: Octree<T>>(
    o: &O,
    q: PointQuery<T>,
    nodes: Seq<NodeId>,
    ni: int,
)
    requires
        0 <= ni < nodes.len(),
    ensures
        node_rows(o, q, nodes.take(ni + 1)) == node_rows(o, q, nodes.take(ni)) + o.selected(
            q,
            nodes[ni],
        ),
{
    assert(nodes.take(ni + 1).drop_last() =~= nodes.take(ni));
    assert(nodes.take(ni + 1).last() == nodes[ni]);
}

/// The rows of a node prefix are a prefix of the full node run's rows.
proof fn lemma_node_rows_prefix<T: Frame, O: Octree<T>>(
    o: &O,
    q: PointQuery<T>,
    nodes: Seq<NodeId>,
    ni: int,
)
    requires
        0 <= ni <= nodes.len(),
    ensures
        node_rows(o, q, nodes.take(ni)).is_prefix_of(node_rows(o, q, nodes)),
    decreases nodes.len(),
{
    if ni == nodes.len() {
        assert(nodes.take(ni) =~= nodes);
    } else {
        lemma_node_rows_prefix(o, q, nodes.drop_last(), ni);
        assert(nodes.drop_last().take(ni) =~= nodes.take(ni));
        let a = node_rows(o, q, nodes.take(ni));
        let b = node_rows(o, q, nodes.drop_last());
        assert(a =~= (b + o.selected(q, nodes.last())).subrange(0, a.len() as int));
    }
}

/// Taking one more octree appends exactly that octree's rows.
proof fn lemma_query_rows_step<T: Frame, O: Octree<T>>(octrees: Seq<&O>, q: PointQuery<T>, oi: int)
    requires
        0 <= oi < octrees.len(),
    ensures
        query_rows(octrees.take(oi + 1), q) == query_rows(octrees.take(oi), q) + octree_rows(
            octrees[oi],
            q,
        ),
{
    assert(octrees.take(oi + 1).drop_last() =~= octrees.take(oi));
    assert(octrees.take(oi + 1).last() == octrees[oi]);
}

/// The rows of an octree prefix are a prefix of the whole query's rows.
proof fn lemma_query_rows_prefix<T: Frame, O: Octree<T>>(
    octrees: Seq<&O>,
    q: PointQuery<T>,
    oi: int,
)
    requires
        0 <= oi <= octrees.len(),
    ensures
        query_rows(octrees.take(oi), q).is_prefix_of(query_rows(octrees, q)),
    decreases octrees.len(),
{
    if oi == octrees.len() {
        assert(octrees.take(oi) =~= octrees);
    } else {
        lemma_query_rows_prefix(octrees.drop_last(), q, oi);
        assert(octrees.drop_last().take(oi) =~= octrees.take(oi));
        let a = query_rows(octrees.take(oi), q);
        let b = query_rows(octrees.drop_last(), q);
        assert(a =~= (b + octree_rows(octrees.last(), q)).subrange(0, a.len() as int));
    }
}

} // verus!
