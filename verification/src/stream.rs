//! The batch accumulator: consumes points one at a time, projects them
//! into the target frame, gathers them into columnar buffers, and flushes
//! a complete batch to a sink once capacity is reached or the stream ends.

use vstd::prelude::*;

use crate::frame::Frame;
use crate::point::{
    batch_wf, colors_of, delivered_colors, delivered_intensities, delivered_positions,
    intensities_of, Color, Layer, LayerData, Point, PointData, Vec3,
};

verus! {

broadcast use vstd::string::group_string_axioms;

/// The single failure a caller observes from one call: the storage layer
/// failed to traverse, the delivery channel was torn down, or the caller's
/// own per-batch function reported an error.
#[derive(Clone, Copy, Debug, PartialEq, Eq, Structural)]
pub enum QueryError {
    Traversal,
    Channel,
    Callback,
}

/// Where completed batches go: the consumer's callback, or a channel
/// towards it. `delivered` abstracts the batches the sink has taken so
/// far and `refused` the errors it has answered with: an accepting call
/// appends exactly the offered batch and refuses nothing, a failing call
/// takes nothing and appends exactly the error it returns. A caller who
/// knows its sink never refuses can conclude from these that a whole run
/// succeeds.
pub trait BatchSink {
    /// The batches this sink has taken, in the order it took them.
    spec fn delivered(&self) -> Seq<PointData>;

    /// The errors this sink has answered offers with, in order.
    spec fn refused(&self) -> Seq<QueryError>;

    fn accept(&mut self, batch: PointData) -> (r: Result<(), QueryError>)
        ensures
            r is Ok ==> final(self).delivered() == old(self).delivered().push(batch)
                && final(self).refused() == old(self).refused(),
            r is Err ==> final(self).delivered() == old(self).delivered() && final(self).refused()
                == old(self).refused().push(r->Err_0),
    ;
}

/// A sink that takes every batch offered: it never refuses, so a run
/// driving it is guaranteed to succeed.
pub struct CollectSink {
    pub batches: Vec<PointData>,
}

impl CollectSink {
    pub fn new() -> (r: Self)
        ensures
            r.delivered() == Seq::<PointData>::empty(),
    {
        let r = CollectSink { batches: Vec::new() };
        proof {
            assert(r.delivered() =~= Seq::<PointData>::empty());
        }
        r
    }
}

impl BatchSink for CollectSink {
    open spec fn delivered(&self) -> Seq<PointData> {
        self.batches@
    }

    /// This sink refuses nothing, ever.
    open spec fn refused(&self) -> Seq<QueryError> {
        Seq::empty()
    }

    fn accept(&mut self, batch: PointData) -> (r: Result<(), QueryError>)
        ensures
            r is Ok,
    {
        self.batches.push(batch);
        Ok(())
    }
}

/// A sink that stores batches but refuses every offer from the
/// `limit`-th on, answering with a callback failure (to exercise the
/// failure paths).
pub struct FailingSink {
    pub batches: Vec<PointData>,
    pub limit: usize,
    pub refusals: Ghost<Seq<QueryError>>,
}

impl FailingSink {
    pub fn new(limit: usize) -> (r: Self)
        ensures
            r.delivered() == Seq::<PointData>::empty(),
            r.refused() == Seq::<QueryError>::empty(),
            r.limit == limit,
    {
        let r = FailingSink { batches: Vec::new(), limit, refusals: Ghost(Seq::empty()) };
        proof {
            assert(r.delivered() =~= Seq::<PointData>::empty());
        }
        r
    }
}

impl BatchSink for FailingSink {
    open spec fn delivered(&self) -> Seq<PointData> {
        self.batches@
    }

    open spec fn refused(&self) -> Seq<QueryError> {
        self.refusals@
    }

    /// Takes the batch exactly while fewer than `limit` batches are
    /// held; from the limit on, every offer is refused with a callback
    /// failure.
    fn accept(&mut self, batch: PointData) -> (r: Result<(), QueryError>)
        ensures
            final(self).limit == old(self).limit,
            r is Ok <==> old(self).batches@.len() < old(self).limit,
            r is Err ==> r->Err_0 == QueryError::Callback,
    {
        if self.batches.len() >= self.limit {
            proof {
                self.refusals@ = self.refusals@.push(QueryError::Callback);
            }
            Err(QueryError::Callback)
        } else {
            self.batches.push(batch);
            Ok(())
        }
    }
}

/// A position as emitted: re-expressed under the output frame when one is
/// configured.
pub open spec fn out_position<T: Frame>(l: Option<T>, p: Vec3) -> Vec3 {
    match l {
        Some(t) => t.apply_spec(p),
        None => p,
    }
}

/// The emitted positions of a run of points, in order.
pub open spec fn out_positions<T: Frame>(pts: Seq<Point>, l: Option<T>) -> Seq<Vec3> {
    pts.map_values(|p: Point| out_position(l, p.position))
}

/// The frame value behind an optional borrowed frame.
pub open spec fn deref_frame<T: Frame>(l: Option<&T>) -> Option<T> {
    match l {
        Some(t) => Some(*t),
        None => None,
    }
}

/// What one flushed batch holds, given the three column buffers it was
/// assembled from: the positions, a color layer, and an intensity layer
/// exactly when intensity values were gathered.
pub open spec fn flushed_batch(b: PointData, pos: Seq<Vec3>, col: Seq<Color>, ints: Seq<u32>) -> bool {
    &&& b.position@ == pos
    &&& b.has_color()
    &&& b.color_values() == col
    &&& b.layers@.len() == (if ints.len() > 0 {
        2int
    } else {
        1int
    })
    &&& (ints.len() > 0 ==> b.has_intensity() && b.intensity_values() == ints)
}

/// The batch accumulator. Buffers are drained in place on flush and reused
/// for the next batch.
pub struct PointStream<'a, T: Frame> {
    pub position: Vec<Vec3>,
    pub color: Vec<Color>,
    pub intensity: Vec<u32>,
    pub batch_size: usize,
    pub local_from_global: Option<&'a T>,
}

impl<'a, T: Frame> PointStream<'a, T> {
    /// Buffers are aligned and never hold more than one batch.
    pub open spec fn wf(self) -> bool {
        &&& self.batch_size >= 1
        &&& self.color@.len() == self.position@.len()
        &&& self.intensity@.len() <= self.position@.len()
        &&& self.position@.len() <= self.batch_size
    }

    /// The output frame this accumulator projects into.
    pub open spec fn frame_of(self) -> Option<T> {
        deref_frame(self.local_from_global)
    }

    pub fn new(batch_size: usize, local_from_global: Option<&'a T>) -> (r: Self)
        requires
            batch_size >= 1,
        ensures
            r.wf(),
            r.batch_size == batch_size,
            r.local_from_global == local_from_global,
            r.position@.len() == 0,
            r.color@.len() == 0,
            r.intensity@.len() == 0,
    {
        PointStream {
            position: Vec::new(),
            color: Vec::new(),
            intensity: Vec::new(),
            batch_size,
            local_from_global,
        }
    }

    /// Project one point into the output frame and append it to the
    /// column buffers. No batch emission side effect.
    pub fn push_point(&mut self, point: Point)
        requires
            old(self).wf(),
            old(self).position@.len() < old(self).batch_size,
        ensures
            final(self).wf(),
            final(self).batch_size == old(self).batch_size,
            final(self).local_from_global == old(self).local_from_global,
            final(self).position@ == old(self).position@.push(
                out_position(old(self).frame_of(), point.position),
            ),
            final(self).color@ == old(self).color@.push(point.color),
            final(self).intensity@ == old(self).intensity@ + match point.intensity {
                Some(v) => seq![v],
                None => Seq::<u32>::empty(),
            },
    {
        let position = match &self.local_from_global {
            Some(local_from_global) => local_from_global.apply(&point.position),
            None => point.position,
        };
        self.position.push(position);
        self.color.push(point.color);
        if let Some(point_intensity) = point.intensity {
            self.intensity.push(point_intensity);
        }
        proof {
            match point.intensity {
                Some(v) => {
                    assert(self.intensity@ =~= old(self).intensity@ + seq![v]);
                },
                None => {
                    assert(self.intensity@ =~= old(self).intensity@ + Seq::<u32>::empty());
                },
            }
        }
    }

    /// Flush the buffered points, if any, as one batch to `sink`: a
    /// `color` layer always, an `intensity` layer exactly when intensity
    /// values were gathered. Leaves the buffers empty either way and
    /// propagates the sink's verdict without retrying.
    pub fn callback<S: BatchSink>(&mut self, sink: &mut S) -> (r: Result<(), QueryError>)
        requires
            old(self).wf(),
        ensures
            final(self).wf(),
            final(self).batch_size == old(self).batch_size,
            final(self).local_from_global == old(self).local_from_global,
            final(self).position@.len() == 0,
            final(self).color@.len() == 0,
            final(self).intensity@.len() == 0,
            old(self).position@.len() == 0 ==> r is Ok && final(sink).delivered() == old(
                sink,
            ).delivered(),
            old(self).position@.len() > 0 && r is Ok ==> final(sink).delivered() == old(
                sink,
            ).delivered().push(final(sink).delivered().last()) && flushed_batch(
                final(sink).delivered().last(),
                old(self).position@,
                old(self).color@,
                old(self).intensity@,
            ) && batch_wf(final(sink).delivered().last(), old(self).batch_size as nat),
            r is Ok ==> final(sink).refused() == old(sink).refused(),
            r is Err ==> final(sink).delivered() == old(sink).delivered() && final(sink).refused()
                == old(sink).refused().push(r->Err_0),
    {
        if self.position.len() == 0 {
            return Ok(());
        }
        let position = self.position.split_off(0);
        let color = self.color.split_off(0);
        let intensity = self.intensity.split_off(0);
        proof {
            assert(position@ =~= old(self).position@);
            assert(color@ =~= old(self).color@);
            assert(intensity@ =~= old(self).intensity@);
            assert(self.position@ =~= Seq::<Vec3>::empty());
            assert(self.color@ =~= Seq::<Color>::empty());
            assert(self.intensity@ =~= Seq::<u32>::empty());
        }
        let has_intensity = intensity.len() > 0;
        let mut layers: Vec<Layer> = Vec::new();
        layers.push(Layer { name: "color".to_string(), data: LayerData::U8Vec4(color) });
        if has_intensity {
            layers.push(Layer { name: "intensity".to_string(), data: LayerData::F32(intensity) });
        }
        let point_data = PointData { position, layers };
        proof {
            assert(point_data.has_color());
            assert(flushed_batch(
                point_data,
                old(self).position@,
                old(self).color@,
                old(self).intensity@,
            ));
            assert(batch_wf(point_data, old(self).batch_size as nat));
        }
        sink.accept(point_data)
    }

    /// Push one point, then flush exactly when the buffer has reached
    /// capacity.
    pub fn push_point_and_callback<S: BatchSink>(&mut self, point: Point, sink: &mut S) -> (r:
        Result<(), QueryError>)
        requires
            old(self).wf(),
            old(self).position@.len() < old(self).batch_size,
        ensures
            final(self).wf(),
            final(self).batch_size == old(self).batch_size,
            final(self).local_from_global == old(self).local_from_global,
            ({
                let pos = old(self).position@.push(
                    out_position(old(self).frame_of(), point.position),
                );
                let col = old(self).color@.push(point.color);
                let ints = old(self).intensity@ + match point.intensity {
                    Some(v) => seq![v],
                    None => Seq::<u32>::empty(),
                };
                if pos.len() < old(self).batch_size {
                    &&& r is Ok
                    &&& final(sink).delivered() == old(sink).delivered()
                    &&& final(sink).refused() == old(sink).refused()
                    &&& final(self).position@ == pos
                    &&& final(self).color@ == col
                    &&& final(self).intensity@ == ints
                } else {
                    &&& final(self).position@.len() == 0
                    &&& final(self).color@.len() == 0
                    &&& final(self).intensity@.len() == 0
                    &&& (r is Ok ==> final(sink).delivered() == old(sink).delivered().push(
                        final(sink).delivered().last(),
                    ) && flushed_batch(final(sink).delivered().last(), pos, col, ints) && batch_wf(
                        final(sink).delivered().last(),
                        old(self).batch_size as nat,
                    ) && final(sink).refused() == old(sink).refused())
                    &&& (r is Err ==> final(sink).delivered() == old(sink).delivered()
                        && final(sink).refused() == old(sink).refused().push(r->Err_0))
                }
            }),
    {
        self.push_point(point);
        if self.position.len() == self.batch_size {
            self.callback(sink)
        } else {
            Ok(())
        }
    }
}

/// One producer's whole run: push every point of one node through a fresh
/// accumulator into `sink`, with a final flush so a non-full trailing
/// batch is not lost.
///
/// On success the sink has taken, beyond what it already held, batches
/// whose columns are exactly the projected positions, the colors, and the
/// present intensity values of `points`, in order, and the sink refused
/// nothing; every batch is well-formed, and only the last one may be
/// smaller than `batch_size`. A failure is always a refusal: the sink
/// turned down a batch holding at least one point, the returned error is
/// the one the sink answered with, the batches taken cover exactly a
/// proper prefix of `points`, and nothing was taken after the failing
/// offer. With no points to stream the call succeeds.
pub fn stream_points_to_sink<T: Frame, S: BatchSink>(
    points: &Vec<Point>,
    batch_size: usize,
    local_from_global: Option<&T>,
    sink: &mut S,
) -> (r: Result<(), QueryError>)
    requires
        batch_size >= 1,
    ensures
        old(sink).delivered().is_prefix_of(final(sink).delivered()),
        points@.len() == 0 ==> r is Ok,
        r is Ok ==> final(sink).refused() == old(sink).refused(),
        r is Err ==> final(sink).refused() == old(sink).refused().push(r->Err_0),
        ({
            let newb = final(sink).delivered().skip(old(sink).delivered().len() as int);
            let l = deref_frame(local_from_global);
            &&& forall|i: int|
                0 <= i < newb.len() ==> batch_wf(#[trigger] newb[i], batch_size as nat)
            &&& forall|i: int|
                0 <= i < newb.len() - 1 ==> (#[trigger] newb[i]).num_points() == batch_size
            &&& (r is Ok ==> delivered_positions(newb) == out_positions(points@, l)
                && delivered_colors(newb) == colors_of(points@) && delivered_intensities(newb)
                == intensities_of(points@))
            &&& (r is Err ==> exists|k: int|
                0 <= k < points@.len() && delivered_positions(newb) == out_positions(
                    #[trigger] points@.take(k),
                    l,
                ) && delivered_colors(newb) == colors_of(points@.take(k))
                    && delivered_intensities(newb) == intensities_of(points@.take(k)))
        }),
{
    let ghost n0 = sink.delivered().len() as int;
    let ghost l = deref_frame(local_from_global);
    let mut stream = PointStream::new(batch_size, local_from_global);
    let ghost mut flushed: int = 0;
    proof {
        assert(old(sink).delivered() =~= sink.delivered().take(n0));
        assert(points@.take(0) =~= Seq::<Point>::empty());
        assert(points@.subrange(0, 0) =~= Seq::<Point>::empty());
        assert(sink.delivered().skip(n0) =~= Seq::<PointData>::empty());
    }
    let mut i: usize = 0;
    while i < points.len()
        invariant
            batch_size >= 1,
            i <= points@.len(),
            0 <= n0,
            stream.wf(),
            stream.batch_size == batch_size,
            stream.local_from_global == local_from_global,
            stream.frame_of() == l,
            stream.position@.len() < batch_size,
            0 <= flushed <= i,
            n0 <= sink.delivered().len(),
            old(sink).delivered() == sink.delivered().take(n0),
            sink.refused() == old(sink).refused(),
            forall|j: int|
                n0 <= j < sink.delivered().len() ==> batch_wf(
                    #[trigger] sink.delivered()[j],
                    batch_size as nat,
                ) && sink.delivered()[j].num_points() == batch_size,
            delivered_positions(sink.delivered().skip(n0)) == out_positions(
                points@.take(flushed),
                l,
            ),
            delivered_colors(sink.delivered().skip(n0)) == colors_of(points@.take(flushed)),
            delivered_intensities(sink.delivered().skip(n0)) == intensities_of(
                points@.take(flushed),
            ),
            stream.position@ == out_positions(points@.subrange(flushed, i as int), l),
            stream.color@ == colors_of(points@.subrange(flushed, i as int)),
            stream.intensity@ == intensities_of(points@.subrange(flushed, i as int)),
            i - flushed == stream.position@.len(),
        decreases points@.len() - i,
    {
        let point = points[i];
        let ghost pre_delivered = sink.delivered();
        let ghost pre_stream = stream;
        let result = stream.push_point_and_callback(point, sink);
        proof {
            lemma_worker_step(points@, l, flushed, i as int, point);
        }
        match result {
            Ok(()) => {},
            Err(e) => {
                proof {
                    let newb = sink.delivered().skip(n0);
                    assert(sink.delivered() == pre_delivered);
                    assert(old(sink).delivered().len() == n0);
                    assert(old(sink).delivered() =~= sink.delivered().subrange(0, n0));
                    assert(old(sink).delivered().is_prefix_of(sink.delivered()));
                    assert(0 <= flushed <= i < points@.len());
                    assert(delivered_positions(newb) == out_positions(points@.take(flushed), l));
                    assert(delivered_colors(newb) == colors_of(points@.take(flushed)));
                    assert(delivered_intensities(newb) == intensities_of(points@.take(flushed)));
                    assert forall|j: int| 0 <= j < newb.len() implies batch_wf(
                        #[trigger] newb[j],
                        batch_size as nat,
                    ) && newb[j].num_points() == batch_size by {
                        assert(newb[j] == sink.delivered()[n0 + j]);
                    }
                }
                return Err(e);
            },
        }
        proof {
            if stream.position@.len() == 0 {
                // a full batch was flushed and taken
                let b = sink.delivered().last();
                assert(sink.delivered() == pre_delivered.push(b));
                assert(sink.delivered().skip(n0) =~= pre_delivered.skip(n0).push(b));
                assert(sink.delivered().skip(n0).drop_last() =~= pre_delivered.skip(n0));
                assert(delivered_positions(sink.delivered().skip(n0)) == delivered_positions(
                    pre_delivered.skip(n0),
                ) + b.position@);
                assert(delivered_colors(sink.delivered().skip(n0)) == delivered_colors(
                    pre_delivered.skip(n0),
                ) + b.color_values());
                assert(delivered_intensities(sink.delivered().skip(n0)) == delivered_intensities(
                    pre_delivered.skip(n0),
                ) + b.intensity_values());
                if pre_stream.intensity@.len() + match point.intensity {
                    Some(_) => 1int,
                    None => 0int,
                } == 0 {
                    assert(b.intensity_values() =~= Seq::<u32>::empty());
                }
                lemma_take_subrange_concat(points@, l, flushed, i + 1);
                flushed = i + 1;
                assert(points@.subrange(flushed, i + 1) =~= Seq::<Point>::empty());
                assert(stream.position@ =~= out_positions(points@.subrange(flushed, i + 1), l));
                assert(stream.color@ =~= colors_of(points@.subrange(flushed, i + 1)));
                assert(stream.intensity@ =~= intensities_of(points@.subrange(flushed, i + 1)));
            } else {
                assert(sink.delivered() == pre_delivered);
                assert(sink.delivered().skip(n0) =~= pre_delivered.skip(n0));
            }
            assert(old(sink).delivered() =~= sink.delivered().take(n0));
        }
        i = i + 1;
    }
    proof {
        assert(points@.take(i as int) =~= points@);
        assert(points@.subrange(flushed, i as int) =~= points@.skip(flushed));
    }
    let ghost pre_delivered = sink.delivered();
    let ghost pre_stream = stream;
    let result = stream.callback(sink);
    proof {
        let newb = sink.delivered().skip(n0);
        let pre_newb = pre_delivered.skip(n0);
        let total = points@.len() as int;
        if flushed == total {
            // nothing buffered: the final flush was a no-op
            assert(pre_stream.position@.len() == 0);
            assert(sink.delivered() == pre_delivered);
            assert(newb =~= pre_newb);
            assert(points@.take(flushed) =~= points@);
            assert forall|j: int| 0 <= j < newb.len() implies batch_wf(
                #[trigger] newb[j],
                batch_size as nat,
            ) && newb[j].num_points() == batch_size by {
                assert(newb[j] == sink.delivered()[n0 + j]);
            }
        } else {
            assert(pre_stream.position@.len() > 0);
            match result {
                Ok(_) => {
                    let b = sink.delivered().last();
                    assert(sink.delivered() == pre_delivered.push(b));
                    assert(newb =~= pre_newb.push(b));
                    assert(newb.drop_last() =~= pre_newb);
                    assert(newb.last() == b);
                    assert(delivered_positions(newb) == delivered_positions(pre_newb)
                        + b.position@);
                    assert(delivered_colors(newb) == delivered_colors(pre_newb)
                        + b.color_values());
                    assert(delivered_intensities(newb) == delivered_intensities(pre_newb)
                        + b.intensity_values());
                    if pre_stream.intensity@.len() == 0 {
                        assert(b.layers@.len() == 1);
                        assert(b.intensity_values() =~= Seq::<u32>::empty());
                        assert(b.intensity_values() =~= pre_stream.intensity@);
                    } else {
                        assert(b.intensity_values() == pre_stream.intensity@);
                    }
                    lemma_take_subrange_concat(points@, l, flushed, total);
                    assert(points@.take(total) =~= points@);
                    assert(delivered_positions(newb) == out_positions(points@, l));
                    assert(delivered_colors(newb) == colors_of(points@));
                    assert(delivered_intensities(newb) == intensities_of(points@));
                    assert forall|j: int| 0 <= j < newb.len() implies batch_wf(
                        #[trigger] newb[j],
                        batch_size as nat,
                    ) by {
                        if j < newb.len() - 1 {
                            assert(newb[j] == sink.delivered()[n0 + j]);
                            assert(newb[j] == pre_delivered[n0 + j]);
                        } else {
                            assert(newb[j] == b);
                        }
                    }
                    assert forall|j: int| 0 <= j < newb.len() - 1 implies (
                    #[trigger] newb[j]).num_points() == batch_size by {
                        assert(newb[j] == pre_delivered[n0 + j]);
                    }
                },
                Err(_) => {
                    assert(sink.delivered() == pre_delivered);
                    assert(newb =~= pre_newb);
                    assert(pre_stream.position@.len() == points@.len() - flushed);
                    assert(0 <= flushed < points@.len());
                    assert(delivered_positions(newb) == out_positions(
                        points@.take(flushed),
                        l,
                    ));
                    assert(delivered_colors(newb) == colors_of(points@.take(flushed)));
                    assert(delivered_intensities(newb) == intensities_of(points@.take(flushed)));
                    assert forall|j: int| 0 <= j < newb.len() implies batch_wf(
                        #[trigger] newb[j],
                        batch_size as nat,
                    ) && newb[j].num_points() == batch_size by {
                        assert(newb[j] == sink.delivered()[n0 + j]);
                    }
                },
            }
        }
        assert(old(sink).delivered().len() == n0);
        assert(old(sink).delivered() =~= sink.delivered().take(n0));
        assert(old(sink).delivered() =~= sink.delivered().subrange(0, n0));
        assert(old(sink).delivered().is_prefix_of(sink.delivered()));
    }
    result
}

/// Appending one point extends each projected column by that point's
/// contribution.
proof fn lemma_worker_step<T: Frame>(
    pts: Seq<Point>,
    l: Option<T>,
    flushed: int,
    i: int,
    point: Point,
)
    requires
        0 <= flushed <= i < pts.len(),
        point == pts[i],
    ensures
        out_positions(pts.subrange(flushed, i + 1), l) == out_positions(
            pts.subrange(flushed, i),
            l,
        ).push(out_position(l, point.position)),
        colors_of(pts.subrange(flushed, i + 1)) == colors_of(pts.subrange(flushed, i)).push(
            point.color,
        ),
        intensities_of(pts.subrange(flushed, i + 1)) == intensities_of(pts.subrange(flushed, i))
            + match point.intensity {
            Some(v) => seq![v],
            None => Seq::<u32>::empty(),
        },
{
    assert(pts.subrange(flushed, i + 1).drop_last() =~= pts.subrange(flushed, i));
    assert(pts.subrange(flushed, i + 1).last() == point);
    assert(out_positions(pts.subrange(flushed, i + 1), l) =~= out_positions(
        pts.subrange(flushed, i),
        l,
    ).push(out_position(l, point.position)));
    assert(colors_of(pts.subrange(flushed, i + 1)) =~= colors_of(pts.subrange(flushed, i)).push(
        point.color,
    ));
}

/// A run of points splits, at any cut, into a flushed prefix and a
/// buffered suffix, column by column.
proof fn lemma_take_subrange_concat<T: Frame>(pts: Seq<Point>, l: Option<T>, cut: int, end: int)
    requires
        0 <= cut <= end <= pts.len(),
    ensures
        out_positions(pts.take(end), l) == out_positions(pts.take(cut), l) + out_positions(
            pts.subrange(cut, end),
            l,
        ),
        colors_of(pts.take(end)) == colors_of(pts.take(cut)) + colors_of(pts.subrange(cut, end)),
        intensities_of(pts.take(end)) == intensities_of(pts.take(cut)) + intensities_of(
            pts.subrange(cut, end),
        ),
{
    assert(pts.take(end) =~= pts.take(cut) + pts.subrange(cut, end));
    crate::point::lemma_intensities_of_concat(pts.take(cut), pts.subrange(cut, end));
    assert(out_positions(pts.take(end), l) =~= out_positions(pts.take(cut), l) + out_positions(
        pts.subrange(cut, end),
        l,
    ));
    assert(colors_of(pts.take(end)) =~= colors_of(pts.take(cut)) + colors_of(
        pts.subrange(cut, end),
    ));
}

} // verus!
