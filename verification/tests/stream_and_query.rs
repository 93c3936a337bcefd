//! Tests of the batch accumulator, the per-node worker, and the culling
//! construction, taken on their own.

use std::sync::mpsc;

use point_batches::batch_iterator::BatchIterator;
use point_batches::channel::ChannelSink;
use point_batches::frame::{Frame, MaskFrame};
use point_batches::octree::{NodeId, Octree, VecOctree};
use point_batches::point::{Color, LayerData, Point, Vec3};
use point_batches::query::{Aabb, Obb, PointLocation, PointQuery, Quat};
use point_batches::stream::{stream_points_to_sink, CollectSink, FailingSink, PointStream, QueryError};

fn v(x: u64, y: u64, z: u64) -> Vec3 {
    Vec3 { x, y, z }
}

fn c(red: u8) -> Color {
    Color { red, green: 0, blue: 0, alpha: 255 }
}

fn pt(x: u64, red: u8, intensity: Option<u32>) -> Point {
    Point { position: v(x, 0, 0), color: c(red), intensity }
}

/// A final flush emits the partial batch that capacity never reached.
#[test]
fn final_flush_keeps_trailing_batch() {
    let points = vec![pt(1, 1, None), pt(2, 2, None), pt(3, 3, None)];
    let mut sink = CollectSink::new();
    let result =
        stream_points_to_sink::<MaskFrame, _>(&points, 10, None, &mut sink);
    assert!(result.is_ok());
    assert_eq!(sink.batches.len(), 1);
    assert_eq!(sink.batches[0].position.len(), 3);
}

/// Flushing an empty accumulator is a no-op returning success.
#[test]
fn empty_flush_is_noop() {
    let mut stream = PointStream::<MaskFrame>::new(4, None);
    let mut sink = CollectSink::new();
    let result = stream.callback(&mut sink);
    assert!(result.is_ok());
    assert_eq!(sink.batches.len(), 0);
}

/// Every batch but the producer's last has exactly `batch_size` points.
#[test]
fn only_last_batch_partial() {
    let points: Vec<Point> = (0..7u64).map(|i| pt(i, i as u8, None)).collect();
    let mut sink = CollectSink::new();
    let result =
        stream_points_to_sink::<MaskFrame, _>(&points, 3, None, &mut sink);
    assert!(result.is_ok());
    let sizes: Vec<usize> = sink.batches.iter().map(|b| b.position.len()).collect();
    assert_eq!(sizes, vec![3, 3, 1]);
}

/// The worker projects positions through the frame it is handed.
#[test]
fn worker_applies_frame() {
    let mask = MaskFrame { mask: v(0b1010, 0, 0) };
    let points = vec![pt(0b0101, 1, None)];
    let mut sink = CollectSink::new();
    let result = stream_points_to_sink(&points, 2, Some(&mask), &mut sink);
    assert!(result.is_ok());
    assert_eq!(sink.batches[0].position[0].x, 0b1111);
}

/// A failing sink stops the worker at the failing offer; earlier full
/// batches stay delivered.
#[test]
fn worker_stops_on_sink_failure() {
    let points: Vec<Point> = (0..6u64).map(|i| pt(i, 0, None)).collect();
    let mut sink = FailingSink::new(1);
    let result = stream_points_to_sink::<MaskFrame, _>(&points, 2, None, &mut sink);
    assert_eq!(result, Err(QueryError::Callback));
    assert_eq!(sink.batches.len(), 1);
    assert_eq!(sink.batches[0].position.len(), 2);
}

/// The color layer is named and shaped as the consumer expects.
#[test]
fn color_layer_shape() {
    let points = vec![pt(1, 77, Some(5))];
    let mut sink = CollectSink::new();
    let result = stream_points_to_sink::<MaskFrame, _>(&points, 4, None, &mut sink);
    assert!(result.is_ok());
    let batch = &sink.batches[0];
    assert_eq!(batch.layers.len(), 2);
    assert_eq!(batch.layers[0].name, "color");
    match &batch.layers[0].data {
        LayerData::U8Vec4(values) => assert_eq!(values[0].red, 77),
        _ => panic!("color layer has the wrong shape"),
    }
    assert_eq!(batch.layers[1].name, "intensity");
    match &batch.layers[1].data {
        LayerData::F32(values) => assert_eq!(values, &vec![5]),
        _ => panic!("intensity layer has the wrong shape"),
    }
}

/// The all-accepting region short-circuits: no frame is attached.
#[test]
fn culling_all_points_ignores_frame() {
    let query = PointQuery::<MaskFrame> {
        location: PointLocation::AllPoints,
        global_from_local: Some(MaskFrame { mask: v(1, 2, 3) }),
    };
    let culling = query.get_point_culling();
    assert!(matches!(culling.location, PointLocation::AllPoints));
    assert!(culling.frame.is_none());
}

/// A shaped region picks up the query's frame.
#[test]
fn culling_carries_frame() {
    let mask = MaskFrame { mask: v(4, 5, 6) };
    let query = PointQuery::<MaskFrame> {
        location: PointLocation::Aabb(Aabb { min: v(0, 0, 0), max: v(1, 1, 1) }),
        global_from_local: Some(mask),
    };
    let culling = query.get_point_culling();
    assert!(matches!(culling.location, PointLocation::Aabb(_)));
    assert_eq!(culling.frame, Some(mask));
}

/// Re-framing a shaped culling composes transforms; re-framing the
/// all-accepting culling is a no-op.
#[test]
fn culling_transform_composes() {
    let first = MaskFrame { mask: v(1, 0, 0) };
    let second = MaskFrame { mask: v(2, 0, 0) };
    let query = PointQuery::<MaskFrame> {
        location: PointLocation::Obb(Obb {
            rotation: Quat { x: 0, y: 0, z: 0, w: 1 },
            translation: v(0, 0, 0),
            half_extent: v(1, 1, 1),
        }),
        global_from_local: Some(first),
    };
    let culling = query.get_point_culling().transform(&second);
    assert_eq!(culling.frame, Some(second.compose(&first)));
    assert_eq!(culling.frame.unwrap().mask, v(3, 0, 0));

    let all = PointQuery::<MaskFrame> {
        location: PointLocation::AllPoints,
        global_from_local: None,
    };
    let unmoved = all.get_point_culling().transform(&second);
    assert!(unmoved.frame.is_none());
}

/// An axis-aligned box includes its boundary and nothing beyond it.
#[test]
fn aabb_boundaries() {
    let octree = VecOctree {
        nodes: vec![vec![pt(4, 0, None), pt(5, 0, None), pt(9, 0, None), pt(10, 0, None)]],
    };
    let query = PointQuery::<MaskFrame> {
        location: PointLocation::Aabb(Aabb { min: v(5, 0, 0), max: v(9, 0, 0) }),
        global_from_local: None,
    };
    let mut iterator = BatchIterator::new(vec![&octree], &query, 8);
    let mut sink = CollectSink::new();
    assert!(iterator.try_for_each_batch(&mut sink).is_ok());
    let xs: Vec<u64> = sink.batches.iter().flat_map(|b| b.position.iter().map(|p| p.x)).collect();
    assert_eq!(xs, vec![5, 9]);
}

/// Asking a node the octree does not have yields no points.
#[test]
fn unknown_node_is_empty() {
    let octree = VecOctree { nodes: vec![vec![pt(1, 0, None)]] };
    let query = PointQuery::<MaskFrame> {
        location: PointLocation::AllPoints,
        global_from_local: None,
    };
    let nodes = octree.nodes_in_location(&query);
    assert_eq!(nodes, vec![NodeId(0)]);
    let missing = octree.points_in_node(&query, NodeId(7));
    assert!(missing.is_empty());
}

/// The channel sink forwards each batch the moment it completes; the
/// consumer side receives them in production order.
#[test]
fn channel_sink_forwards_batches() {
    let (tx, rx) = mpsc::sync_channel(10);
    let points: Vec<Point> = (0..5u64).map(|i| pt(i, 0, None)).collect();
    let mut sink = ChannelSink::new(tx);
    let result = stream_points_to_sink::<MaskFrame, _>(&points, 2, None, &mut sink);
    assert!(result.is_ok());
    drop(sink);
    let received: Vec<_> = rx.iter().collect();
    let sizes: Vec<usize> = received.iter().map(|b| b.position.len()).collect();
    assert_eq!(sizes, vec![2, 2, 1]);
}

/// A closed channel refuses the offer with the channel failure, the
/// cooperative cancellation signal a worker exits on.
#[test]
fn channel_sink_reports_cancellation() {
    let (tx, rx) = mpsc::sync_channel(10);
    drop(rx);
    let points: Vec<Point> = (0..3u64).map(|i| pt(i, 0, None)).collect();
    let mut sink = ChannelSink::new(tx);
    let result = stream_points_to_sink::<MaskFrame, _>(&points, 2, None, &mut sink);
    assert_eq!(result, Err(QueryError::Channel));
}

/// Frame composition distributes over application, concretely.
#[test]
fn frame_composition() {
    let a = MaskFrame { mask: v(0b1100, 0, 0) };
    let b = MaskFrame { mask: v(0b0110, 0, 0) };
    let p = v(0b0001, 0, 0);
    let lhs = a.compose(&b).apply(&p);
    let rhs = a.apply(&b.apply(&p));
    assert_eq!(lhs, rhs);
    assert_eq!(lhs.x, 0b1011);
    // inversion is involutive and undoes itself on application
    let back = a.apply(&a.inverse().apply(&p));
    assert_eq!(back, p);
}
