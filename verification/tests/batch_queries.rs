//! End-to-end tests of the batch iterator over the in-memory octree.

use point_batches::batch_iterator::BatchIterator;
use point_batches::frame::{Identity, MaskFrame};
use point_batches::octree::VecOctree;
use point_batches::point::{Color, LayerData, Point, PointData, Vec3};
use point_batches::query::{Aabb, PointLocation, PointQuery};
use point_batches::stream::{CollectSink, FailingSink, QueryError};

fn v(x: u64, y: u64, z: u64) -> Vec3 {
    Vec3 { x, y, z }
}

fn c(red: u8, green: u8, blue: u8, alpha: u8) -> Color {
    Color { red, green, blue, alpha }
}

fn pt(x: u64, red: u8, intensity: Option<u32>) -> Point {
    Point { position: v(x, 0, 0), color: c(red, 0, 0, 255), intensity }
}

fn octree_of(node_lists: Vec<Vec<Point>>) -> VecOctree {
    VecOctree { nodes: node_lists }
}

fn color_layer(batch: &PointData) -> &Vec<Color> {
    assert_eq!(batch.layers[0].name, "color");
    match &batch.layers[0].data {
        LayerData::U8Vec4(values) => values,
        _ => panic!("color layer has the wrong shape"),
    }
}

fn intensity_layer(batch: &PointData) -> Option<&Vec<u32>> {
    if batch.layers.len() < 2 {
        return None;
    }
    assert_eq!(batch.layers[1].name, "intensity");
    match &batch.layers[1].data {
        LayerData::F32(values) => Some(values),
        _ => panic!("intensity layer has the wrong shape"),
    }
}

fn run_query(
    octrees: Vec<&VecOctree>,
    query: &PointQuery<MaskFrame>,
    batch_size: usize,
) -> (Result<(), QueryError>, Vec<PointData>) {
    let mut iterator = BatchIterator::new(octrees, query, batch_size);
    let mut sink = CollectSink::new();
    let result = iterator.try_for_each_batch(&mut sink);
    (result, sink.batches)
}

fn all_positions(batches: &[PointData]) -> Vec<Vec3> {
    let mut out = Vec::new();
    for b in batches {
        out.extend(b.position.iter().cloned());
    }
    out
}

/// Three points inside an axis-aligned box, batch size two: exactly two
/// batches, sizes two and one, covering all three points once, each with
/// an aligned color layer.
#[test]
fn three_points_two_batches() {
    let octree = octree_of(vec![vec![
        pt(1, 10, None),
        pt(2, 20, None),
        pt(3, 30, None),
    ]]);
    let query = PointQuery::<MaskFrame> {
        location: PointLocation::Aabb(Aabb { min: v(0, 0, 0), max: v(10, 10, 10) }),
        global_from_local: None,
    };
    let (result, batches) = run_query(vec![&octree], &query, 2);
    assert!(result.is_ok());
    assert_eq!(batches.len(), 2);
    let mut sizes: Vec<usize> = batches.iter().map(|b| b.position.len()).collect();
    sizes.sort();
    assert_eq!(sizes, vec![1, 2]);
    for b in &batches {
        assert_eq!(color_layer(b).len(), b.position.len());
        assert!(intensity_layer(b).is_none());
    }
    let mut xs: Vec<u64> = all_positions(&batches).iter().map(|p| p.x).collect();
    xs.sort();
    assert_eq!(xs, vec![1, 2, 3]);
}

/// A region containing zero points: success, and no batch delivered.
#[test]
fn empty_region_zero_callbacks() {
    let octree = octree_of(vec![vec![pt(100, 1, None), pt(200, 2, None)]]);
    let query = PointQuery::<MaskFrame> {
        location: PointLocation::Aabb(Aabb { min: v(0, 0, 0), max: v(10, 10, 10) }),
        global_from_local: None,
    };
    let (result, batches) = run_query(vec![&octree], &query, 4);
    assert!(result.is_ok());
    assert_eq!(batches.len(), 0);
}

/// The sink fails on the first batch offered: the call returns that
/// failure, nothing is delivered, and the call terminates.
#[test]
fn callback_failure_on_first_batch() {
    let octree = octree_of(vec![vec![pt(1, 1, None), pt(2, 2, None), pt(3, 3, None)]]);
    let query = PointQuery::<MaskFrame> {
        location: PointLocation::AllPoints,
        global_from_local: None,
    };
    let mut iterator = BatchIterator::new(vec![&octree], &query, 2);
    let mut sink = FailingSink::new(0);
    let result = iterator.try_for_each_batch(&mut sink);
    assert_eq!(result, Err(QueryError::Callback));
    assert_eq!(sink.batches.len(), 0);
}

/// The sink fails after one batch: exactly the first batch is kept.
#[test]
fn callback_failure_on_second_batch() {
    let octree = octree_of(vec![vec![
        pt(1, 1, None),
        pt(2, 2, None),
        pt(3, 3, None),
        pt(4, 4, None),
    ]]);
    let query = PointQuery::<MaskFrame> {
        location: PointLocation::AllPoints,
        global_from_local: None,
    };
    let mut iterator = BatchIterator::new(vec![&octree], &query, 2);
    let mut sink = FailingSink::new(1);
    let result = iterator.try_for_each_batch(&mut sink);
    assert_eq!(result, Err(QueryError::Callback));
    assert_eq!(sink.batches.len(), 1);
    assert_eq!(sink.batches[0].position.len(), 2);
    let xs: Vec<u64> = all_positions(&sink.batches).iter().map(|p| p.x).collect();
    assert_eq!(xs, vec![1, 2]);
}

/// An unconstrained query over two octrees returns every stored point
/// exactly once, across several nodes.
#[test]
fn all_points_two_octrees() {
    let a = octree_of(vec![
        vec![pt(1, 1, None), pt(2, 2, None)],
        vec![],
        vec![pt(3, 3, None)],
    ]);
    let b = octree_of(vec![vec![pt(4, 4, None), pt(5, 5, None), pt(6, 6, None)]]);
    let query = PointQuery::<MaskFrame> {
        location: PointLocation::AllPoints,
        global_from_local: None,
    };
    let (result, batches) = run_query(vec![&a, &b], &query, 2);
    assert!(result.is_ok());
    let mut xs: Vec<u64> = all_positions(&batches).iter().map(|p| p.x).collect();
    xs.sort();
    assert_eq!(xs, vec![1, 2, 3, 4, 5, 6]);
    for batch in &batches {
        assert!(batch.position.len() >= 1 && batch.position.len() <= 2);
        assert_eq!(color_layer(batch).len(), batch.position.len());
    }
}

/// The whole-result run never fails: it hands back every batch of the
/// query against an all-accepting sink.
#[test]
fn collect_batches_returns_everything() {
    let octree = octree_of(vec![vec![pt(1, 1, None), pt(2, 2, None), pt(3, 3, None)]]);
    let query = PointQuery::<MaskFrame> {
        location: PointLocation::AllPoints,
        global_from_local: None,
    };
    let mut iterator = BatchIterator::new(vec![&octree], &query, 2);
    let batches = iterator.collect_batches();
    let mut xs: Vec<u64> = all_positions(&batches).iter().map(|p| p.x).collect();
    xs.sort();
    assert_eq!(xs, vec![1, 2, 3]);
}

/// Running the same query twice against an unmodified octree yields the
/// same points.
#[test]
fn idempotent_runs() {
    let octree = octree_of(vec![
        vec![pt(5, 1, Some(7)), pt(6, 2, Some(8))],
        vec![pt(7, 3, Some(9))],
    ]);
    let query = PointQuery::<MaskFrame> {
        location: PointLocation::Aabb(Aabb { min: v(5, 0, 0), max: v(6, 0, 0) }),
        global_from_local: None,
    };
    let (r1, batches1) = run_query(vec![&octree], &query, 10);
    let (r2, batches2) = run_query(vec![&octree], &query, 10);
    assert!(r1.is_ok() && r2.is_ok());
    let xs1: Vec<u64> = all_positions(&batches1).iter().map(|p| p.x).collect();
    let xs2: Vec<u64> = all_positions(&batches2).iter().map(|p| p.x).collect();
    assert_eq!(xs1, xs2);
    assert_eq!(xs1, vec![5, 6]);
}

/// Two disjoint boxes covering every stored point: their two runs
/// together deliver the same points as one unconstrained run.
#[test]
fn disjoint_regions_union() {
    let octree = octree_of(vec![
        vec![pt(1, 1, None), pt(12, 2, None)],
        vec![pt(5, 3, None), pt(15, 4, None)],
    ]);
    let low = PointQuery::<MaskFrame> {
        location: PointLocation::Aabb(Aabb { min: v(0, 0, 0), max: v(9, 9, 9) }),
        global_from_local: None,
    };
    let high = PointQuery::<MaskFrame> {
        location: PointLocation::Aabb(Aabb { min: v(10, 0, 0), max: v(20, 9, 9) }),
        global_from_local: None,
    };
    let union = PointQuery::<MaskFrame> {
        location: PointLocation::AllPoints,
        global_from_local: None,
    };
    let (r1, b1) = run_query(vec![&octree], &low, 3);
    let (r2, b2) = run_query(vec![&octree], &high, 3);
    let (ru, bu) = run_query(vec![&octree], &union, 3);
    assert!(r1.is_ok() && r2.is_ok() && ru.is_ok());
    let mut split: Vec<u64> = all_positions(&b1).iter().map(|p| p.x).collect();
    split.extend(all_positions(&b2).iter().map(|p| p.x));
    split.sort();
    let mut whole: Vec<u64> = all_positions(&bu).iter().map(|p| p.x).collect();
    whole.sort();
    assert_eq!(split, whole);
    assert_eq!(whole, vec![1, 5, 12, 15]);
}

/// With `global_from_local` set, every emitted position is the stored
/// position carried through the inverse transform, and applying the
/// transform again recovers the stored position.
#[test]
fn local_frame_round_trip() {
    let mask = MaskFrame { mask: v(0xFF, 0xF0, 0x0F) };
    let stored = [v(1, 2, 3), v(100, 200, 300)];
    let octree = octree_of(vec![vec![
        Point { position: stored[0], color: c(1, 1, 1, 1), intensity: None },
        Point { position: stored[1], color: c(2, 2, 2, 2), intensity: None },
    ]]);
    let query = PointQuery::<MaskFrame> {
        location: PointLocation::AllPoints,
        global_from_local: Some(mask),
    };
    let (result, batches) = run_query(vec![&octree], &query, 10);
    assert!(result.is_ok());
    let emitted = all_positions(&batches);
    assert_eq!(emitted.len(), 2);
    for (e, s) in emitted.iter().zip(stored.iter()) {
        // the mask frame is its own inverse
        assert_eq!(e.x, s.x ^ 0xFF);
        assert_eq!(e.y, s.y ^ 0xF0);
        assert_eq!(e.z, s.z ^ 0x0F);
        // applying the frame to the emitted position recovers the original
        assert_eq!(e.x ^ 0xFF, s.x);
        assert_eq!(e.y ^ 0xF0, s.y);
        assert_eq!(e.z ^ 0x0F, s.z);
    }
}

/// The identity frame leaves emitted positions untouched.
#[test]
fn identity_frame_is_noop() {
    let octree = octree_of(vec![vec![pt(42, 9, None)]]);
    let query = PointQuery::<Identity> {
        location: PointLocation::AllPoints,
        global_from_local: Some(Identity),
    };
    let mut iterator = BatchIterator::new(vec![&octree], &query, 5);
    let mut sink = CollectSink::new();
    let result = iterator.try_for_each_batch(&mut sink);
    assert!(result.is_ok());
    assert_eq!(sink.batches.len(), 1);
    assert_eq!(sink.batches[0].position[0], v(42, 0, 0));
}

/// Intensity is carried when present on every source point, full-length
/// and index-aligned.
#[test]
fn intensity_layer_full() {
    let octree = octree_of(vec![vec![
        pt(1, 1, Some(11)),
        pt(2, 2, Some(22)),
        pt(3, 3, Some(33)),
    ]]);
    let query = PointQuery::<MaskFrame> {
        location: PointLocation::AllPoints,
        global_from_local: None,
    };
    let (result, batches) = run_query(vec![&octree], &query, 2);
    assert!(result.is_ok());
    let mut seen: Vec<u32> = Vec::new();
    for b in &batches {
        let layer = intensity_layer(b).expect("intensity layer missing");
        assert_eq!(layer.len(), b.position.len());
        seen.extend(layer.iter().cloned());
    }
    seen.sort();
    assert_eq!(seen, vec![11, 22, 33]);
}

/// The sharp edge the accumulator does not enforce: a batch mixing points
/// with and without intensity gets a shorter intensity layer.
#[test]
fn mixed_intensity_layer_is_partial() {
    let octree = octree_of(vec![vec![pt(1, 1, Some(11)), pt(2, 2, None)]]);
    let query = PointQuery::<MaskFrame> {
        location: PointLocation::AllPoints,
        global_from_local: None,
    };
    let (result, batches) = run_query(vec![&octree], &query, 2);
    assert!(result.is_ok());
    assert_eq!(batches.len(), 1);
    assert_eq!(batches[0].position.len(), 2);
    let layer = intensity_layer(&batches[0]).expect("intensity layer missing");
    assert_eq!(layer, &vec![11]);
}
