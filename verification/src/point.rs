//! Per-point and per-batch data shapes exchanged between octree traversal
//! and the consumer callback.
//!
//! Coordinates are carried as opaque 64-bit words (one per axis). The core
//! never does arithmetic on them: it only copies them through frame
//! transforms supplied by the caller, so their interpretation (typically an
//! IEEE-754 encoding chosen by the storage layer) belongs to the
//! collaborators on either side.

use vstd::prelude::*;

verus! {

/// One 3-dimensional coordinate triple, one 64-bit word per axis.
#[derive(Clone, Copy, Debug, PartialEq, Eq, Structural)]
pub struct Vec3 {
    pub x: u64,
    pub y: u64,
    pub z: u64,
}

/// One RGBA color sample, one byte per channel.
#[derive(Clone, Copy, Debug, PartialEq, Eq, Structural)]
pub struct Color {
    pub red: u8,
    pub green: u8,
    pub blue: u8,
    pub alpha: u8,
}

/// One stored sample: a position, a color, and an optional intensity
/// (a single-precision scalar carried as its 32-bit word).
#[derive(Clone, Copy, Debug, PartialEq, Eq)]
pub struct Point {
    pub position: Vec3,
    pub color: Color,
    pub intensity: Option<u32>,
}

/// Columnar storage for one attribute layer of a batch.
#[derive(Clone, Debug)]
pub enum LayerData {
    /// Four unsigned bytes per point (the color layer).
    U8Vec4(Vec<Color>),
    /// One 32-bit word per point (the intensity layer).
    F32(Vec<u32>),
}

/// One named attribute layer of a batch.
#[derive(Clone, Debug)]
pub struct Layer {
    pub name: String,
    pub data: LayerData,
}

/// The unit delivered to the consumer: an ordered run of positions plus the
/// attribute layers aligned with it. Layer names are unique; the batch
/// accumulator emits the color layer first and an intensity layer second
/// when any intensity values were gathered.
#[derive(Clone, Debug)]
pub struct PointData {
    pub position: Vec<Vec3>,
    pub layers: Vec<Layer>,
}

/// Length of the value column held by a layer.
pub open spec fn layer_len(d: LayerData) -> nat {
    match d {
        LayerData::U8Vec4(v) => v@.len(),
        LayerData::F32(v) => v@.len(),
    }
}

impl PointData {
    /// Number of points in the batch.
    pub open spec fn num_points(self) -> nat {
        self.position@.len()
    }

    /// The batch carries a color layer in the leading slot.
    pub open spec fn has_color(self) -> bool {
        &&& self.layers@.len() >= 1
        &&& self.layers@[0].name@ == "color"@
        &&& self.layers@[0].data is U8Vec4
    }

    /// The color column (empty if the leading layer is missing or malformed).
    pub open spec fn color_values(self) -> Seq<Color> {
        if self.layers@.len() >= 1 {
            match self.layers@[0].data {
                LayerData::U8Vec4(v) => v@,
                LayerData::F32(_) => Seq::empty(),
            }
        } else {
            Seq::empty()
        }
    }

    /// The batch carries an intensity layer in the second slot.
    pub open spec fn has_intensity(self) -> bool {
        &&& self.layers@.len() >= 2
        &&& self.layers@[1].name@ == "intensity"@
        &&& self.layers@[1].data is F32
    }

    /// The intensity column (empty when the layer is absent).
    pub open spec fn intensity_values(self) -> Seq<u32> {
        if self.layers@.len() >= 2 {
            match self.layers@[1].data {
                LayerData::F32(v) => v@,
                LayerData::U8Vec4(_) => Seq::empty(),
            }
        } else {
            Seq::empty()
        }
    }
}

/// Well-formedness of one delivered batch against a capacity bound:
/// non-empty, no larger than the capacity, color layer present and aligned
/// with the positions, and at most one further layer, which is then a
/// non-empty intensity layer no longer than the positions.
pub open spec fn batch_wf(b: PointData, cap: nat) -> bool {
    &&& 1 <= b.num_points() <= cap
    &&& b.has_color()
    &&& b.color_values().len() == b.num_points()
    &&& b.layers@.len() <= 2
    &&& (b.layers@.len() == 2 ==> b.has_intensity() && 1 <= b.intensity_values().len()
        <= b.num_points())
}

/// All positions delivered across a run of batches, in delivery order.
pub open spec fn delivered_positions(bs: Seq<PointData>) -> Seq<Vec3>
    decreases bs.len(),
{
    if bs.len() == 0 {
        Seq::empty()
    } else {
        delivered_positions(bs.drop_last()) + bs.last().position@
    }
}

/// All color values delivered across a run of batches, in delivery order.
pub open spec fn delivered_colors(bs: Seq<PointData>) -> Seq<Color>
    decreases bs.len(),
{
    if bs.len() == 0 {
        Seq::empty()
    } else {
        delivered_colors(bs.drop_last()) + bs.last().color_values()
    }
}

/// All intensity values delivered across a run of batches, in delivery order.
pub open spec fn delivered_intensities(bs: Seq<PointData>) -> Seq<u32>
    decreases bs.len(),
{
    if bs.len() == 0 {
        Seq::empty()
    } else {
        delivered_intensities(bs.drop_last()) + bs.last().intensity_values()
    }
}

/// The colors of a run of points, in order.
pub open spec fn colors_of(pts: Seq<Point>) -> Seq<Color> {
    pts.map_values(|p: Point| p.color)
}

/// The intensity values of a run of points, in order, skipping points that
/// carry none.
pub open spec fn intensities_of(pts: Seq<Point>) -> Seq<u32>
    decreases pts.len(),
{
    if pts.len() == 0 {
        Seq::empty()
    } else {
        intensities_of(pts.drop_last()) + match pts.last().intensity {
            Some(v) => seq![v],
            None => Seq::empty(),
        }
    }
}

/// Splitting a run of points splits its intensity column.
pub proof fn lemma_intensities_of_concat(a: Seq<Point>, b: Seq<Point>)
    ensures
        intensities_of(a + b) == intensities_of(a) + intensities_of(b),
    decreases b.len(),
{
    if b.len() == 0 {
        assert(a + b =~= a);
        assert(intensities_of(a + b) =~= intensities_of(a) + intensities_of(b));
    } else {
        lemma_intensities_of_concat(a, b.drop_last());
        assert((a + b).drop_last() =~= a + b.drop_last());
        assert((a + b).last() == b.last());
        assert(intensities_of(a + b) =~= intensities_of(a) + intensities_of(b));
    }
}

/// Splitting a run of batches splits each delivered column.
pub proof fn lemma_delivered_concat(a: Seq<PointData>, b: Seq<PointData>)
    ensures
        delivered_positions(a + b) == delivered_positions(a) + delivered_positions(b),
        delivered_colors(a + b) == delivered_colors(a) + delivered_colors(b),
        delivered_intensities(a + b) == delivered_intensities(a) + delivered_intensities(b),
    decreases b.len(),
{
    if b.len() == 0 {
        assert(a + b =~= a);
        assert(delivered_positions(a + b) =~= delivered_positions(a) + delivered_positions(b));
        assert(delivered_colors(a + b) =~= delivered_colors(a) + delivered_colors(b));
        assert(delivered_intensities(a + b) =~= delivered_intensities(a) + delivered_intensities(
            b,
        ));
    } else {
        lemma_delivered_concat(a, b.drop_last());
        assert((a + b).drop_last() =~= a + b.drop_last());
        assert((a + b).last() == b.last());
        assert(delivered_positions(a + b) =~= delivered_positions(a) + delivered_positions(b));
        assert(delivered_colors(a + b) =~= delivered_colors(a) + delivered_colors(b));
        assert(delivered_intensities(a + b) =~= delivered_intensities(a) + delivered_intensities(
            b,
        ));
    }
}

} // verus!
