//! The query-execution core of a point-cloud store: spatial queries over
//! octrees, streamed out as fixed-capacity columnar batches.
//!
//! [`batch_iterator::BatchIterator`] is the entry point; [`stream`] holds
//! the batch accumulator and the per-node worker; [`octree`] and
//! [`frame`] state the capabilities the core consumes; [`laws`] proves
//! the library-wide properties of a whole query.

pub mod batch_iterator;
pub mod channel;
pub mod frame;
pub mod laws;
pub mod octree;
pub mod point;
pub mod query;
pub mod stream;

use vstd::prelude::*;

verus! {

/// Default number of points gathered into one batch.
pub const NUM_POINTS_PER_BATCH: usize = 500_000;

} // verus!
