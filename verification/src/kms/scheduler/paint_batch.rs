//! A frame's accumulated paint work.

use vstd::prelude::*;

verus! {

/// Opened at the start of a composite cycle and closed at its end.
#[derive(Debug)]
pub struct PaintBatch {
    pub frame_id: u64,
    /// Outputs that will composite from this batch.
    pub dirty_outputs: Vec<usize>,
}

impl PaintBatch {
    pub fn new(frame_id: u64) -> (r: Self)
        ensures
            r.frame_id == frame_id,
            r.dirty_outputs@ == Seq::<usize>::empty(),
    {
        PaintBatch { frame_id, dirty_outputs: Vec::new() }
    }
}

} // verus!
