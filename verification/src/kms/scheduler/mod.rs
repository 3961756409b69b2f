//! Paint work, frame by frame.

pub mod batch_descriptor_arena;
pub mod paint_batch;
