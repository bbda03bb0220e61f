//! The sample format: periodic samples that refer to a shared table of
//! stacks, which in turn refer to a shared table of frames.

pub mod count_laws;
pub mod laws;
pub mod merge_laws;
pub mod model;
pub mod root_laws;
pub mod span_laws;
pub mod v2;

use vstd::prelude::*;

verus! {

/// Why a set of samples cannot be turned into call trees.
#[derive(Debug, Clone, Copy, PartialEq, Eq, Structural)]
pub enum SampleError {
    /// A sample refers to a stack that the stack table does not hold.
    InvalidStackId,
    /// A stack refers to a frame that the frame table does not hold.
    InvalidFrameId,
}

} // verus!
