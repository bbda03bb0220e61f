//! Types shared by the profile formats.

pub use crate::debugmeta::DebugMeta;
pub use crate::platform::Platform;
use crate::sample::SampleError;
use vstd::prelude::*;

verus! {

/// Why the call trees of a profile could not be built.
#[derive(Debug, Clone, Copy, PartialEq, Eq, Structural)]
pub enum CallTreeError {
    Sample(SampleError),
    Android,
}

/// The words that describe an error.
pub open spec fn error_text(e: CallTreeError) -> Seq<char> {
    match e {
        CallTreeError::Sample(SampleError::InvalidStackId) => "invalid stack id"@,
        CallTreeError::Sample(SampleError::InvalidFrameId) => "invalid frame id"@,
        CallTreeError::Android => "generic android call_tree error"@,
    }
}

impl CallTreeError {
    /// Describes the error in words.
    pub fn message(&self) -> (r: String)
        ensures
            r@ == error_text(*self),
    {
        match self {
            CallTreeError::Sample(SampleError::InvalidStackId) => "invalid stack id".to_owned(),
            CallTreeError::Sample(SampleError::InvalidFrameId) => "invalid frame id".to_owned(),
            CallTreeError::Android => "generic android call_tree error".to_owned(),
        }
    }
}

} // verus!
