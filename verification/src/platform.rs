//! The platform a profile, or a single frame, was captured on.

use vstd::prelude::*;

verus! {

/// The platforms that profiles and frames come from.
#[derive(Debug, Clone, Copy, PartialEq, Eq, Structural)]
pub enum Platform {
    Android,
    Cocoa,
    Java,
    JavaScript,
    Node,
    Php,
    Python,
    Rust,
}

} // verus!
