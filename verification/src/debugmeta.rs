//! Debug information that came with a profile.

use vstd::prelude::*;

verus! {

/// What an image offers for symbolication.
#[derive(Debug, Default, Clone, Copy, PartialEq, Eq)]
pub struct Features {
    pub has_debug_info: bool,
    pub has_sources: bool,
    pub has_symbols: bool,
    pub has_unwind_info: bool,
}

/// A binary that was loaded while the profile was taken.
#[derive(Debug, PartialEq, Eq)]
pub struct Image {
    pub arch: Option<String>,
    pub code_file: Option<String>,
    pub debug_id: Option<String>,
    pub debug_status: Option<String>,
    pub features: Option<Features>,
    pub image_addr: Option<String>,
    pub image_size: Option<u64>,
    pub image_vmaddr: Option<String>,
    pub image_type: Option<String>,
    pub uuid: Option<String>,
}

/// The images of a profile.
#[derive(Debug, Default, PartialEq, Eq)]
pub struct DebugMeta {
    pub images: Vec<Image>,
}

impl DebugMeta {
    /// Tells whether no image is listed.
    pub fn is_empty(&self) -> (r: bool)
        ensures
            r == (self.images@.len() == 0),
    {
        self.images.len() == 0
    }
}

} // verus!
