//! What holds of the classification of frames.

use crate::frame::FrameView;
use crate::frame::rules::{
    application_by_rule, function_name, hash_bytes, main_frame, module_or_package, normalized,
    with_platform, with_status,
};
use crate::platform::Platform;
use vstd::prelude::*;
use vstd::utf8::encode_utf8;

verus! {

/// Normalizing a frame twice within the same profile gives what
/// normalizing it once gives.
pub proof fn lemma_normalize_idempotent(f: FrameView, p: Platform)
    ensures
        normalized(normalized(f, p), p) == normalized(f, p),
{
    let once = normalized(f, p);
    let staged = with_platform(with_status(f), p);
    assert(with_status(once) == once);
    assert(with_platform(once, p) == once);
    assert(module_or_package(once) == module_or_package(staged));
    assert(main_frame(once) == main_frame(staged));
    assert(application_by_rule(once) == application_by_rule(staged));
}

/// What a frame feeds to the hasher depends on its package and on the name
/// of its function alone.
pub proof fn lemma_hash_bytes_of_package_and_name(f: FrameView, g: FrameView)
    requires
        module_or_package(f) == module_or_package(g),
        function_name(f) == function_name(g),
    ensures
        hash_bytes(f) == hash_bytes(g),
{
}

/// A frame with neither package nor function name feeds two dashes to the
/// hasher, whatever else it holds.
pub proof fn lemma_hash_bytes_of_blank(f: FrameView)
    requires
        module_or_package(f).len() == 0,
        function_name(f).len() == 0,
    ensures
        hash_bytes(f) == encode_utf8("-"@) + encode_utf8("-"@),
{
}

} // verus!
