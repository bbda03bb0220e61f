//! Path conventions of application bundles.

use crate::text::{chars_of, contains_chars, has_substring, matches_at, starts_with};
use vstd::prelude::*;

verus! {

/// A package path that lies where iOS keeps applications: system libraries
/// are stored elsewhere.
pub open spec fn cocoa_application_package(p: Seq<char>) -> bool {
    ||| starts_with(p, "/private/var/containers"@)
    ||| starts_with(p, "/var/containers"@)
    ||| has_substring(p, "/Developer/Xcode/DerivedData"@)
    ||| has_substring(p, "/data/Containers/Bundle/Application"@)
}

/// Determines whether an image is the application binary, or a binary
/// embedded in it, by its package path.
pub fn is_cocoa_application_package(p: &str) -> (r: bool)
    ensures
        r == cocoa_application_package(p@),
{
    let chars = chars_of(p);
    matches_at(&chars, &chars_of("/private/var/containers"), 0)
        || matches_at(&chars, &chars_of("/var/containers"), 0)
        || contains_chars(&chars, &chars_of("/Developer/Xcode/DerivedData"))
        || contains_chars(&chars, &chars_of("/data/Containers/Bundle/Application"))
}

} // verus!
