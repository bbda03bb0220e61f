//! The rules that give a frame its display name, its part in a fingerprint
//! and its place among application or system code.

use crate::frame::{
    FrameView, JS_SYSTEM_PACKAGE_PATTERN, PACKAGE_EXTENSION_PATTERN, WINDOWS_PATH_PATTERN,
};
use crate::frame::python_std_lib::python_stdlib_module;
use crate::packageutil::cocoa_application_package;
use crate::pattern::{found, stripped};
use crate::platform::Platform;
use crate::text::{after_last, before_first, has_substring, starts_with, without_trailing};
use vstd::prelude::*;
use vstd::utf8::encode_utf8;

verus! {

/// The separator of a package path: a backslash for a Windows path, a
/// slash for any other.
pub open spec fn path_separator(pkg: Seq<char>) -> char {
    if found(WINDOWS_PATH_PATTERN@, pkg) {
        '\\'
    } else {
        '/'
    }
}

/// The last component of `pkg`, split on `sep`, that is not empty; `pkg`
/// itself where every component is empty.
pub open spec fn file_name(pkg: Seq<char>, sep: char) -> Seq<char> {
    let trimmed = without_trailing(pkg, sep);
    if trimmed.len() > 0 {
        after_last(trimmed, sep)
    } else {
        pkg
    }
}

/// The display name of a package path: its file name without the
/// extension of a binary.
pub open spec fn trimmed_package(pkg: Seq<char>) -> Seq<char> {
    stripped(PACKAGE_EXTENSION_PATTERN@, file_name(pkg, path_separator(pkg)))
}

/// The name of a frame's function, empty where it has none.
pub open spec fn function_name(f: FrameView) -> Seq<char> {
    match f.function {
        Some(name) => name,
        None => Seq::empty(),
    }
}

/// The module name where there is one, else the trimmed package, else
/// nothing.
pub open spec fn module_or_package(f: FrameView) -> Seq<char> {
    if f.module is Some && f.module->0.len() > 0 {
        f.module->0
    } else if f.package is Some && f.package->0.len() > 0 {
        trimmed_package(f.package->0)
    } else {
        Seq::empty()
    }
}

/// What a frame contributes to a fingerprint: its package and its function
/// name, each replaced by a dash where it is empty.
pub open spec fn hash_bytes(f: FrameView) -> Seq<u8> {
    let package = module_or_package(f);
    let name = function_name(f);
    (if package.len() == 0 {
        encode_utf8("-"@)
    } else {
        encode_utf8(package)
    }) + (if name.len() == 0 {
        encode_utf8("-"@)
    } else {
        encode_utf8(name)
    })
}

/// Whether a symbolicated frame is the entry point of the process, and by
/// how many frames the caller is to be kept.
pub open spec fn main_frame(f: FrameView) -> (bool, i32) {
    if f.status != Some("symbolicated"@) {
        (false, 0i32)
    } else if f.function == Some("main"@) {
        (true, 0i32)
    } else if f.function == Some("UIApplicationMain"@) {
        (true, -1i32)
    } else {
        (false, 0i32)
    }
}

/// Node: system code is what comes with the runtime or from
/// `node_modules`.
pub open spec fn node_application(f: FrameView) -> bool {
    match f.path {
        None => true,
        Some(path) => !starts_with(path, "node:"@) && !has_substring(path, "node_modules"@),
    }
}

/// JavaScript: system code is a function whose name starts with a bracket,
/// and what lies at a path that the pattern of system packages matches.
pub open spec fn javascript_application(f: FrameView) -> bool {
    if f.function is Some && starts_with(f.function->0, "["@) {
        false
    } else {
        match f.path {
            None => true,
            Some(path) => path.len() == 0 || !found(JS_SYSTEM_PACKAGE_PATTERN@, path),
        }
    }
}

/// Packages that are never the application's own.
pub open spec fn cocoa_system_package(name: Seq<char>) -> bool {
    name == "Sentry"@ || name == "hermes"@
}

/// Cocoa: the entry point of the process and the system packages are
/// system code; any other frame goes by the path of its package.
pub open spec fn cocoa_application(f: FrameView) -> bool {
    if main_frame(f).0 {
        false
    } else if cocoa_system_package(module_or_package(f)) {
        false
    } else {
        match f.package {
            None => false,
            Some(package) => cocoa_application_package(package),
        }
    }
}

/// Rust: application code has a package, and that lies outside the
/// standard library, the toolchain and the system's libraries.
pub open spec fn rust_application(f: FrameView) -> bool {
    match f.package {
        None => false,
        Some(package) => {
            &&& !has_substring(package, "/library/std/src/"@)
            &&& !starts_with(package, "/usr/lib/system/"@)
            &&& !starts_with(package, "/rustc/"@)
            &&& !starts_with(package, "/usr/local/rustup/"@)
            &&& !starts_with(package, "/usr/local/cargo/"@)
        },
    }
}

/// A path below a directory of installed packages, or below `/usr/local/`.
pub open spec fn python_system_path(path: Seq<char>) -> bool {
    ||| has_substring(path, "/site-packages/"@)
    ||| has_substring(path, "/dist-packages/"@)
    ||| has_substring(path, "\\site-packages\\"@)
    ||| has_substring(path, "\\dist-packages\\"@)
    ||| starts_with(path, "/usr/local/"@)
}

/// Python: system code is what lies at a system path, the profiling SDK,
/// and the standard library, told by the first part of the module name.
pub open spec fn python_application(f: FrameView) -> bool {
    if f.path is Some && python_system_path(f.path->0) {
        false
    } else {
        match f.module {
            None => true,
            Some(module) => {
                let top = before_first(module, '.');
                top != "sentry_sdk"@ && !python_stdlib_module(top)
            },
        }
    }
}

/// PHP: system code is what lies below a `vendor` directory.
pub open spec fn php_application(f: FrameView) -> bool {
    match f.path {
        None => true,
        Some(path) => !has_substring(path, "/vendor/"@),
    }
}

/// What the rules of the frame's own platform say of it.
pub open spec fn application_by_rule(f: FrameView) -> bool {
    match f.platform {
        Some(Platform::Node) => node_application(f),
        Some(Platform::JavaScript) => javascript_application(f),
        Some(Platform::Cocoa) => cocoa_application(f),
        Some(Platform::Rust) => rust_application(f),
        Some(Platform::Python) => python_application(f),
        Some(Platform::Php) => php_application(f),
        _ => false,
    }
}

/// The frame with the symbolicator's status, where that is not empty, taken
/// over as its status.
pub open spec fn with_status(f: FrameView) -> FrameView {
    match f.data {
        Some(data) => match data.symbolicator_status {
            Some(status) => if status.len() > 0 {
                FrameView { status: Some(status), ..f }
            } else {
                f
            },
            None => f,
        },
        None => f,
    }
}

/// The frame with `p` as its platform where it had none.
pub open spec fn with_platform(f: FrameView, p: Platform) -> FrameView {
    if f.platform is None {
        FrameView { platform: Some(p), ..f }
    } else {
        f
    }
}

/// The frame with `in_app` decided: a declared value stands where the frame
/// is of the platform `p`; any other frame goes by the rules.
pub open spec fn with_in_app(f: FrameView, p: Platform) -> FrameView {
    if f.in_app is Some && f.platform == Some(p) {
        f
    } else {
        FrameView { in_app: Some(application_by_rule(f)), ..f }
    }
}

/// The frame as `normalize` leaves it within a profile of the platform `p`.
pub open spec fn normalized(f: FrameView, p: Platform) -> FrameView {
    with_in_app(with_platform(with_status(f), p), p)
}

} // verus!
