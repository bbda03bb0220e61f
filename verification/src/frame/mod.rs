//! Stack frames and the rules that tell application code from system code.

pub mod laws;
pub mod python_std_lib;
pub mod rules;

use crate::fingerprint::{hashed_bytes, hasher_write};
use crate::frame::rules::{
    cocoa_application, cocoa_system_package, file_name, hash_bytes, javascript_application,
    main_frame, module_or_package, node_application, normalized, php_application,
    python_application, rust_application, trimmed_package, with_in_app, with_platform, with_status,
};
use crate::packageutil::{cocoa_application_package, is_cocoa_application_package};
use crate::pattern::{found, matches_pattern, strip_pattern};
use crate::platform::Platform;
use crate::text::{
    chars_of, component_start, contains_chars, first_component_len, has_substring, matches_at,
    starts_with, str_equals, trimmed_len,
};
use fnv_rs::Fnv64;
use python_std_lib::is_python_stdlib_module;
use vstd::prelude::*;

verus! {

/// A package path that starts with a drive letter or with two backslashes.
pub const WINDOWS_PATH_PATTERN: &'static str = r"(?i)^([a-z]:\\|\\\\)";

/// The file extensions of binaries, at the end of a name.
pub const PACKAGE_EXTENSION_PATTERN: &'static str = r"\.(dylib|so|a|dll|exe)$";

/// Paths of JavaScript code that is not the application's own.
pub const JS_SYSTEM_PACKAGE_PATTERN: &'static str =
    r"node_modules|^(@moz-extension|chrome-extension)";

/// What symbolication has left on a frame.
#[derive(Debug, PartialEq, Eq)]
pub struct Data {
    pub deobfuscation_status: Option<String>,
    pub symbolicator_status: Option<String>,
    pub js_symbolicated: Option<bool>,
}

/// One entry of a stack: a place in the code, with the module or package
/// it belongs to, whether it is application code, and how far it has been
/// symbolicated.
#[derive(Debug, PartialEq, Eq)]
pub struct Frame {
    pub column: Option<u32>,
    pub data: Option<Data>,
    pub file: Option<String>,
    pub function: Option<String>,
    pub in_app: Option<bool>,
    pub instruction_addr: Option<String>,
    pub lang: Option<String>,
    pub line: Option<u32>,
    pub module: Option<String>,
    pub package: Option<String>,
    pub path: Option<String>,
    pub status: Option<String>,
    pub sym_addr: Option<String>,
    pub symbol: Option<String>,
    pub platform: Option<Platform>,
}

/// `Data` with its strings as character sequences.
pub struct DataView {
    pub deobfuscation_status: Option<Seq<char>>,
    pub symbolicator_status: Option<Seq<char>>,
    pub js_symbolicated: Option<bool>,
}

/// A frame with its strings as character sequences.
pub struct FrameView {
    pub column: Option<u32>,
    pub data: Option<DataView>,
    pub file: Option<Seq<char>>,
    pub function: Option<Seq<char>>,
    pub in_app: Option<bool>,
    pub instruction_addr: Option<Seq<char>>,
    pub lang: Option<Seq<char>>,
    pub line: Option<u32>,
    pub module: Option<Seq<char>>,
    pub package: Option<Seq<char>>,
    pub path: Option<Seq<char>>,
    pub status: Option<Seq<char>>,
    pub sym_addr: Option<Seq<char>>,
    pub symbol: Option<Seq<char>>,
    pub platform: Option<Platform>,
}

/// The characters of an optional string.
pub open spec fn text_view(t: Option<String>) -> Option<Seq<char>> {
    match t {
        Some(s) => Some(s@),
        None => None,
    }
}

impl View for Data {
    type V = DataView;

    open spec fn view(&self) -> DataView {
        DataView {
            deobfuscation_status: text_view(self.deobfuscation_status),
            symbolicator_status: text_view(self.symbolicator_status),
            js_symbolicated: self.js_symbolicated,
        }
    }
}

impl View for Frame {
    type V = FrameView;

    open spec fn view(&self) -> FrameView {
        FrameView {
            column: self.column,
            data: match self.data {
                Some(d) => Some(d@),
                None => None,
            },
            file: text_view(self.file),
            function: text_view(self.function),
            in_app: self.in_app,
            instruction_addr: text_view(self.instruction_addr),
            lang: text_view(self.lang),
            line: self.line,
            module: text_view(self.module),
            package: text_view(self.package),
            path: text_view(self.path),
            status: text_view(self.status),
            sym_addr: text_view(self.sym_addr),
            symbol: text_view(self.symbol),
            platform: self.platform,
        }
    }
}

/// A copy of an optional string.
pub fn clone_text(t: &Option<String>) -> (r: Option<String>)
    ensures
        r == *t,
{
    match t {
        Some(s) => Some(s.clone()),
        None => None,
    }
}

impl Clone for Data {
    fn clone(&self) -> (r: Self)
        ensures
            r == *self,
    {
        Data {
            deobfuscation_status: clone_text(&self.deobfuscation_status),
            symbolicator_status: clone_text(&self.symbolicator_status),
            js_symbolicated: self.js_symbolicated,
        }
    }
}

impl Clone for Frame {
    fn clone(&self) -> (r: Self)
        ensures
            r == *self,
    {
        Frame {
            column: self.column,
            data: match &self.data {
                Some(d) => Some(d.clone()),
                None => None,
            },
            file: clone_text(&self.file),
            function: clone_text(&self.function),
            in_app: self.in_app,
            instruction_addr: clone_text(&self.instruction_addr),
            lang: clone_text(&self.lang),
            line: self.line,
            module: clone_text(&self.module),
            package: clone_text(&self.package),
            path: clone_text(&self.path),
            status: clone_text(&self.status),
            sym_addr: clone_text(&self.sym_addr),
            symbol: clone_text(&self.symbol),
            platform: self.platform,
        }
    }
}

impl Default for Data {
    fn default() -> (r: Self)
        ensures
            r.deobfuscation_status is None,
            r.symbolicator_status is None,
            r.js_symbolicated is None,
    {
        Data { deobfuscation_status: None, symbolicator_status: None, js_symbolicated: None }
    }
}

/// A frame with every field unset.
pub open spec fn blank_frame() -> FrameView {
    FrameView {
        column: None,
        data: None,
        file: None,
        function: None,
        in_app: None,
        instruction_addr: None,
        lang: None,
        line: None,
        module: None,
        package: None,
        path: None,
        status: None,
        sym_addr: None,
        symbol: None,
        platform: None,
    }
}

impl Default for Frame {
    fn default() -> (r: Self)
        ensures
            r@ == blank_frame(),
    {
        Frame {
            column: None,
            data: None,
            file: None,
            function: None,
            in_app: None,
            instruction_addr: None,
            lang: None,
            line: None,
            module: None,
            package: None,
            path: None,
            status: None,
            sym_addr: None,
            symbol: None,
            platform: None,
        }
    }
}

/// The file name of the package path `pkg`, whose components `sep` parts.
pub fn file_name_of(pkg: &str, sep: char) -> (r: &str)
    ensures
        r@ == file_name(pkg@, sep),
{
    let chars = chars_of(pkg);
    let end = trimmed_len(&chars, sep);
    if end == 0 {
        return pkg;
    }
    let start = component_start(&chars, end, sep);
    proof {
        let trimmed = chars@.take(end as int);
        assert(trimmed.subrange(start as int, end as int) =~= chars@.subrange(
            start as int,
            end as int,
        ));
    }
    pkg.substring_char(start, end)
}

/// Formats a frame's package for display and aggregation.
pub fn trim_package(pkg: &str) -> (r: String)
    ensures
        r@ == trimmed_package(pkg@),
{
    let separator = if matches_pattern(WINDOWS_PATH_PATTERN, pkg) {
        '\\'
    } else {
        '/'
    };
    let filename = file_name_of(pkg, separator);
    strip_pattern(PACKAGE_EXTENSION_PATTERN, filename)
}

fn text_equals(t: &Option<String>, literal: &str) -> (r: bool)
    ensures
        r == (text_view(*t) == Some(literal@)),
{
    match t {
        Some(s) => str_equals(s.as_str(), literal),
        None => false,
    }
}

impl Frame {
    /// Tells whether the function is the main function, and by how much the
    /// previous frame is to be kept. Meant for cocoa profiles.
    pub fn is_main(&self) -> (r: (bool, i32))
        ensures
            r == main_frame(self@),
    {
        if !text_equals(&self.status, "symbolicated") {
            return (false, 0);
        }
        if text_equals(&self.function, "main") {
            (true, 0)
        } else if text_equals(&self.function, "UIApplicationMain") {
            (true, -1)
        } else {
            (false, 0)
        }
    }

    /// Tells application code from system code by the rule for Node.
    pub fn is_node_application_frame(&self) -> (r: bool)
        ensures
            r == node_application(self@),
    {
        match &self.path {
            None => true,
            Some(path) => {
                let chars = chars_of(path.as_str());
                !matches_at(&chars, &chars_of("node:"), 0) && !contains_chars(
                    &chars,
                    &chars_of("node_modules"),
                )
            },
        }
    }

    /// Tells application code from system code by the rule for JavaScript.
    pub fn is_javascript_application_frame(&self) -> (r: bool)
        ensures
            r == javascript_application(self@),
    {
        let path_matches = match &self.path {
            Some(path) => matches_pattern(JS_SYSTEM_PACKAGE_PATTERN, path.as_str()),
            None => false,
        };
        self.javascript_rule(path_matches)
    }

    /// The JavaScript rule, given whether the path matches the pattern of
    /// system packages.
    pub fn javascript_rule(&self, path_matches: bool) -> (r: bool)
        ensures
            r == if self@.function is Some && starts_with(self@.function->0, "["@) {
                false
            } else {
                match self@.path {
                    None => true,
                    Some(path) => path.len() == 0 || !path_matches,
                }
            },
    {
        match &self.function {
            Some(function) => {
                let chars = chars_of(function.as_str());
                if matches_at(&chars, &chars_of("["), 0) {
                    return false;
                }
            },
            None => {},
        }
        match &self.path {
            None => true,
            Some(path) => path.as_str().is_empty() || !path_matches,
        }
    }

    /// Tells application code from system code by the rule for Cocoa.
    pub fn is_cocoa_application_frame(&self) -> (r: bool)
        ensures
            r == cocoa_application(self@),
    {
        let name = self.module_or_package();
        self.cocoa_rule(name.as_str())
    }

    /// The Cocoa rule, given the display name of the frame's module or
    /// package.
    pub fn cocoa_rule(&self, display_name: &str) -> (r: bool)
        ensures
            r == if main_frame(self@).0 || cocoa_system_package(display_name@) {
                false
            } else {
                match self@.package {
                    None => false,
                    Some(package) => cocoa_application_package(package),
                }
            },
    {
        let (is_main, _) = self.is_main();
        if is_main {
            // the main frame is found in the user package but holds no user code
            return false;
        }
        // Some packages are known to be system packages.
        if str_equals(display_name, "Sentry") || str_equals(display_name, "hermes") {
            return false;
        }
        match &self.package {
            None => false,
            Some(package) => is_cocoa_application_package(package.as_str()),
        }
    }

    /// Tells application code from system code by the rule for Rust.
    pub fn is_rust_application_frame(&self) -> (r: bool)
        ensures
            r == rust_application(self@),
    {
        match &self.package {
            None => false,
            Some(package) => {
                let chars = chars_of(package.as_str());
                !contains_chars(&chars, &chars_of("/library/std/src/")) && !matches_at(
                    &chars,
                    &chars_of("/usr/lib/system/"),
                    0,
                ) && !matches_at(&chars, &chars_of("/rustc/"), 0) && !matches_at(
                    &chars,
                    &chars_of("/usr/local/rustup/"),
                    0,
                ) && !matches_at(&chars, &chars_of("/usr/local/cargo/"), 0)
            },
        }
    }

    /// Tells application code from system code by the rule for Python.
    pub fn is_python_application_frame(&self) -> (r: bool)
        ensures
            r == python_application(self@),
    {
        match &self.path {
            Some(path) => {
                let chars = chars_of(path.as_str());
                if contains_chars(&chars, &chars_of("/site-packages/")) || contains_chars(
                    &chars,
                    &chars_of("/dist-packages/"),
                ) || contains_chars(&chars, &chars_of("\\site-packages\\")) || contains_chars(
                    &chars,
                    &chars_of("\\dist-packages\\"),
                ) || matches_at(&chars, &chars_of("/usr/local/"), 0) {
                    return false;
                }
            },
            None => {},
        }
        match &self.module {
            None => true,
            Some(module) => {
                let mut top = chars_of(module.as_str());
                let n = first_component_len(&top, '.');
                top.truncate(n);
                let sdk = chars_of("sentry_sdk");
                if top.len() == sdk.len() && matches_at(&top, &sdk, 0) {
                    assert(top@.subrange(0, top@.len() as int) =~= top@);
                    return false;
                }
                proof {
                    if top@ == sdk@ {
                        assert(top@.subrange(0, top@.len() as int) =~= top@);
                    }
                }
                !is_python_stdlib_module(&top)
            },
        }
    }

    /// Tells application code from system code by the rule for PHP.
    pub fn is_php_application_frame(&self) -> (r: bool)
        ensures
            r == php_application(self@),
    {
        match &self.path {
            None => true,
            Some(path) => !str_contains_literal(path.as_str(), "/vendor/"),
        }
    }

    /// Decides `in_app` within a profile of the platform `p`. A value that
    /// the frame declares stands only where the frame is of that platform:
    /// in a frame embedded from another platform the declared value is not
    /// reliable, and the rules of the frame's own platform decide.
    pub fn set_in_app(&mut self, p: Platform)
        requires
            old(self).platform is Some,
        ensures
            final(self)@ == with_in_app(old(self)@, p),
    {
        let same_platform = match self.platform {
            Some(fp) => fp == p,
            None => false,
        };
        if self.in_app.is_some() && same_platform {
            return;
        }
        let is_application = match self.platform {
            Some(Platform::Node) => self.is_node_application_frame(),
            Some(Platform::JavaScript) => self.is_javascript_application_frame(),
            Some(Platform::Cocoa) => self.is_cocoa_application_frame(),
            Some(Platform::Rust) => self.is_rust_application_frame(),
            Some(Platform::Python) => self.is_python_application_frame(),
            Some(Platform::Php) => self.is_php_application_frame(),
            _ => false,
        };
        self.in_app = Some(is_application);
    }

    /// Tells whether the frame has been found to be application code.
    pub fn is_in_app(&self) -> (r: bool)
        ensures
            r == (self.in_app == Some(true)),
    {
        match self.in_app {
            Some(v) => v,
            None => false,
        }
    }

    /// Gives the frame the platform `p` where it has none.
    pub fn set_platform(&mut self, p: Platform)
        ensures
            final(self)@ == with_platform(old(self)@, p),
    {
        if self.platform.is_none() {
            self.platform = Some(p);
        }
    }

    /// Takes the symbolicator's status, where that is not empty, over as
    /// the status of the frame.
    pub fn set_status(&mut self)
        ensures
            final(self)@ == with_status(old(self)@),
    {
        let status = match &self.data {
            Some(data) => match &data.symbolicator_status {
                Some(symbolicator_status) => if !symbolicator_status.as_str().is_empty() {
                    Some(symbolicator_status.clone())
                } else {
                    None
                },
                None => None,
            },
            None => None,
        };
        match status {
            Some(s) => {
                self.status = Some(s);
            },
            None => {},
        }
    }

    /// Settles the frame's status, platform and `in_app`, in this order:
    /// the decision on `in_app` reads the other two.
    pub fn normalize(&mut self, p: Platform)
        ensures
            final(self)@ == normalized(old(self)@, p),
    {
        self.set_status();
        self.set_platform(p);
        self.set_in_app(p);
    }

    /// Returns the module name if present, otherwise the trimmed package
    /// name, otherwise an empty string.
    pub fn module_or_package(&self) -> (r: String)
        ensures
            r@ == module_or_package(self@),
    {
        match &self.module {
            Some(module) => {
                if !module.as_str().is_empty() {
                    return module.clone();
                }
            },
            None => {},
        }
        match &self.package {
            Some(package) => {
                if !package.as_str().is_empty() {
                    return trim_package(package.as_str());
                }
            },
            None => {},
        }
        String::new()
    }

    /// Feeds the frame's package and function name to the hasher, a dash in
    /// the place of each one that is empty.
    pub fn write_to_hash(&self, h: &mut Fnv64)
        ensures
            hashed_bytes(*final(h)) == hashed_bytes(*old(h)) + hash_bytes(self@),
    {
        let package = self.module_or_package();
        if package.as_str().is_empty() {
            hasher_write(h, "-".as_bytes());
        } else {
            hasher_write(h, package.as_str().as_bytes());
        }
        let ghost mid = hashed_bytes(*h);
        let named = match &self.function {
            Some(function) => !function.as_str().is_empty(),
            None => false,
        };
        match &self.function {
            Some(function) => {
                if named {
                    hasher_write(h, function.as_str().as_bytes());
                } else {
                    hasher_write(h, "-".as_bytes());
                }
            },
            None => {
                hasher_write(h, "-".as_bytes());
            },
        }
        assert(hashed_bytes(*h) =~= hashed_bytes(*old(h)) + hash_bytes(self@));
    }
}

fn str_contains_literal(s: &str, literal: &str) -> (r: bool)
    ensures
        r == has_substring(s@, literal@),
{
    contains_chars(&chars_of(s), &chars_of(literal))
}

} // verus!
