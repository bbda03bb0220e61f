//! Regular expressions. Matching is done by the `regex` crate; what it
//! answers is named here and taken on trust.

use regex::Regex;
use vstd::prelude::*;

verus! {

/// `regex::Error`, as something that can be handed on.
#[verifier::external_type_specification]
#[verifier::external_body]
pub struct ExRegexError(regex::Error);

/// Whether `pattern` is accepted as a regular expression.
pub uninterp spec fn pattern_compiles(pattern: Seq<char>) -> bool;

/// Whether `pattern` matches somewhere in `text`.
pub uninterp spec fn pattern_matches(pattern: Seq<char>, text: Seq<char>) -> bool;

/// `text` with every non-overlapping match of `pattern` replaced by the
/// expansion of `replacement`.
pub uninterp spec fn pattern_replaced(
    pattern: Seq<char>,
    text: Seq<char>,
    replacement: Seq<char>,
) -> Seq<char>;

/// `pattern` is a valid expression and matches somewhere in `text`.
pub open spec fn found(pattern: Seq<char>, text: Seq<char>) -> bool {
    pattern_compiles(pattern) && pattern_matches(pattern, text)
}

/// `text` without the matches of `pattern`; `text` itself where `pattern`
/// is no valid expression.
pub open spec fn stripped(pattern: Seq<char>, text: Seq<char>) -> Seq<char> {
    if pattern_compiles(pattern) {
        pattern_replaced(pattern, text, Seq::empty())
    } else {
        text
    }
}

/// `Regex::new` and then `Regex::is_match`. Trusted: whether a pattern
/// compiles depends on the pattern alone, and whether the compiled
/// expression matches depends on the pattern and the text alone.
#[verifier::external_body]
fn is_match(pattern: &str, text: &str) -> (r: Result<bool, regex::Error>)
    ensures
        r is Ok <==> pattern_compiles(pattern@),
        r matches Ok(found) ==> found == pattern_matches(pattern@, text@),
{
    match Regex::new(pattern) {
        Ok(re) => Ok(re.is_match(text)),
        Err(e) => Err(e),
    }
}

/// `Regex::new` and then `Regex::replace_all`. Trusted: whether a pattern
/// compiles depends on the pattern alone, and what the compiled expression
/// makes of a text depends on the pattern, the text and the replacement
/// alone.
#[verifier::external_body]
fn replace_all(pattern: &str, text: &str, replacement: &str) -> (r: Result<String, regex::Error>)
    ensures
        r is Ok <==> pattern_compiles(pattern@),
        r matches Ok(replaced) ==> replaced@ == pattern_replaced(pattern@, text@, replacement@),
{
    match Regex::new(pattern) {
        Ok(re) => Ok(re.replace_all(text, replacement).into_owned()),
        Err(e) => Err(e),
    }
}

/// Tests whether `pattern` matches somewhere in `text`. A pattern that is
/// no valid expression matches nothing.
pub fn matches_pattern(pattern: &str, text: &str) -> (r: bool)
    ensures
        r == found(pattern@, text@),
{
    match is_match(pattern, text) {
        Ok(found) => found,
        Err(_) => false,
    }
}

/// Removes every match of `pattern` from `text`. A pattern that is no valid
/// expression removes nothing.
pub fn strip_pattern(pattern: &str, text: &str) -> (r: String)
    ensures
        r@ == stripped(pattern@, text@),
{
    proof {
        reveal_strlit("");
        assert(""@ =~= Seq::<char>::empty());
    }
    match replace_all(pattern, text, "") {
        Ok(replaced) => replaced,
        Err(_) => text.to_owned(),
    }
}

} // verus!
