//! Trusted bindings to the `regex` crate. A rule's `matches` comparison
//! compiles its pattern with `regex::Regex::new` and tests text with
//! `regex::Regex::is_match`; both results are functions of their string
//! arguments alone, and are named here without being written out.

use vstd::prelude::*;

verus! {

/// Whether `pattern` compiles: exactly the inputs on which
/// `regex::Regex::new` returns `Ok`.
pub uninterp spec fn regex_valid(pattern: Seq<char>) -> bool;

/// Whether the regular expression `pattern` matches anywhere in `text`, as
/// decided by `regex::Regex::is_match` on a regex compiled from `pattern`.
pub uninterp spec fn regex_accepts(pattern: Seq<char>, text: Seq<char>) -> bool;

/// Relies on `regex::Regex::new`: whether a pattern compiles depends on the
/// pattern string alone.
#[verifier::external_body]
pub(crate) fn regex_compile_ok(pattern: &str) -> (r: bool)
    ensures
        r == regex_valid(pattern@),
{
    regex::Regex::new(pattern).is_ok()
}

/// Relies on `regex::Regex::new` and `regex::Regex::is_match`: for a pattern
/// that compiles, whether it matches a text depends on the pattern and the
/// text alone.
#[verifier::external_body]
pub(crate) fn regex_is_match(pattern: &str, text: &str) -> (r: bool)
    requires
        regex_valid(pattern@),
    ensures
        r == regex_accepts(pattern@, text@),
{
    match regex::Regex::new(pattern) {
        Ok(re) => re.is_match(text),
        Err(_) => false,
    }
}

} // verus!
