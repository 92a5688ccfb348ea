//! Regular expressions, through the `regex` crate.
use vstd::prelude::*;

verus! {

/// Whether the `regex` crate compiles a pattern.
pub uninterp spec fn regex_is_valid(pattern: Seq<char>) -> bool;

/// Whether the regular expression that `pattern` compiles to matches somewhere in `text`.
pub uninterp spec fn regex_matches(pattern: Seq<char>, text: Seq<char>) -> bool;

/// `regex::Regex::new`: whether a pattern compiles depends on the pattern alone.
#[verifier::external_body]
pub(crate) fn regex_compiles(pattern: &str) -> (ok: bool)
    ensures
        ok == regex_is_valid(pattern@),
{
    regex::Regex::new(pattern).is_ok()
}

/// `regex::Regex::is_match` of the expression that a valid pattern compiles to: the answer
/// depends on the pattern and the text alone.
#[verifier::external_body]
pub(crate) fn regex_is_match(pattern: &str, text: &str) -> (found: bool)
    requires
        regex_is_valid(pattern@),
    ensures
        found == regex_matches(pattern@, text@),
{
    regex::Regex::new(pattern).map_or(false, |regex| regex.is_match(text))
}

} // verus!
