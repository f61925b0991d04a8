//! Compiled search patterns from the outside regex library.
//!
//! Whether a pattern compiles, and what a compiled pattern matches, are
//! pure functions of the pattern text, so both get names that the filter
//! engine's contracts speak of.

use vstd::prelude::*;

verus! {

#[verifier::external_type_specification]
#[verifier::external_body]
pub struct ExRegex(regex::Regex);

/// Whether the outside regex library accepts this pattern text.
pub uninterp spec fn regex_valid(pat: Seq<char>) -> bool;

/// The pattern text a compiled regex was built from.
pub uninterp spec fn re_pattern(re: regex::Regex) -> Seq<char>;

/// Whether the pattern matches somewhere in the text.
pub uninterp spec fn regex_match(pat: Seq<char>, t: Seq<char>) -> bool;

/// Relies on `regex::Regex::new`: compiles `pat`; it succeeds exactly on
/// the patterns the library accepts, and compilation is deterministic.
#[verifier::external_body]
pub(crate) fn regex_new(pat: &str) -> (r: Option<regex::Regex>)
    ensures
        r is Some <==> regex_valid(pat@),
        match r {
            Some(re) => re_pattern(re) == pat@,
            None => true,
        },
{
    regex::Regex::new(pat).ok()
}

/// Relies on `regex::Regex::is_match`: whether the compiled pattern
/// matches anywhere in `t`.
#[verifier::external_body]
pub(crate) fn regex_is_match(re: &regex::Regex, t: &str) -> (r: bool)
    ensures
        r == regex_match(re_pattern(*re), t@),
{
    re.is_match(t)
}

} // verus!
