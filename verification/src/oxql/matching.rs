//! Regular expressions.

use vstd::prelude::*;

verus! {

/// The pattern is a regular expression.
pub uninterp spec fn regex_compiles(pattern: Seq<char>) -> bool;

/// The regular expression matches somewhere in the text.
pub uninterp spec fn regex_matches(pattern: Seq<char>, text: Seq<char>) -> bool;

/// Whether `regex::Regex::new` accepts the pattern, which depends on the pattern alone.
#[verifier::external_body]
pub(crate) fn compiles(pattern: &str) -> (yes: bool)
    ensures
        yes == regex_compiles(pattern@),
{
    regex::Regex::new(pattern).is_ok()
}

/// Whether `regex::Regex::is_match` finds the pattern in the text, which depends on these two
/// alone. The pattern has to be one that `regex::Regex::new` accepts.
#[verifier::external_body]
pub(crate) fn is_match(pattern: &str, text: &str) -> (yes: bool)
    requires
        regex_compiles(pattern@),
    ensures
        yes == regex_matches(pattern@, text@),
{
    regex::Regex::new(pattern).unwrap().is_match(text)
}

} // verus!
