//! Text patterns, matched by the `regex` crate.

use regex::Regex;
use vstd::prelude::*;

verus! {

/// Whether `regex` accepts `pattern` as a regular expression, that is,
/// whether `Regex::new` returns `Ok` for it.
pub uninterp spec fn regex_compiles(pattern: Seq<char>) -> bool;

/// Whether the regular expression compiled from `pattern` finds a match
/// somewhere in `text`, that is, what `Regex::is_match` returns. It has a
/// meaning only where [`regex_compiles`] holds.
pub uninterp spec fn regex_matches(pattern: Seq<char>, text: Seq<char>) -> bool;

/// Whether `pattern` is a regular expression and matches somewhere in
/// `text`. Text that is no regular expression matches nothing.
pub open spec fn pattern_matches(pattern: Seq<char>, text: Seq<char>) -> bool {
    regex_compiles(pattern) && regex_matches(pattern, text)
}

/// Whether `pattern` can be used as a pattern.
pub fn is_pattern(pattern: &str) -> (ok: bool)
    ensures
        ok == regex_compiles(pattern@),
{
    search(pattern, "").is_some()
}

/// Whether `pattern` matches somewhere in `text`.
pub fn is_match(pattern: &str, text: &str) -> (found: bool)
    ensures
        found == pattern_matches(pattern@, text@),
{
    match search(pattern, text) {
        Some(found) => found,
        None => false,
    }
}

/// `Regex::is_match` on the regular expression that `Regex::new` makes of
/// `pattern`; `None` where `Regex::new` fails. The contract gives both
/// outcomes a name and claims nothing else about them.
#[verifier::external_body]
fn search(pattern: &str, text: &str) -> (found: Option<bool>)
    ensures
        found is Some <==> regex_compiles(pattern@),
        found matches Some(m) ==> m == regex_matches(pattern@, text@),
{
    match Regex::new(pattern) {
        Ok(regex) => Some(regex.is_match(text)),
        Err(_) => None,
    }
}

} // verus!
