//! Regular-expression matching, supplied by the `regex` crate.
//!
//! Nothing in this module is proved: each function is a thin call into the
//! `regex` crate, and its contract only gives a name to what the call returns.

use regex::Regex;
use vstd::prelude::*;

verus! {

/// Whether `regex::Regex::new` accepts `pattern`.
pub uninterp spec fn regex_compiles(pattern: Seq<char>) -> bool;

/// The texts of the successive non-overlapping matches that
/// `regex::Regex::find_iter` yields for `pattern` in `text`, in order.
pub uninterp spec fn regex_matches(pattern: Seq<char>, text: Seq<char>) -> Seq<Seq<char>>;

/// Whether `regex::Regex::is_match` finds a match for `pattern` anywhere in `text`.
pub uninterp spec fn regex_is_match(pattern: Seq<char>, text: Seq<char>) -> bool;

/// The texts of a sequence of strings.
pub open spec fn texts(strings: Seq<String>) -> Seq<Seq<char>> {
    Seq::new(strings.len(), |i: int| strings[i]@)
}

/// Compiles `pattern` with `regex::Regex::new` and collects the text of every
/// match that `regex::Regex::find_iter` yields in `text`.
///
/// Trusted: the result is `None` exactly when the pattern is rejected, and
/// otherwise holds the matches that [`regex_matches`] names.
#[verifier::external_body]
pub(crate) fn find_matches(pattern: &str, text: &str) -> (r: Option<Vec<String>>)
    ensures
        r.is_some() == regex_compiles(pattern@),
        r matches Some(found) ==> texts(found@) == regex_matches(pattern@, text@),
{
    match Regex::new(pattern) {
        Ok(re) => {
            let mut found = Vec::new();
            for m in re.find_iter(text) {
                found.push(m.as_str().to_string());
            }
            Some(found)
        },
        Err(_) => None,
    }
}

/// Compiles `pattern` with `regex::Regex::new` and asks `regex::Regex::is_match`
/// whether it matches somewhere in `text`.
///
/// Trusted: the result is `None` exactly when the pattern is rejected, and
/// otherwise holds the answer that [`regex_is_match`] names.
#[verifier::external_body]
pub(crate) fn is_match(pattern: &str, text: &str) -> (r: Option<bool>)
    ensures
        r.is_some() == regex_compiles(pattern@),
        r matches Some(found) ==> found == regex_is_match(pattern@, text@),
{
    match Regex::new(pattern) {
        Ok(re) => Some(re.is_match(text)),
        Err(_) => None,
    }
}

} // verus!
