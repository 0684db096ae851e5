//! Searching text for a regular expression, by the `regex` crate. Nothing
//! here is proved: the contracts say only that a search is a function of
//! the expression and the text.

use vstd::prelude::*;
use regex::Regex;

verus! {

/// What `Regex::captures` finds for the expression `pattern` in
/// `haystack`: the capture groups of the leftmost match, the whole match
/// first and then each group in the order of its opening parenthesis, with
/// `None` for a group that took no part in the match. It is `None` where
/// there is no match, and where `Regex::new` takes `pattern` for no
/// expression.
pub uninterp spec fn regex_captures(pattern: Seq<char>, haystack: Seq<char>) -> Option<
    Seq<Option<Seq<char>>>,
>;

/// What `Regex::captures_iter` finds for the expression `pattern` in
/// `haystack`: the capture groups of every match, one after the other
/// from left to right, each as `regex_captures` gives them. It is `None`
/// where `Regex::new` takes `pattern` for no expression.
pub uninterp spec fn regex_captures_iter(pattern: Seq<char>, haystack: Seq<char>) -> Option<
    Seq<Seq<Option<Seq<char>>>>,
>;

/// Calls `Regex::new` on `pattern` and `Regex::captures` on `haystack`,
/// and copies the text of each group. The contract claims that the result
/// depends on the two arguments alone.
#[verifier::external_body]
pub(crate) fn captures(pattern: &str, haystack: &str) -> (groups: Option<Vec<Option<String>>>)
    ensures
        groups.deep_view() == regex_captures(pattern@, haystack@),
{
    let expression = Regex::new(pattern).ok()?;
    let found = expression.captures(haystack)?;
    Some(found.iter().map(|group| group.map(|m| m.as_str().to_string())).collect())
}

/// Calls `Regex::new` on `pattern` and `Regex::captures_iter` on
/// `haystack`, and copies the text of each group of each match. The
/// contract claims that the result depends on the two arguments alone.
#[verifier::external_body]
pub(crate) fn captures_iter(pattern: &str, haystack: &str) -> (found: Option<
    Vec<Vec<Option<String>>>,
>)
    ensures
        found.deep_view() == regex_captures_iter(pattern@, haystack@),
{
    let expression = Regex::new(pattern).ok()?;
    Some(
        expression.captures_iter(haystack).map(
            |each| each.iter().map(|group| group.map(|m| m.as_str().to_string())).collect(),
        ).collect(),
    )
}

} // verus!
