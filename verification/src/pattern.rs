//! Regular-expression matching, delegated to the `regex` crate.

use vstd::prelude::*;

verus! {

/// What `regex::Regex::captures` finds for `pattern` in `text`: the text of
/// each capture group of the leftmost match (group 0 is the whole match, a
/// group that took no part is `None`), or `None` when there is no match or
/// the pattern does not compile.
pub uninterp spec fn regex_captures(pattern: Seq<char>, text: Seq<char>) -> Option<
    Seq<Option<Seq<char>>>,
>;

/// The view of a list of capture groups.
pub open spec fn groups_view(groups: Seq<Option<String>>) -> Seq<Option<Seq<char>>> {
    groups.map_values(
        |g: Option<String>|
            match g {
                Some(s) => Some(s@),
                None => None,
            },
    )
}

/// Compiles `pattern` with `regex::Regex::new` and searches `text` with
/// `Regex::captures`. The result is the capture groups of the leftmost match,
/// each as its own string; `None` when the pattern is rejected or nothing
/// matches.
#[verifier::external_body]
pub(crate) fn captures(pattern: &str, text: &str) -> (r: Option<Vec<Option<String>>>)
    ensures
        match r {
            Some(groups) => regex_captures(pattern@, text@) == Some(groups_view(groups@)),
            None => regex_captures(pattern@, text@).is_none(),
        },
{
    let re = regex::Regex::new(pattern).ok()?;
    let caps = re.captures(text)?;
    Some(caps.iter().map(|m| m.map(|x| x.as_str().to_string())).collect())
}

} // verus!
