//! Matching names and paths against glob patterns, delegated to the crates
//! `globset` and `glob`.
//!
//! Both crates read a backslash as a path separator on some platforms and
//! as an escape on others. What they make of texts without a backslash is
//! the same everywhere, and only that is given a name here.

use crate::error::{Error, Result};
use crate::text::{count, count_of};
use vstd::prelude::*;
use vstd::string::StringExecFns;

verus! {

/// Whether `text` holds no backslash.
pub open spec fn plain(text: Seq<char>) -> bool {
    forall|i: int| 0 <= i < text.len() ==> #[trigger] text[i] != '\\'
}

/// Whether the text, if there is one, holds no backslash.
pub open spec fn plain_option(text: Option<Seq<char>>) -> bool {
    match text {
        Some(t) => plain(t),
        None => true,
    }
}

/// The longest pattern, in characters, that is handed to `globset`.
pub const MAX_PATTERN_LEN: usize = 1000;

/// The most opening braces that a pattern handed to `globset` may have:
/// groups of alternatives are nested no deeper than that.
pub const MAX_BRACES: usize = 64;

/// Whether `pattern` is short enough, and has few enough opening braces, to
/// be handed to `globset`.
pub open spec fn pattern_fits(pattern: Seq<char>) -> bool {
    pattern.len() <= MAX_PATTERN_LEN && count_of(pattern, '{') <= MAX_BRACES
}

/// Whether `pattern` is short enough, and has few enough opening braces, to
/// be handed to `globset`.
pub fn is_fitting_pattern(pattern: &str) -> (r: bool)
    ensures
        r == pattern_fits(pattern@),
{
    pattern.unicode_len() <= MAX_PATTERN_LEN && count(pattern, '{') <= MAX_BRACES
}

/// Whether `pattern` is short enough to be handed to `glob`.
pub open spec fn glob_fits(pattern: Seq<char>) -> bool {
    pattern.len() <= MAX_PATTERN_LEN
}

/// Whether `pattern` is short enough to be handed to `glob`.
pub fn is_fitting_glob(pattern: &str) -> (r: bool)
    ensures
        r == glob_fits(pattern@),
{
    pattern.unicode_len() <= MAX_PATTERN_LEN
}

/// Whether `globset::Glob::new` accepts `pattern`.
pub uninterp spec fn globset_accepts(pattern: Seq<char>) -> bool;

/// Whether the matcher that `globset` compiles from `pattern` matches
/// `candidate`, as `GlobMatcher::is_match` decides it.
pub uninterp spec fn globset_matches(pattern: Seq<char>, candidate: Seq<char>) -> bool;

/// Whether `glob::Pattern::new` accepts `pattern`.
pub uninterp spec fn glob_accepts(pattern: Seq<char>) -> bool;

/// Whether the `glob::Pattern` read from `pattern` matches `text`, as
/// `Pattern::matches` decides it.
pub uninterp spec fn glob_matches(pattern: Seq<char>, text: Seq<char>) -> bool;

/// Builds a `globset::Glob` from `pattern` and tests `candidate` against its
/// matcher with `GlobMatcher::is_match`. `None` where the pattern is
/// rejected, else whether the candidate matches. For texts without a
/// backslash the outcome is the named one. `Glob::compile_matcher` turns
/// the pattern into a regular expression, a few characters for each of the
/// pattern's and a group for each group of alternatives, and unwraps what
/// the `regex` crate builds from it under a limit on its size and on the
/// depth of its nesting; patterns long enough or nested deep enough to come
/// near those limits are left out.
#[verifier::external_body]
pub(crate) fn globset_test(pattern: &str, candidate: &str) -> (r: Option<bool>)
    requires
        pattern_fits(pattern@),
    ensures
        plain(pattern@) && plain(candidate@) ==> (r is Some <==> globset_accepts(pattern@)),
        plain(pattern@) && plain(candidate@) && r is Some ==> r->Some_0 == globset_matches(
            pattern@,
            candidate@,
        ),
{
    let glob = globset::Glob::new(pattern).ok()?;
    Some(glob.compile_matcher().is_match(candidate))
}

/// Reads `pattern` with `glob::Pattern::new` and tests `text` with
/// `Pattern::matches`. The error where the pattern is rejected, else
/// whether the text matches. For texts without a backslash the outcome is
/// the named one. `Pattern::matches` calls itself once for each `*` of the
/// pattern that it has passed, so patterns long enough to exhaust the stack
/// are left out.
#[verifier::external_body]
pub(crate) fn glob_test(pattern: &str, text: &str) -> (r: core::result::Result<
    bool,
    glob::PatternError,
>)
    requires
        glob_fits(pattern@),
    ensures
        plain(pattern@) && plain(text@) ==> (r is Ok <==> glob_accepts(pattern@)),
        plain(pattern@) && plain(text@) && r is Ok ==> r->Ok_0 == glob_matches(pattern@, text@),
{
    Ok(glob::Pattern::new(pattern)?.matches(text))
}

/// Whether `name` is set apart by the optional pattern: the pattern is
/// there, it is short enough and has few enough braces, `globset` accepts
/// it, and it matches the name. A pattern that is too long, has too many
/// braces or is rejected sets nothing apart.
pub open spec fn set_apart(pattern: Option<Seq<char>>, name: Seq<char>) -> bool {
    match pattern {
        Some(p) => pattern_fits(p) && globset_accepts(p) && globset_matches(p, name),
        None => false,
    }
}

/// The text of an optional string.
pub open spec fn optional(s: Option<String>) -> Option<Seq<char>> {
    match s {
        Some(t) => Some(t@),
        None => None,
    }
}

/// Whether `name` is set apart by the optional pattern. Without a pattern
/// nothing is set apart; a pattern that is too long, has too many braces or
/// is rejected sets nothing apart either.
pub fn is_set_apart(pattern: &Option<String>, name: &str) -> (r: bool)
    ensures
        pattern is None ==> !r,
        pattern is Some && !pattern_fits(pattern->Some_0@) ==> !r,
        plain_option(optional(*pattern)) && plain(name@) ==> r == set_apart(
            optional(*pattern),
            name@,
        ),
{
    match pattern {
        Some(p) => {
            if !is_fitting_pattern(p.as_str()) {
                return false;
            }
            match globset_test(p.as_str(), name) {
                Some(matched) => matched,
                None => false,
            }
        },
        None => false,
    }
}

/// Checks that the optional pattern can be tried on names: fails where it
/// is too long or has too many braces, so that a caller can say so before
/// the pattern sets nothing apart.
pub fn check_pattern(pattern: &Option<String>) -> (r: Result<()>)
    ensures
        match pattern {
            Some(p) => if pattern_fits(p@) {
                r is Ok
            } else {
                r is Err && r->Err_0 is PatternTooLong && r->Err_0->PatternTooLong_0@ == p@
            },
            None => r is Ok,
        },
{
    match pattern {
        Some(p) => if is_fitting_pattern(p.as_str()) {
            Ok(())
        } else {
            Err(Error::PatternTooLong(p.clone()))
        },
        None => Ok(()),
    }
}

/// Whether the glob `pattern` matches `text`; fails where the pattern is
/// too long or rejected.
pub fn glob_allows(pattern: &str, text: &str) -> (r: Result<bool>)
    ensures
        !glob_fits(pattern@) <==> r is Err && r->Err_0 is PatternTooLong,
        r is Err ==> r->Err_0 is PatternTooLong || r->Err_0 is GlobPattern,
        r is Err && r->Err_0 is PatternTooLong ==> r->Err_0->PatternTooLong_0@ == pattern@,
        glob_fits(pattern@) && plain(pattern@) && plain(text@) ==> match r {
            Ok(b) => glob_accepts(pattern@) && b == glob_matches(pattern@, text@),
            Err(_) => !glob_accepts(pattern@),
        },
{
    if !is_fitting_glob(pattern) {
        return Err(Error::PatternTooLong(String::from_str(pattern)));
    }
    match glob_test(pattern, text) {
        Ok(b) => Ok(b),
        Err(e) => Err(Error::GlobPattern(e)),
    }
}

} // verus!
