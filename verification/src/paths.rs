//! Paths, handled by the `camino` crate. How a path falls into components
//! depends on the platform, so the contracts here say only what holds on
//! every platform.

use crate::text::contains;
use vstd::prelude::*;

verus! {

/// `Utf8Path::strip_prefix`: the rest of `path` after the components of
/// `base`, or `None` where `base` is no prefix of `path`. The rest is a part
/// of the text of `path`.
#[verifier::external_body]
pub(crate) fn strip_prefix(path: &str, base: &str) -> (r: Option<String>)
    ensures
        r is Some ==> contains(path@, r->Some_0@),
{
    camino::Utf8Path::new(path).strip_prefix(base).ok().map(|p| p.to_string())
}

/// `Utf8Path::starts_with`: whether the components of `base` are the first
/// components of `path`.
#[verifier::external_body]
pub(crate) fn starts_with(path: &str, base: &str) -> (r: bool)
{
    camino::Utf8Path::new(path).starts_with(base)
}

/// `Utf8Path::parent`: `path` without its last component, or `None` where
/// it has none to drop. The parent is a part of the text of `path`.
#[verifier::external_body]
pub(crate) fn parent(path: &str) -> (r: Option<String>)
    ensures
        r is Some ==> contains(path@, r->Some_0@),
{
    camino::Utf8Path::new(path).parent().map(|p| p.to_string())
}

/// `Utf8Path::join`: `path` with `more` adjoined.
#[verifier::external_body]
pub(crate) fn join(path: &str, more: &str) -> (r: String)
{
    camino::Utf8Path::new(path).join(more).into_string()
}

} // verus!
