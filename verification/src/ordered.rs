//! An insertion-ordered set of texts, kept in `indexmap::IndexSet`.

use crate::lines::texts;
use indexmap::IndexSet;
use vstd::prelude::*;

verus! {

/// The set type of the `indexmap` crate.
#[verifier::external_type_specification]
#[verifier::external_body]
#[verifier::reject_recursive_types(T)]
#[verifier::reject_recursive_types(S)]
pub struct ExIndexSet<T, S>(IndexSet<T, S>);

/// What the set holds: its items in the order in which they were inserted.
pub uninterp spec fn items(set: IndexSet<String>) -> Seq<Seq<char>>;

/// `IndexSet::new`: a set that holds nothing.
#[verifier::external_body]
pub(crate) fn empty_set() -> (set: IndexSet<String>)
    ensures
        items(set) == Seq::<Seq<char>>::empty(),
{
    IndexSet::new()
}

/// `IndexSet::contains`: whether an item equal to `key` is in the set.
#[verifier::external_body]
pub(crate) fn holds(set: &IndexSet<String>, key: &str) -> (r: bool)
    ensures
        r == items(*set).contains(key@),
{
    set.contains(key)
}

/// `IndexSet::insert`: an item that the set already holds leaves the set as
/// it is; any other item goes to the end.
#[verifier::external_body]
pub(crate) fn insert(set: &mut IndexSet<String>, key: String)
    ensures
        items(*final(set)) == if items(*old(set)).contains(key@) {
            items(*old(set))
        } else {
            items(*old(set)).push(key@)
        },
{
    set.insert(key);
}

/// `IndexSet::iter`: the items in insertion order, each copied. No item
/// occurs twice in a set.
#[verifier::external_body]
pub(crate) fn listed(set: &IndexSet<String>) -> (r: Vec<String>)
    ensures
        texts(r@) == items(*set),
        texts(r@).no_duplicates(),
{
    set.iter().cloned().collect()
}

} // verus!
