//! Tables keyed by package name: the new version of each package, and the
//! new name of each package.

use crate::text::str_eq;
use crate::version::{Version, VersionView};
use vstd::prelude::*;

verus! {

/// The index of the first of `keys` that equals `key`, if there is one.
pub open spec fn position(keys: Seq<Seq<char>>, key: Seq<char>) -> Option<int>
    decreases keys.len(),
{
    if keys.len() == 0 {
        None
    } else {
        match position(keys.drop_last(), key) {
            Some(k) => Some(k),
            None => if keys.last() == key {
                Some(keys.len() - 1)
            } else {
                None
            },
        }
    }
}

pub proof fn lemma_position(keys: Seq<Seq<char>>, key: Seq<char>)
    ensures
        match position(keys, key) {
            Some(k) => 0 <= k < keys.len() && keys[k] == key && forall|i: int|
                0 <= i < k ==> keys[i] != key,
            None => forall|i: int| 0 <= i < keys.len() ==> keys[i] != key,
        },
    decreases keys.len(),
{
    if keys.len() > 0 {
        lemma_position(keys.drop_last(), key);
        match position(keys.drop_last(), key) {
            Some(k) => {
                assert(keys.drop_last()[k] == keys[k]);
                assert forall|i: int| 0 <= i < k implies keys[i] != key by {
                    assert(keys.drop_last()[i] == keys[i]);
                }
            },
            None => {
                assert forall|i: int| 0 <= i < keys.len() - 1 implies keys[i] != key by {
                    assert(keys.drop_last()[i] == keys[i]);
                }
            },
        }
    }
}

pub proof fn lemma_position_is(keys: Seq<Seq<char>>, key: Seq<char>, k: int)
    requires
        0 <= k < keys.len(),
        keys[k] == key,
        forall|i: int| 0 <= i < k ==> keys[i] != key,
    ensures
        position(keys, key) == Some(k),
{
    lemma_position(keys, key);
}

/// The keys of a list of entries.
pub open spec fn keys_of<V>(entries: Seq<(String, V)>) -> Seq<Seq<char>> {
    entries.map_values(|e: (String, V)| e.0@)
}

/// The index of the first entry under `key`.
fn find_key<V>(entries: &Vec<(String, V)>, key: &str) -> (r: Option<usize>)
    ensures
        match r {
            Some(k) => k < entries.len() && position(keys_of(entries@), key@) == Some(k as int),
            None => position(keys_of(entries@), key@).is_none(),
        },
{
    let ghost keys = keys_of(entries@);
    let mut k: usize = 0;
    while k < entries.len()
        invariant
            k <= entries.len(),
            keys == keys_of(entries@),
            forall|i: int| 0 <= i < k ==> keys[i] != key@,
        decreases entries.len() - k,
    {
        assert(keys[k as int] == entries@[k as int].0@);
        if str_eq(entries[k].0.as_str(), key) {
            proof {
                lemma_position_is(keys, key@, k as int);
            }
            return Some(k);
        }
        k += 1;
    }
    proof {
        lemma_position(keys, key@);
    }
    None
}

proof fn lemma_inserted<V>(
    before: Seq<(String, V)>,
    at: int,
    e: (String, V),
    other: Seq<char>,
)
    requires
        0 <= at <= before.len(),
        position(keys_of(before), e.0@).is_none(),
    ensures
        position(keys_of(before.insert(at, e)), other) == if other == e.0@ {
            Some(at)
        } else {
            match position(keys_of(before), other) {
                Some(j) => Some(
                    if j < at {
                        j
                    } else {
                        j + 1
                    },
                ),
                None => None,
            }
        },
{
    let keys = keys_of(before);
    let next = keys_of(before.insert(at, e));
    assert(next =~= keys.insert(at, e.0@));
    lemma_position(keys, e.0@);
    lemma_position(keys, other);
    lemma_position(next, other);
    if other == e.0@ {
        assert forall|i: int| 0 <= i < at implies next[i] != other by {
            assert(next[i] == keys[i]);
        }
        lemma_position_is(next, other, at);
    } else {
        match position(keys, other) {
            Some(j) => {
                let place = if j < at {
                    j
                } else {
                    j + 1
                };
                assert forall|i: int| 0 <= i < place implies next[i] != other by {
                    if i < at {
                        assert(next[i] == keys[i]);
                    } else if i > at {
                        assert(next[i] == keys[i - 1]);
                    }
                }
                lemma_position_is(next, other, place);
            },
            None => {
                assert forall|i: int| 0 <= i < next.len() implies next[i] != other by {
                    if i < at {
                        assert(next[i] == keys[i]);
                    } else if i > at {
                        assert(next[i] == keys[i - 1]);
                    }
                }
                if position(next, other) is Some {
                    let j = position(next, other)->Some_0;
                    assert(next[j] == other);
                }
            },
        }
    }
}

proof fn lemma_same_is_not_before(key: Seq<char>)
    ensures
        !crate::version::text_before(key, key),
{
    if crate::version::text_before(key, key) {
        crate::version::lemma_text_one_way(key, key);
    }
}

/// Whether the keys stand in order, none of them twice.
pub open spec fn in_key_order(keys: Seq<Seq<char>>) -> bool {
    forall|a: int, b: int|
        0 <= a < b < keys.len() ==> crate::version::text_before(
            #[trigger] keys[a],
            #[trigger] keys[b],
        )
}

/// The place of `key` among the entries: before the first whose key does
/// not come before it.
fn place_of_key<V>(entries: &Vec<(String, V)>, key: &str) -> (at: usize)
    ensures
        at <= entries.len(),
        forall|a: int|
            0 <= a < at ==> crate::version::text_before(#[trigger] keys_of(entries@)[a], key@),
        at < entries.len() ==> !crate::version::text_before(keys_of(entries@)[at as int], key@),
{
    let chars = crate::text::to_chars(key);
    let mut at: usize = 0;
    while at < entries.len()
        invariant
            at <= entries.len(),
            chars@ == key@,
            forall|a: int|
                0 <= a < at ==> crate::version::text_before(#[trigger] keys_of(entries@)[a], key@),
        decreases entries.len() - at,
    {
        let other = crate::text::to_chars(entries[at].0.as_str());
        assert(keys_of(entries@)[at as int] == entries@[at as int].0@);
        match crate::version::order_texts(&other, &chars) {
            crate::version::Order::Before => {},
            _ => {
                return at;
            },
        }
        at += 1;
    }
    at
}

proof fn lemma_order_kept<V>(before: Seq<(String, V)>, at: int, e: (String, V))
    requires
        0 <= at <= before.len(),
        in_key_order(keys_of(before)),
        position(keys_of(before), e.0@).is_none(),
        forall|a: int|
            0 <= a < at ==> crate::version::text_before(#[trigger] keys_of(before)[a], e.0@),
        at < before.len() ==> !crate::version::text_before(keys_of(before)[at], e.0@),
    ensures
        in_key_order(keys_of(before.insert(at, e))),
{
    let keys = keys_of(before);
    let next = keys_of(before.insert(at, e));
    assert(next =~= keys.insert(at, e.0@));
    lemma_position(keys, e.0@);
    assert forall|a: int, b: int| 0 <= a < b < next.len() implies crate::version::text_before(
        #[trigger] next[a],
        #[trigger] next[b],
    ) by {
        if b < at {
            assert(next[a] == keys[a] && next[b] == keys[b]);
        } else if b == at {
            assert(next[a] == keys[a]);
        } else if a < at {
            assert(next[a] == keys[a] && next[b] == keys[b - 1]);
            assert(crate::version::text_before(keys[a], keys[b - 1]));
        } else if a == at {
            assert(next[b] == keys[b - 1]);
            assert(keys[at] != e.0@);
            crate::version::lemma_text_either_way(keys[at], e.0@);
            assert(crate::version::text_before(e.0@, keys[at]));
            if b - 1 > at {
                assert(crate::version::text_before(keys[at], keys[b - 1]));
                crate::version::lemma_text_chain(e.0@, keys[at], keys[b - 1]);
            }
        } else {
            assert(next[a] == keys[a - 1] && next[b] == keys[b - 1]);
        }
    }
}

/// The new version of each package that gets one, by package name.
#[derive(Debug)]
pub struct VersionMap {
    entries: Vec<(String, Version)>,
}

/// The new name of each package that gets one, by present name.
#[derive(Debug)]
pub struct RenameMap {
    entries: Vec<(String, String)>,
}

impl View for VersionMap {
    type V = Map<Seq<char>, VersionView>;

    closed spec fn view(&self) -> Map<Seq<char>, VersionView> {
        Map::new(
            |key: Seq<char>| position(keys_of(self.entries@), key) is Some,
            |key: Seq<char>| self.entries@[position(keys_of(self.entries@), key)->Some_0].1@,
        )
    }
}

impl View for RenameMap {
    type V = Map<Seq<char>, Seq<char>>;

    closed spec fn view(&self) -> Map<Seq<char>, Seq<char>> {
        Map::new(
            |key: Seq<char>| position(keys_of(self.entries@), key) is Some,
            |key: Seq<char>| self.entries@[position(keys_of(self.entries@), key)->Some_0].1@,
        )
    }
}

proof fn lemma_replaced<V>(before: Seq<(String, V)>, k: int, e: (String, V), key: Seq<char>)
    requires
        0 <= k < before.len(),
        before[k].0@ == e.0@,
    ensures
        position(keys_of(before.update(k, e)), key) == position(keys_of(before), key),
{
    assert(keys_of(before.update(k, e)) =~= keys_of(before));
}

proof fn lemma_appended<V>(before: Seq<(String, V)>, e: (String, V), key: Seq<char>)
    ensures
        position(keys_of(before.push(e)), key) == match position(keys_of(before), key) {
            Some(k) => Some(k),
            None => if e.0@ == key {
                Some(before.len() as int)
            } else {
                None
            },
        },
{
    assert(keys_of(before.push(e)).drop_last() =~= keys_of(before));
    assert(keys_of(before.push(e)).last() == e.0@);
}

impl VersionMap {
    /// The entries, one after the other.
    pub closed spec fn pairs(&self) -> Seq<(Seq<char>, VersionView)> {
        self.entries@.map_values(|e: (String, Version)| (e.0@, e.1@))
    }

    /// The number of entries.
    pub fn len(&self) -> (r: usize)
        ensures
            r == self.pairs().len(),
    {
        self.entries.len()
    }

    /// The name and the version of entry `i`.
    pub fn entry(&self, i: usize) -> (r: (&String, &Version))
        requires
            i < self.pairs().len(),
        ensures
            (r.0@, r.1@) == self.pairs()[i as int],
    {
        (&self.entries[i].0, &self.entries[i].1)
    }

    /// A copy of this table.
    pub fn duplicate(&self) -> (r: VersionMap)
        ensures
            r@ == self@,
            r.pairs() == self.pairs(),
            r.is_ordered() == self.is_ordered(),
    {
        let mut entries: Vec<(String, Version)> = Vec::new();
        let mut i: usize = 0;
        while i < self.entries.len()
            invariant
                i <= self.entries.len(),
                entries@.map_values(|e: (String, Version)| (e.0@, e.1@))
                    == self.entries@.map_values(|e: (String, Version)| (e.0@, e.1@)).take(i as int),
            decreases self.entries.len() - i,
        {
            let e = (self.entries[i].0.clone(), self.entries[i].1.duplicate());
            proof {
                let f = |e: (String, Version)| (e.0@, e.1@);
                assert(entries@.push(e).map_values(f) =~= entries@.map_values(f).push(f(e)));
                assert(self.entries@.map_values(f).take(i + 1) =~= self.entries@.map_values(f).take(
                    i as int,
                ).push(f(self.entries@[i as int])));
            }
            entries.push(e);
            i += 1;
        }
        let r = VersionMap { entries };
        proof {
            let f = |e: (String, Version)| (e.0@, e.1@);
            assert(self.entries@.map_values(f).take(self.entries@.len() as int)
                =~= self.entries@.map_values(f));
            assert(r.pairs() == self.pairs());
            assert(keys_of(r.entries@) =~= keys_of(self.entries@)) by {
                assert forall|k: int| 0 <= k < r.entries@.len() implies keys_of(r.entries@)[k]
                    == keys_of(self.entries@)[k] by {
                    assert(r.entries@.map_values(f)[k] == self.entries@.map_values(f)[k]);
                }
            }
            assert(r@ =~= self@) by {
                assert forall|key: Seq<char>| r@.contains_key(key) implies r@[key]
                    == self@[key] by {
                    lemma_position(keys_of(r.entries@), key);
                    let k = position(keys_of(r.entries@), key)->Some_0;
                    assert(r.entries@.map_values(f)[k] == self.entries@.map_values(f)[k]);
                }
            }
        }
        r
    }

    /// A table without entries.
    pub fn new() -> (r: VersionMap)
        ensures
            r@ == Map::<Seq<char>, VersionView>::empty(),
            r.is_ordered(),
            r.pairs().len() == 0,
    {
        let r = VersionMap { entries: Vec::new() };
        assert(r@ =~= Map::<Seq<char>, VersionView>::empty());
        r
    }

    /// Whether the entries stand in the order of their names.
    pub closed spec fn is_ordered(&self) -> bool {
        in_key_order(keys_of(self.entries@))
    }

    /// In an ordered table each entry has a name that comes before the
    /// names of the entries after it.
    pub proof fn lemma_pairs_are_ordered(&self, a: int, b: int)
        requires
            self.is_ordered(),
            0 <= a < b < self.pairs().len(),
        ensures
            crate::version::text_before(self.pairs()[a].0, self.pairs()[b].0),
    {
        assert(keys_of(self.entries@)[a] == self.pairs()[a].0);
        assert(keys_of(self.entries@)[b] == self.pairs()[b].0);
    }

    /// Each entry is found under its name.
    pub proof fn lemma_pairs_are_entries(&self, a: int)
        requires
            self.is_ordered(),
            0 <= a < self.pairs().len(),
        ensures
            self@.contains_key(self.pairs()[a].0),
            self@[self.pairs()[a].0] == self.pairs()[a].1,
    {
        let keys = keys_of(self.entries@);
        let key = self.pairs()[a].0;
        assert(keys[a] == key);
        lemma_position(keys, key);
        let k = position(keys, key)->Some_0;
        if k < a {
            crate::version::lemma_text_one_way(keys[k], keys[a]);
            assert(crate::version::text_before(keys[k], keys[a]));
            lemma_same_is_not_before(key);
        }
    }

    /// Puts `version` under `name`, in place of what was there. A new name
    /// goes to its place in the order of the names.
    pub fn insert(&mut self, name: String, version: Version)
        ensures
            final(self)@ == old(self)@.insert(name@, version@),
            old(self).is_ordered() ==> final(self).is_ordered(),
    {
        let ghost before = self.entries@;
        let ghost key = name@;
        let ghost value = version@;
        match find_key(&self.entries, name.as_str()) {
            Some(k) => {
                self.entries.set(k, (name, version));
                proof {
                    lemma_position(keys_of(before), key);
                    assert(keys_of(before)[k as int] == before[k as int].0@);
                    assert(keys_of(self.entries@) =~= keys_of(before));
                    assert forall|other: Seq<char>|
                        position(keys_of(self.entries@), other) == position(
                            keys_of(before),
                            other,
                        ) by {
                        lemma_replaced(before, k as int, self.entries@[k as int], other);
                    }
                    assert forall|other: Seq<char>|
                        other != key && position(keys_of(before), other) is Some implies self.entries@[position(
                        keys_of(before),
                        other,
                    )->Some_0] == before[position(keys_of(before), other)->Some_0] by {
                        lemma_position(keys_of(before), other);
                        let j = position(keys_of(before), other)->Some_0;
                        assert(keys_of(before)[j] == before[j].0@);
                    }
                }
            },
            None => {
                let at = place_of_key(&self.entries, name.as_str());
                self.entries.insert(at, (name, version));
                proof {
                    let e = self.entries@[at as int];
                    assert(self.entries@ =~= before.insert(at as int, e));
                    assert forall|other: Seq<char>|
                        position(keys_of(self.entries@), other) == if other == key {
                            Some(at as int)
                        } else {
                            match position(keys_of(before), other) {
                                Some(j) => Some(
                                    if j < at {
                                        j
                                    } else {
                                        j + 1
                                    },
                                ),
                                None => None,
                            }
                        } by {
                        lemma_inserted(before, at as int, e, other);
                    }
                    assert forall|other: Seq<char>|
                        other != key && position(keys_of(before), other) is Some implies self.entries@[position(
                        keys_of(self.entries@),
                        other,
                    )->Some_0] == before[position(keys_of(before), other)->Some_0] by {
                        lemma_position(keys_of(before), other);
                    }
                    if in_key_order(keys_of(before)) {
                        lemma_order_kept(before, at as int, e);
                    }
                }
            },
        }
        assert(self@ =~= old(self)@.insert(key, value));
    }

    /// The version under `name`, if there is one.
    pub fn get(&self, name: &str) -> (r: Option<&Version>)
        ensures
            match r {
                Some(v) => self@.contains_key(name@) && self@[name@] == v@,
                None => !self@.contains_key(name@),
            },
    {
        match find_key(&self.entries, name) {
            Some(k) => Some(&self.entries[k].1),
            None => None,
        }
    }

    /// Whether there is a version under `name`.
    pub fn contains_key(&self, name: &str) -> (r: bool)
        ensures
            r == self@.contains_key(name@),
    {
        find_key(&self.entries, name).is_some()
    }

    /// Whether the table has no entry.
    pub fn is_empty(&self) -> (r: bool)
        ensures
            r == (self@ == Map::<Seq<char>, VersionView>::empty()),
    {
        let r = self.entries.len() == 0;
        proof {
            if r {
                assert(self@ =~= Map::<Seq<char>, VersionView>::empty());
            } else {
                let key = self.entries@[0].0@;
                assert(keys_of(self.entries@)[0] == key);
                lemma_position(keys_of(self.entries@), key);
                assert(self@.contains_key(key));
            }
        }
        r
    }
}

impl RenameMap {
    /// A table without entries.
    pub fn new() -> (r: RenameMap)
        ensures
            r@ == Map::<Seq<char>, Seq<char>>::empty(),
    {
        let r = RenameMap { entries: Vec::new() };
        assert(r@ =~= Map::<Seq<char>, Seq<char>>::empty());
        r
    }

    /// Puts the new name `to` under `name`, in place of what was there.
    pub fn insert(&mut self, name: String, to: String)
        ensures
            final(self)@ == old(self)@.insert(name@, to@),
    {
        let ghost before = self.entries@;
        let ghost key = name@;
        let ghost value = to@;
        match find_key(&self.entries, name.as_str()) {
            Some(k) => {
                self.entries.set(k, (name, to));
                proof {
                    lemma_position(keys_of(before), key);
                    assert(keys_of(before)[k as int] == before[k as int].0@);
                    assert forall|other: Seq<char>|
                        position(keys_of(self.entries@), other) == position(
                            keys_of(before),
                            other,
                        ) by {
                        lemma_replaced(before, k as int, self.entries@[k as int], other);
                    }
                    assert forall|other: Seq<char>|
                        other != key && position(keys_of(before), other) is Some implies self.entries@[position(
                        keys_of(before),
                        other,
                    )->Some_0] == before[position(keys_of(before), other)->Some_0] by {
                        lemma_position(keys_of(before), other);
                        let j = position(keys_of(before), other)->Some_0;
                        assert(keys_of(before)[j] == before[j].0@);
                    }
                }
            },
            None => {
                self.entries.push((name, to));
                proof {
                    assert forall|other: Seq<char>|
                        position(keys_of(self.entries@), other) == match position(
                            keys_of(before),
                            other,
                        ) {
                            Some(k) => Some(k),
                            None => if key == other {
                                Some(before.len() as int)
                            } else {
                                None
                            },
                        } by {
                        lemma_appended(before, self.entries@[before.len() as int], other);
                        assert(self.entries@ =~= before.push(self.entries@[before.len() as int]));
                    }
                    assert forall|other: Seq<char>|
                        position(keys_of(before), other) is Some implies self.entries@[position(
                        keys_of(before),
                        other,
                    )->Some_0] == before[position(keys_of(before), other)->Some_0] by {
                        lemma_position(keys_of(before), other);
                    }
                }
            },
        }
        assert(self@ =~= old(self)@.insert(key, value));
    }

    /// The new name under `name`, if there is one.
    pub fn get(&self, name: &str) -> (r: Option<&String>)
        ensures
            match r {
                Some(v) => self@.contains_key(name@) && self@[name@] == v@,
                None => !self@.contains_key(name@),
            },
    {
        match find_key(&self.entries, name) {
            Some(k) => Some(&self.entries[k].1),
            None => None,
        }
    }

    /// Whether there is a new name under `name`.
    pub fn contains_key(&self, name: &str) -> (r: bool)
        ensures
            r == self@.contains_key(name@),
    {
        find_key(&self.entries, name).is_some()
    }
}

} // verus!
