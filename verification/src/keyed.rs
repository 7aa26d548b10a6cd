//! A list of entries under string keys that keeps the order in which the keys
//! first came and holds each key once.

use crate::text::equals;
use vstd::prelude::*;

verus! {

/// Whether some entry of `entries` stands under `key`.
pub open spec fn has_key<V>(entries: Seq<(Seq<char>, V)>, key: Seq<char>) -> bool {
    exists|i: int| 0 <= i < entries.len() && (#[trigger] entries[i]).0 == key
}

/// Whether no key occurs twice in `entries`.
pub open spec fn distinct_keys<V>(entries: Seq<(Seq<char>, V)>) -> bool {
    forall|i: int, j: int|
        0 <= i < j < entries.len() ==> (#[trigger] entries[i]).0 != (#[trigger] entries[j]).0
}

/// The value under `key`, if there is one.
pub open spec fn value_of<V>(entries: Seq<(Seq<char>, V)>, key: Seq<char>) -> Option<V> {
    if has_key(entries, key) {
        Some(entries[choose|i: int| 0 <= i < entries.len() && (#[trigger] entries[i]).0 == key].1)
    } else {
        None
    }
}

/// Whether exactly one entry of `entries` stands under `key`, and holds
/// `value`.
pub open spec fn holds_once<V>(entries: Seq<(Seq<char>, V)>, key: Seq<char>, value: V) -> bool {
    exists|i: int|
        0 <= i < entries.len() && #[trigger] entries[i] == (key, value) && forall|j: int|
            0 <= j < entries.len() && (#[trigger] entries[j]).0 == key ==> j == i
}

/// `entries` with `value` under `key`: in the place of the entry that had the
/// key, or at the end where there was none.
pub open spec fn upsert<V>(entries: Seq<(Seq<char>, V)>, key: Seq<char>, value: V) -> Seq<
    (Seq<char>, V),
> {
    if has_key(entries, key) {
        entries.map_values(
            |entry: (Seq<char>, V)|
                if entry.0 == key {
                    (key, value)
                } else {
                    entry
                },
        )
    } else {
        entries.push((key, value))
    }
}

/// Entries under string keys, in the order in which their keys first came.
#[derive(Debug)]
pub struct KeyedList<V> {
    entries: Vec<(String, V)>,
}

impl<V> View for KeyedList<V> {
    type V = Seq<(Seq<char>, V)>;

    closed spec fn view(&self) -> Seq<(Seq<char>, V)> {
        keys_viewed(self.entries@)
    }
}

/// The entries with each key as its character sequence.
spec fn keys_viewed<V>(entries: Seq<(String, V)>) -> Seq<(Seq<char>, V)> {
    entries.map_values(|entry: (String, V)| (entry.0@, entry.1))
}

impl<V> KeyedList<V> {
    /// What holds of every list: no key occurs twice.
    #[verifier::type_invariant]
    pub open spec fn keys_are_distinct(&self) -> bool {
        distinct_keys(self@)
    }

    /// A list without entries.
    pub fn new() -> (list: Self)
        ensures
            list@ == Seq::<(Seq<char>, V)>::empty(),
    {
        let list = KeyedList { entries: Vec::new() };
        assert(list@ =~= Seq::<(Seq<char>, V)>::empty());
        list
    }

    /// The number of entries.
    pub fn len(&self) -> (n: usize)
        ensures
            n == self@.len(),
    {
        self.entries.len()
    }

    /// The entry at `index`, counted from the first key that came.
    pub fn entry(&self, index: usize) -> (entry: Option<(&str, &V)>)
        ensures
            entry is Some <==> index < self@.len(),
            entry matches Some(found) ==> found.0@ == self@[index as int].0 && *found.1
                == self@[index as int].1,
    {
        if index < self.entries.len() {
            Some((self.entries[index].0.as_str(), &self.entries[index].1))
        } else {
            None
        }
    }

    /// The value under `key`.
    pub fn get(&self, key: &str) -> (value: Option<&V>)
        ensures
            value is Some <==> has_key(self@, key@),
            value matches Some(found) ==> value_of(self@, key@) == Some(*found),
    {
        proof {
            use_type_invariant(self);
        }
        match self.position(key) {
            Some(i) => {
                proof {
                    lemma_value_at_key(self@, i as int);
                }
                Some(&self.entries[i].1)
            },
            None => None,
        }
    }

    /// The place of the entry under `key`.
    pub fn position(&self, key: &str) -> (place: Option<usize>)
        ensures
            place is Some <==> has_key(self@, key@),
            place matches Some(i) ==> i < self@.len() && self@[i as int].0 == key@,
    {
        let mut i: usize = 0;
        while i < self.entries.len()
            invariant
                i <= self.entries.len(),
                forall|j: int| 0 <= j < i ==> (#[trigger] self@[j]).0 != key@,
            decreases self.entries.len() - i,
        {
            if equals(self.entries[i].0.as_str(), key) {
                assert(self@[i as int].0 == key@);
                return Some(i);
            }
            i += 1;
        }
        None
    }

    /// Puts `value` under `key`. An entry that had the key keeps its place and
    /// takes the new value; a new key goes to the end.
    pub fn insert(&mut self, key: String, value: V)
        ensures
            final(self)@ == upsert(old(self)@, key@, value),
            distinct_keys(final(self)@),
    {
        proof {
            use_type_invariant(&*self);
            lemma_upsert_keeps_keys_distinct(self@, key@, value);
        }
        let ghost before = self@;
        let place = self.position(key.as_str());
        // The entries are taken out while they change and put back whole, so
        // that `self` is a list without a repeated key at every step.
        let mut entries: Vec<(String, V)> = Vec::new();
        std::mem::swap(&mut self.entries, &mut entries);
        match place {
            Some(i) => {
                entries.set(i, (key, value));
            },
            None => {
                entries.push((key, value));
            },
        }
        assert(keys_viewed(entries@) =~= upsert(before, key@, value));
        self.entries = entries;
    }
}

/// Where no key occurs twice, the value under a key is that of the one entry
/// that has the key.
pub proof fn lemma_value_at_key<V>(entries: Seq<(Seq<char>, V)>, i: int)
    requires
        distinct_keys(entries),
        0 <= i < entries.len(),
    ensures
        value_of(entries, entries[i].0) == Some(entries[i].1),
{
    let key = entries[i].0;
    let j = choose|j: int| 0 <= j < entries.len() && (#[trigger] entries[j]).0 == key;
    assert(i == j) by {
        if i < j {
            assert(entries[i].0 != entries[j].0);
        }
        if j < i {
            assert(entries[j].0 != entries[i].0);
        }
    }
}

/// Putting a value under a key leaves every key single.
pub proof fn lemma_upsert_keeps_keys_distinct<V>(
    entries: Seq<(Seq<char>, V)>,
    key: Seq<char>,
    value: V,
)
    requires
        distinct_keys(entries),
    ensures
        distinct_keys(upsert(entries, key, value)),
{
    let after = upsert(entries, key, value);
    assert forall|i: int, j: int| 0 <= i < j < after.len() implies (#[trigger] after[i]).0 != (
    #[trigger] after[j]).0 by {
        if has_key(entries, key) {
            assert(after[i].0 == entries[i].0);
            assert(after[j].0 == entries[j].0);
        } else {
            if j < entries.len() {
                assert(after[i] == entries[i]);
                assert(after[j] == entries[j]);
            } else {
                assert(after[i] == entries[i]);
            }
        }
    }
}

/// After a value was put under a key, the key stands there once, with that
/// value.
pub proof fn lemma_upsert_holds_once<V>(entries: Seq<(Seq<char>, V)>, key: Seq<char>, value: V)
    requires
        distinct_keys(entries),
    ensures
        holds_once(upsert(entries, key, value), key, value),
{
    let after = upsert(entries, key, value);
    lemma_upsert_keeps_keys_distinct(entries, key, value);
    let i = if has_key(entries, key) {
        choose|i: int| 0 <= i < entries.len() && (#[trigger] entries[i]).0 == key
    } else {
        entries.len() as int
    };
    assert(after[i] == (key, value));
    assert forall|j: int| 0 <= j < after.len() && (#[trigger] after[j]).0 == key implies j == i by {
        if j < i {
            assert(after[j].0 != after[i].0);
        }
        if i < j {
            assert(after[i].0 != after[j].0);
        }
    }
}

/// Of two values put under one key in turn, only the second is left: the
/// list is as if the first had never been put.
pub proof fn lemma_upsert_again<V>(
    entries: Seq<(Seq<char>, V)>,
    key: Seq<char>,
    first: V,
    second: V,
)
    ensures
        upsert(upsert(entries, key, first), key, second) == upsert(entries, key, second),
{
    let once = upsert(entries, key, first);
    if has_key(entries, key) {
        let i = choose|i: int| 0 <= i < entries.len() && (#[trigger] entries[i]).0 == key;
        assert(once[i].0 == key);
    } else {
        assert(once[entries.len() as int].0 == key);
        assert forall|j: int| 0 <= j < entries.len() implies (#[trigger] entries[j]).0 != key by {}
    }
    assert(upsert(once, key, second) =~= upsert(entries, key, second));
}

/// Putting a value under a key lengthens the list by one where the key is
/// new, and not at all where it was there.
pub proof fn lemma_upsert_len<V>(entries: Seq<(Seq<char>, V)>, key: Seq<char>, value: V)
    ensures
        upsert(entries, key, value).len() == if has_key(entries, key) {
            entries.len()
        } else {
            entries.len() + 1
        },
{
}

/// Putting a value under a key leaves the entries under other keys as they
/// are, each in its place.
pub proof fn lemma_upsert_keeps_others<V>(
    entries: Seq<(Seq<char>, V)>,
    key: Seq<char>,
    value: V,
    i: int,
)
    requires
        0 <= i < entries.len(),
        entries[i].0 != key,
    ensures
        upsert(entries, key, value)[i] == entries[i],
{
}

} // verus!
