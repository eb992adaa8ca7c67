//! A small map from text keys to values, kept as a list of entries.
//!
//! The last entry for a key is the one that counts, so the map that a list
//! stands for is defined for every list and needs no invariant.
//!
//! A hash map of the standard library is of no use here: what is known of
//! it holds only for keys whose hashing is known, which are the integers,
//! and the keys of this map are strings.

use crate::text::{owned, same_text};
use vstd::prelude::*;
use vstd::string::*;

verus! {

/// A map keyed by text.
#[derive(Debug)]
pub struct Dict<V> {
    entries: Vec<(String, V)>,
}

/// The map that the first `n` entries stand for.
pub open spec fn prefix_map<V: View>(entries: Seq<(String, V)>, n: int) -> Map<Seq<char>, V::V>
    decreases n,
{
    if n <= 0 {
        Map::empty()
    } else {
        prefix_map(entries, n - 1).insert(entries[n - 1].0@, entries[n - 1].1@)
    }
}

/// The map from keys to the values themselves that the first `n` entries
/// stand for.
pub open spec fn prefix_raw<V>(entries: Seq<(String, V)>, n: int) -> Map<Seq<char>, V>
    decreases n,
{
    if n <= 0 {
        Map::empty()
    } else {
        prefix_raw(entries, n - 1).insert(entries[n - 1].0@, entries[n - 1].1)
    }
}

proof fn lemma_absent_raw<V>(entries: Seq<(String, V)>, n: int, k: Seq<char>)
    requires
        0 <= n <= entries.len(),
        forall|j: int| 0 <= j < n ==> (#[trigger] entries[j]).0@ != k,
    ensures
        !prefix_raw(entries, n).contains_key(k),
    decreases n,
{
    if n > 0 {
        lemma_absent_raw(entries, n - 1, k);
    }
}

proof fn lemma_last_raw<V>(entries: Seq<(String, V)>, n: int, i: int, k: Seq<char>)
    requires
        0 <= i < n <= entries.len(),
        entries[i].0@ == k,
        forall|j: int| i < j < n ==> (#[trigger] entries[j]).0@ != k,
    ensures
        prefix_raw(entries, n).contains_key(k),
        prefix_raw(entries, n)[k] == entries[i].1,
    decreases n,
{
    if n - 1 > i {
        lemma_last_raw(entries, n - 1, i, k);
    }
}

proof fn lemma_raw_view<V: View>(entries: Seq<(String, V)>, n: int, k: Seq<char>)
    requires
        0 <= n <= entries.len(),
    ensures
        prefix_map(entries, n).contains_key(k) == prefix_raw(entries, n).contains_key(k),
        prefix_raw(entries, n).contains_key(k) ==> prefix_map(entries, n)[k] == prefix_raw(
            entries,
            n,
        )[k]@,
    decreases n,
{
    if n > 0 {
        lemma_raw_view(entries, n - 1, k);
    }
}

proof fn lemma_absent<V: View>(entries: Seq<(String, V)>, n: int, k: Seq<char>)
    requires
        0 <= n <= entries.len(),
        forall|j: int| 0 <= j < n ==> (#[trigger] entries[j]).0@ != k,
    ensures
        !prefix_map(entries, n).contains_key(k),
    decreases n,
{
    if n > 0 {
        lemma_absent(entries, n - 1, k);
    }
}

proof fn lemma_last<V: View>(entries: Seq<(String, V)>, n: int, i: int, k: Seq<char>)
    requires
        0 <= i < n <= entries.len(),
        entries[i].0@ == k,
        forall|j: int| i < j < n ==> (#[trigger] entries[j]).0@ != k,
    ensures
        prefix_map(entries, n).contains_key(k),
        prefix_map(entries, n)[k] == entries[i].1@,
    decreases n,
{
    if n - 1 > i {
        lemma_last(entries, n - 1, i, k);
    }
}

proof fn lemma_same_prefix<V: View>(a: Seq<(String, V)>, b: Seq<(String, V)>, n: int)
    requires
        0 <= n <= a.len(),
        n <= b.len(),
        forall|j: int| 0 <= j < n ==> a[j] == b[j],
    ensures
        prefix_map(a, n) == prefix_map(b, n),
    decreases n,
{
    if n > 0 {
        lemma_same_prefix(a, b, n - 1);
    }
}

proof fn lemma_update<V: View>(entries: Seq<(String, V)>, n: int, i: int, e: (String, V))
    requires
        0 <= i < n <= entries.len(),
        entries[i].0@ == e.0@,
        forall|j: int| i < j < n ==> (#[trigger] entries[j]).0@ != e.0@,
    ensures
        prefix_map(entries.update(i, e), n) =~= prefix_map(entries, n).insert(e.0@, e.1@),
    decreases n,
{
    let upd = entries.update(i, e);
    if n - 1 > i {
        lemma_update(entries, n - 1, i, e);
        assert(upd[n - 1] == entries[n - 1]);
    } else {
        lemma_same_prefix(entries, upd, n - 1);
        assert(upd[n - 1] == e);
    }
}

impl<V: View> View for Dict<V> {
    type V = Map<Seq<char>, V::V>;

    closed spec fn view(&self) -> Map<Seq<char>, V::V> {
        prefix_map(self.entries@, self.entries@.len() as int)
    }
}

impl<V: View> Dict<V> {
    /// The values themselves by key. The view of the map holds the view of
    /// each.
    pub closed spec fn raw(&self) -> Map<Seq<char>, V> {
        prefix_raw(self.entries@, self.entries@.len() as int)
    }

    /// The view of the map holds, at each key, the view of the value that
    /// the map holds there.
    pub proof fn law_view_of_raw(&self, key: Seq<char>)
        ensures
            self@.contains_key(key) == self.raw().contains_key(key),
            self.raw().contains_key(key) ==> self@[key] == self.raw()[key]@,
    {
        lemma_raw_view(self.entries@, self.entries@.len() as int, key);
    }

    /// The empty map.
    pub fn new() -> (d: Self)
        ensures
            d@ == Map::<Seq<char>, V::V>::empty(),
    {
        Dict { entries: Vec::new() }
    }

    /// Index of the entry that counts for `key`.
    fn find(&self, key: &str) -> (r: Option<usize>)
        ensures
            match r {
                Some(i) => i < self.entries@.len() && self.entries@[i as int].0@ == key@
                    && forall|j: int|
                    i < j < self.entries@.len() ==> (#[trigger] self.entries@[j]).0@ != key@,
                None => forall|j: int|
                    0 <= j < self.entries@.len() ==> (#[trigger] self.entries@[j]).0@ != key@,
            },
    {
        let mut i: usize = self.entries.len();
        while i > 0
            invariant
                i <= self.entries@.len(),
                forall|j: int|
                    i <= j < self.entries@.len() ==> (#[trigger] self.entries@[j]).0@ != key@,
            decreases i,
        {
            i -= 1;
            if same_text(self.entries[i].0.as_str(), key) {
                return Some(i);
            }
        }
        None
    }

    /// Whether `key` is bound.
    pub fn contains(&self, key: &str) -> (r: bool)
        ensures
            r == self@.contains_key(key@),
    {
        let found = self.find(key);
        proof {
            let n = self.entries@.len() as int;
            match found {
                Some(i) => lemma_last(self.entries@, n, i as int, key@),
                None => lemma_absent(self.entries@, n, key@),
            }
        }
        found.is_some()
    }

    /// The value bound to `key`, if any.
    pub fn get(&self, key: &str) -> (r: Option<&V>)
        ensures
            match r {
                Some(v) => self@.contains_key(key@) && self@[key@] == v@,
                None => !self@.contains_key(key@),
            },
            match r {
                Some(v) => self.raw().contains_key(key@) && self.raw()[key@] == *v,
                None => !self.raw().contains_key(key@),
            },
    {
        let found = self.find(key);
        proof {
            let n = self.entries@.len() as int;
            match found {
                Some(i) => {
                    lemma_last(self.entries@, n, i as int, key@);
                    lemma_last_raw(self.entries@, n, i as int, key@);
                },
                None => {
                    lemma_absent(self.entries@, n, key@);
                    lemma_absent_raw(self.entries@, n, key@);
                },
            }
        }
        match found {
            Some(i) => Some(&self.entries[i].1),
            None => None,
        }
    }

    /// Bind `key` to `value`; the value bound before, if any, is handed back.
    pub fn put(&mut self, key: &str, value: V) -> (r: Option<V>)
        ensures
            final(self)@ == old(self)@.insert(key@, value@),
            match r {
                Some(p) => old(self)@.contains_key(key@) && old(self)@[key@] == p@,
                None => !old(self)@.contains_key(key@),
            },
    {
        let found = self.find(key);
        let ghost before = self.entries@;
        let ghost n = before.len() as int;
        let entry = (owned(key), value);
        let ghost e = entry;
        self.entries.push(entry);
        proof {
            lemma_same_prefix(before, self.entries@, n);
        }
        match found {
            Some(i) => {
                let prev = self.entries.swap_remove(i);
                proof {
                    lemma_last(before, n, i as int, key@);
                    lemma_update(before, n, i as int, e);
                    assert(self.entries@ =~= before.update(i as int, e));
                }
                Some(prev.1)
            },
            None => {
                proof {
                    lemma_absent(before, n, key@);
                }
                None
            },
        }
    }
}

} // verus!
