//! The ordered map and the iterator over its entries.

use vstd::prelude::*;
use vstd::std_specs::convert::FromSpecImpl;
use crate::key::MapKey;
use crate::laws::{lemma_index_of, lemma_insert_as_map};
use crate::model::{
    cloned_pairs, collect, contains_key, distinct_keys, entry_refs, index_of, is_first_with_key,
    to_map, with_entry,
};

verus! {

/// One key with the value stored under it.
#[derive(Debug)]
struct Entry<K, V> {
    key: K,
    val: V,
}

/// The pairs that a sequence of entries stands for.
spec fn pairs_of<K, V>(entries: Seq<Entry<K, V>>) -> Seq<(K, V)> {
    entries.map_values(|e: Entry<K, V>| (e.key, e.val))
}

/// A map that keeps its entries in the order in which their keys were first
/// inserted.
///
/// Its view is the sequence of its `(key, value)` pairs in that order. No two
/// entries are stored under the same key.
pub struct RegistOrderMap<K: MapKey, V> {
    entries: Vec<Entry<K, V>>,
}

impl<K: MapKey, V> View for RegistOrderMap<K, V> {
    type V = Seq<(K, V)>;

    closed spec fn view(&self) -> Seq<(K, V)> {
        pairs_of(self.entries@)
    }
}

impl<K: MapKey, V> RegistOrderMap<K, V> {
    /// The invariant of every map: its keys are pairwise distinct.
    #[verifier::type_invariant]
    pub open spec fn wf(self) -> bool {
        distinct_keys(self@)
    }

    /// The entries as a map from keys to values, which forgets their order.
    pub open spec fn as_map(&self) -> Map<K::V, V> {
        to_map(self@)
    }

    /// Creates an empty map.
    pub fn new() -> (map: Self)
        ensures
            map@ == Seq::<(K, V)>::empty(),
    {
        Default::default()
    }

    /// Scans the entries from the earliest on and returns the index of the
    /// one stored under `k`, if there is one.
    fn find(&self, k: &K) -> (found: Option<usize>)
        ensures
            match found {
                Some(i) => is_first_with_key(self@, k@, i as int) && i == index_of(self@, k@),
                None => !contains_key(self@, k@),
            },
    {
        proof {
            use_type_invariant(self);
        }
        let mut i: usize = 0;
        while i < self.entries.len()
            invariant
                i <= self.entries.len(),
                distinct_keys(self@),
                forall|j: int| 0 <= j < i ==> (#[trigger] self@[j]).0@ != k@,
            decreases self.entries.len() - i,
        {
            if self.entries[i].key.same_key(k) {
                proof {
                    lemma_index_of(self@, i as int);
                }
                return Some(i);
            }
            i += 1;
        }
        None
    }

    /// Returns the value stored under `k`, or `None` where no entry has that
    /// key.
    pub fn get(&self, k: &K) -> (value: Option<&V>)
        ensures
            value == (if self.as_map().dom().contains(k@) {
                Some(&self.as_map()[k@])
            } else {
                None
            }),
    {
        match self.find(k) {
            Some(i) => Some(&self.entries[i].val),
            None => None,
        }
    }

    /// Appends `(k, v)` as the last entry.
    fn append(&mut self, k: K, v: V)
        requires
            !contains_key(old(self)@, k@),
        ensures
            final(self)@ == old(self)@.push((k, v)),
    {
        proof {
            use_type_invariant(&*self);
        }
        let mut entries = Vec::new();
        core::mem::swap(&mut entries, &mut self.entries);
        entries.push(Entry { key: k, val: v });
        proof {
            assert(pairs_of(entries@) =~= old(self)@.push((k, v)));
        }
        self.entries = entries;
    }

    /// Stores `v` in the entry at index `i`.
    fn overwrite(&mut self, i: usize, v: V)
        requires
            i < old(self)@.len(),
        ensures
            final(self)@ == old(self)@.update(i as int, (old(self)@[i as int].0, v)),
    {
        proof {
            use_type_invariant(&*self);
        }
        let mut entries = Vec::new();
        core::mem::swap(&mut entries, &mut self.entries);
        entries[i].val = v;
        proof {
            assert(pairs_of(entries@) =~= old(self)@.update(i as int, (old(self)@[i as int].0, v)));
        }
        self.entries = entries;
    }

    /// Inserts the pair `(k, v)`.
    ///
    /// Where an entry is already stored under `k`, it keeps its place and its
    /// key, and its value becomes `v`. Otherwise `(k, v)` becomes the last
    /// entry. The other entries stay as they are.
    pub fn insert(&mut self, k: K, v: V)
        ensures
            final(self)@ == with_entry(old(self)@, k, v),
            final(self).as_map() == old(self).as_map().insert(k@, v),
    {
        proof {
            use_type_invariant(&*self);
            lemma_insert_as_map(self@, k, v);
        }
        match self.find(&k) {
            None => self.append(k, v),
            Some(i) => {
                self.overwrite(i, v);
                proof {
                    assert(self@ =~= with_entry(old(self)@, k, v));
                }
            },
        }
    }

    /// Returns whether the map has no entry.
    pub fn is_empty(&self) -> (empty: bool)
        ensures
            empty == (self@.len() == 0),
    {
        self.entries.is_empty()
    }

    /// Returns an iterator over the entries, from the earliest inserted to the
    /// latest.
    pub fn iter(&self) -> (iter: Iter<'_, K, V>)
        ensures
            iter.pending() == self@,
    {
        Iter { entries: &self.entries, pos: 0 }
    }

    /// Returns the number of entries.
    pub fn len(&self) -> (n: usize)
        ensures
            n == self@.len(),
    {
        self.entries.len()
    }

    /// Creates an empty map with room reserved for at least `capacity`
    /// entries.
    pub fn with_capacity(capacity: usize) -> (map: Self)
        ensures
            map@ == Seq::<(K, V)>::empty(),
    {
        RegistOrderMap { entries: Vec::with_capacity(capacity) }
    }
}

impl<K: MapKey, V> Default for RegistOrderMap<K, V> {
    /// Creates an empty map.
    fn default() -> (map: Self)
        ensures
            map@ == Seq::<(K, V)>::empty(),
    {
        RegistOrderMap { entries: Vec::new() }
    }
}

impl<K: MapKey + Clone, V: Clone> Clone for RegistOrderMap<K, V> {
    /// Clones every key and every value, and inserts the clones in order into
    /// a new map.
    ///
    /// Where each key's clone has the view of the key, the new map holds the
    /// clones place by place.
    fn clone(&self) -> (copy: Self)
        ensures
            exists|pairs: Seq<(K, V)>| #[trigger] cloned_pairs(self@, pairs) && copy@ == collect(pairs),
    {
        let n = self.entries.len();
        let mut copy: Self = RegistOrderMap::with_capacity(n);
        let ghost mut pairs: Seq<(K, V)> = Seq::empty();
        let mut faithful = true;
        let mut i: usize = 0;
        proof {
            use_type_invariant(self);
        }
        while i < n
            invariant
                i <= n,
                n == self@.len(),
                n == self.entries@.len(),
                distinct_keys(self@),
                cloned_pairs(self@.take(i as int), pairs),
                copy@ == collect(pairs),
                faithful ==> copy@.len() == i,
                faithful ==> forall|j: int| 0 <= j < i ==> (#[trigger] copy@[j]).0@ == self@[j].0@,
            decreases n - i,
        {
            let k = self.entries[i].key.clone();
            let v = self.entries[i].val.clone();
            proof {
                let grown = pairs.push((k, v));
                assert(grown.drop_last() =~= pairs);
                assert(cloned_pairs(self@.take(i + 1), grown));
                pairs = grown;
            }
            if faithful && k.same_key(&self.entries[i].key) {
                proof {
                    assert forall|j: int| 0 <= j < copy@.len() implies (#[trigger] copy@[j]).0@
                        != k@ by {
                        assert(self@[j].0@ != self@[i as int].0@);
                    }
                }
                copy.append(k, v);
            } else {
                faithful = false;
                copy.insert(k, v);
            }
            i += 1;
        }
        proof {
            assert(self@.take(n as int) =~= self@);
        }
        copy
    }
}

impl<K: MapKey + Copy, V: Copy, const N: usize> From<[(K, V); N]> for RegistOrderMap<K, V> {
    /// Builds a map by inserting the pairs of `arr` from the first to the
    /// last. Of two pairs with the same key the earlier one fixes the place
    /// and the stored key, the later one the value.
    fn from(arr: [(K, V); N]) -> (map: Self)
        ensures
            map@ == collect(arr@),
    {
        let mut map: Self = RegistOrderMap::with_capacity(N);
        let mut i: usize = 0;
        while i < N
            invariant
                i <= N,
                arr@.len() == N,
                map@ == collect(arr@.take(i as int)),
            decreases N - i,
        {
            proof {
                assert(arr@.take(i + 1).drop_last() =~= arr@.take(i as int));
            }
            let (k, v) = arr[i];
            map.insert(k, v);
            i += 1;
        }
        proof {
            assert(arr@.take(N as int) =~= arr@);
        }
        map
    }
}

/// Two maps with the same entries need not be the same value (their reserved
/// capacity may differ), so `from` is specified by its own `ensures`, on the
/// view, and not by `from_spec`.
impl<K: MapKey + Copy, V: Copy, const N: usize> FromSpecImpl<[(K, V); N]> for RegistOrderMap<K, V> {
    open spec fn obeys_from_spec() -> bool {
        false
    }

    open spec fn from_spec(arr: [(K, V); N]) -> Self {
        arbitrary()
    }
}

/// `core::fmt::Formatter`, the sink that std hands to `Debug::fmt`. Nothing
/// is stated of it: it is only passed on.
#[verifier::external_type_specification]
#[verifier::external_body]
pub struct ExFormatter<'a>(core::fmt::Formatter<'a>);

/// `core::fmt::Error`, the error of a formatter whose sink has failed.
/// Nothing is stated of it: it is only passed on.
#[verifier::external_type_specification]
#[verifier::external_body]
pub struct ExFmtError(core::fmt::Error);

impl<K: MapKey + core::fmt::Debug, V: core::fmt::Debug> core::fmt::Debug for RegistOrderMap<K, V> {
    /// Writes the entries as a list, in insertion order: each entry as
    /// `Entry { key: .., val: .. }`, with the key and the value in their own
    /// `Debug` form.
    fn fmt(&self, f: &mut core::fmt::Formatter<'_>) -> (written: core::fmt::Result) {
        fmt_entries(&self.entries, f)
    }
}

/// `Debug::fmt` of a `Vec`, which std gives through `impl Debug for Vec`: it
/// writes the elements as a list, each in its own `Debug` form, and fails
/// only where the formatter's sink fails. Nothing is stated of what is
/// written.
#[verifier::external_body]
fn fmt_entries<K: core::fmt::Debug, V: core::fmt::Debug>(
    entries: &Vec<Entry<K, V>>,
    f: &mut core::fmt::Formatter<'_>,
) -> (written: core::fmt::Result) {
    core::fmt::Debug::fmt(entries, f)
}

/// An iterator over the entries of a [`RegistOrderMap`], in insertion order.
///
/// It yields a reference to the key and a reference to the value of each
/// entry.
pub struct Iter<'a, K, V> {
    entries: &'a Vec<Entry<K, V>>,
    pos: usize,
}

impl<'a, K, V> Iter<'a, K, V> {
    #[verifier::type_invariant]
    spec fn wf(self) -> bool {
        self.pos <= self.entries@.len()
    }

    /// The entries that the iterator has still to yield, in order.
    pub closed spec fn pending(&self) -> Seq<(K, V)> {
        pairs_of(self.entries@).skip(self.pos as int)
    }
}

impl<'a, K, V> Iterator for Iter<'a, K, V> {
    type Item = (&'a K, &'a V);

    /// Yields the first of the pending entries, or `None` when none is
    /// pending.
    fn next(&mut self) -> (item: Option<(&'a K, &'a V)>)
        ensures
            match item {
                Some((k, v)) => {
                    &&& old(self).pending().len() > 0
                    &&& (*k, *v) == old(self).pending().first()
                    &&& final(self).pending() == old(self).pending().drop_first()
                },
                None => {
                    &&& old(self).pending().len() == 0
                    &&& final(self).pending() == old(self).pending()
                },
            },
    {
        proof {
            use_type_invariant(&*self);
        }
        if self.pos < self.entries.len() {
            let entry = &self.entries[self.pos];
            self.pos = self.pos + 1;
            proof {
                assert(self.pending() =~= old(self).pending().drop_first());
                assert(entry_refs(self.pending()) =~= entry_refs(old(self).pending()).drop_first());
            }
            Some((&entry.key, &entry.val))
        } else {
            None
        }
    }
}

impl<'a, K, V> vstd::std_specs::iter::IteratorSpecImpl for Iter<'a, K, V> {
    open spec fn obeys_prophetic_iter_laws(&self) -> bool {
        true
    }

    open spec fn remaining(&self) -> Seq<(&'a K, &'a V)> {
        entry_refs(self.pending())
    }

    open spec fn will_return_none(&self) -> bool {
        true
    }

    open spec fn decrease(&self) -> Option<nat> {
        Some(self.pending().len())
    }

    open spec fn initial_value_relation(&self, init: &Self) -> bool {
        init == self
    }

    open spec fn peek(&self, index: int) -> Option<(&'a K, &'a V)> {
        None
    }
}

} // verus!
