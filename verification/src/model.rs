//! The mathematical model of the map: a sequence of key-value pairs in
//! insertion order, and what lookup and insertion mean on it.
//!
//! Keys are compared by their views, see [`MapKey`](crate::key::MapKey). A
//! map only ever holds sequences whose keys are pairwise distinct
//! ([`distinct_keys`]); on those, "the entry stored under a key" is one entry.

use vstd::prelude::*;

verus! {

/// Some entry of `s` is stored under the key `k`.
pub open spec fn contains_key<K: View, V>(s: Seq<(K, V)>, k: K::V) -> bool {
    exists|i: int| 0 <= i < s.len() && (#[trigger] s[i]).0@ == k
}

/// The index of an entry of `s` stored under the key `k`, where there is one.
pub open spec fn index_of<K: View, V>(s: Seq<(K, V)>, k: K::V) -> int {
    choose|i: int| 0 <= i < s.len() && (#[trigger] s[i]).0@ == k
}

/// `i` is the index of the first pair of `pairs` that has the key `k`.
pub open spec fn is_first_with_key<K: View, V>(pairs: Seq<(K, V)>, k: K::V, i: int) -> bool {
    &&& 0 <= i < pairs.len()
    &&& pairs[i].0@ == k
    &&& forall|j: int| 0 <= j < i ==> (#[trigger] pairs[j]).0@ != k
}

/// No two entries of `s` are stored under the same key.
pub open spec fn distinct_keys<K: View, V>(s: Seq<(K, V)>) -> bool {
    forall|i: int, j: int|
        0 <= i < j < s.len() ==> (#[trigger] s[i]).0@ != (#[trigger] s[j]).0@
}

/// The number of entries of `s` stored under the key `k`.
pub open spec fn count_key<K: View, V>(s: Seq<(K, V)>, k: K::V) -> nat {
    s.filter(|e: (K, V)| e.0@ == k).len()
}

/// The entries of `s` as a map from keys to values, which forgets their order.
pub open spec fn to_map<K: View, V>(s: Seq<(K, V)>) -> Map<K::V, V> {
    Map::new(|k: K::V| contains_key(s, k), |k: K::V| s[index_of(s, k)].1)
}

/// The entries after `(k, v)` is inserted. Where `k` is present, every entry
/// keeps its place and its stored key, and the one under `k` takes the value
/// `v`. Where it is absent, `(k, v)` is appended.
pub open spec fn with_entry<K: View, V>(s: Seq<(K, V)>, k: K, v: V) -> Seq<(K, V)> {
    if contains_key(s, k@) {
        s.map_values(
            |e: (K, V)|
                if e.0@ == k@ {
                    (e.0, v)
                } else {
                    e
                },
        )
    } else {
        s.push((k, v))
    }
}

/// The entries after every pair of `pairs` is inserted into an empty map, from
/// the first pair to the last.
pub open spec fn collect<K: View, V>(pairs: Seq<(K, V)>) -> Seq<(K, V)>
    decreases pairs.len(),
{
    if pairs.len() == 0 {
        Seq::empty()
    } else {
        with_entry(collect(pairs.drop_last()), pairs.last().0, pairs.last().1)
    }
}

/// The entries of `s` as an iterator hands them out: a reference to the key
/// and a reference to the value of each, in the same order.
pub open spec fn entry_refs<'a, K, V>(s: Seq<(K, V)>) -> Seq<(&'a K, &'a V)> {
    s.map_values(|e: (K, V)| (&e.0, &e.1))
}

/// `pairs` holds, place by place, a clone of each key and of each value of
/// `s`.
pub open spec fn cloned_pairs<K: Clone, V: Clone>(s: Seq<(K, V)>, pairs: Seq<(K, V)>) -> bool {
    &&& pairs.len() == s.len()
    &&& forall|i: int|
        0 <= i < s.len() ==> cloned::<K>((#[trigger] s[i]).0, pairs[i].0) && cloned::<V>(
            s[i].1,
            pairs[i].1,
        )
}

} // verus!
