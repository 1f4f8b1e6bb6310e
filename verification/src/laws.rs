//! Laws of the model: what insertion and lookup guarantee on every map.
//!
//! Every law is stated over the sequences of [`model`](crate::model). A map's
//! view is such a sequence with pairwise distinct keys, and the contracts of
//! the map's methods are stated over the same functions, so each law holds of
//! every map and of every run of calls on it.

use vstd::prelude::*;
use crate::model::{
    collect, contains_key, count_key, distinct_keys, index_of, is_first_with_key, to_map,
    with_entry,
};

verus! {

/// Among distinct keys, the entry stored under a key is the only one under
/// that key.
pub proof fn lemma_index_of<K: View, V>(s: Seq<(K, V)>, i: int)
    requires
        distinct_keys(s),
        0 <= i < s.len(),
    ensures
        index_of(s, s[i].0@) == i,
{
    let j = index_of(s, s[i].0@);
    if i < j {
        assert(s[i].0@ != s[j].0@);
    } else if j < i {
        assert(s[j].0@ != s[i].0@);
    }
}

/// Insertion keeps the keys pairwise distinct.
pub proof fn lemma_insert_keeps_distinct<K: View, V>(s: Seq<(K, V)>, k: K, v: V)
    requires
        distinct_keys(s),
    ensures
        distinct_keys(with_entry(s, k, v)),
{
    let t = with_entry(s, k, v);
    assert forall|i: int, j: int| 0 <= i < j < t.len() implies (#[trigger] t[i]).0@ != (
    #[trigger] t[j]).0@ by {
        if j < s.len() {
            assert(s[i].0@ != s[j].0@);
        } else {
            assert(s[i].0@ != k@);
        }
    }
}

/// Whatever pairs are inserted, in whatever order, the keys of the result are
/// pairwise distinct.
pub proof fn lemma_collect_keeps_distinct<K: View, V>(pairs: Seq<(K, V)>)
    ensures
        distinct_keys(collect(pairs)),
    decreases pairs.len(),
{
    if pairs.len() > 0 {
        lemma_collect_keeps_distinct(pairs.drop_last());
        lemma_insert_keeps_distinct(collect(pairs.drop_last()), pairs.last().0, pairs.last().1);
    }
}

/// Among distinct keys, the number of entries stored under a key is one where
/// the key is present and zero where it is absent: it is never more than one.
pub proof fn lemma_count_key<K: View, V>(s: Seq<(K, V)>, k: K::V)
    requires
        distinct_keys(s),
    ensures
        count_key(s, k) == (if contains_key(s, k) {
            1nat
        } else {
            0nat
        }),
    decreases s.len(),
{
    reveal(Seq::filter);
    if s.len() > 0 {
        let init = s.drop_last();
        lemma_count_key(init, k);
        if s.last().0@ == k {
            if contains_key(init, k) {
                let i = index_of(init, k);
                assert(s[i].0@ != s[s.len() - 1].0@);
            }
        } else if contains_key(s, k) {
            let i = index_of(s, k);
            assert(init[i].0@ == k);
        }
        if contains_key(init, k) {
            let i = index_of(init, k);
            assert(s[i].0@ == k);
        }
    }
}

/// Among distinct keys there are as many entries as there are keys: the
/// length of a map is the number of its keys.
pub proof fn lemma_len_counts_keys<K: View, V>(s: Seq<(K, V)>)
    requires
        distinct_keys(s),
    ensures
        to_map(s).dom().finite(),
        to_map(s).dom().len() == s.len(),
    decreases s.len(),
{
    if s.len() == 0 {
        assert(to_map(s).dom() =~= Set::empty());
    } else {
        let init = s.drop_last();
        let k = s.last().0@;
        lemma_len_counts_keys(init);
        if contains_key(init, k) {
            let i = index_of(init, k);
            assert(s[i].0@ != s[s.len() - 1].0@);
        }
        assert forall|q: K::V| contains_key(s, q) <==> (q == k || contains_key(init, q)) by {
            if contains_key(s, q) && q != k {
                let i = index_of(s, q);
                assert(init[i].0@ == q);
            }
            if contains_key(init, q) {
                let i = index_of(init, q);
                assert(s[i].0@ == q);
            }
            if q == k {
                assert(s[s.len() - 1].0@ == q);
            }
        }
        assert(to_map(s).dom() =~= to_map(init).dom().insert(k));
    }
}

/// After `(k, v)` is inserted, `v` is the value found under `k`.
pub proof fn lemma_insert_then_get<K: View, V>(s: Seq<(K, V)>, k: K, v: V)
    ensures
        to_map(with_entry(s, k, v)).dom().contains(k@),
        to_map(with_entry(s, k, v))[k@] == v,
{
    let t = with_entry(s, k, v);
    if contains_key(s, k@) {
        let i = index_of(s, k@);
        assert(t[i].0@ == k@);
    } else {
        assert(t[s.len() as int].0@ == k@);
    }
}

/// Seen as a map from keys to values, insertion is the insertion of maps:
/// afterwards `k` is bound to `v`, and every other key is bound as before.
pub proof fn lemma_insert_as_map<K: View, V>(s: Seq<(K, V)>, k: K, v: V)
    requires
        distinct_keys(s),
    ensures
        to_map(with_entry(s, k, v)) == to_map(s).insert(k@, v),
{
    let t = with_entry(s, k, v);
    lemma_insert_then_get(s, k, v);
    assert forall|q: K::V| q != k@ implies (contains_key(t, q) <==> contains_key(s, q)) by {
        if contains_key(t, q) {
            let i = index_of(t, q);
            assert(s[i].0@ == q);
        }
        if contains_key(s, q) {
            let i = index_of(s, q);
            assert(t[i].0@ == q);
        }
    }
    assert forall|q: K::V| q != k@ && contains_key(s, q) implies #[trigger] to_map(t)[q] == to_map(
        s,
    )[q] by {
        let i = index_of(t, q);
        assert(s[i].0@ == q);
        lemma_index_of(s, i);
    }
    assert(to_map(t) =~= to_map(s).insert(k@, v));
}

/// Inserting a key that is already present changes neither the number of
/// entries, nor any stored key, nor the place of any entry: the entry under
/// that key takes the new value where it stands, and every other entry stays
/// as it is.
pub proof fn lemma_update_keeps_places<K: View, V>(s: Seq<(K, V)>, k: K, v: V)
    requires
        contains_key(s, k@),
    ensures
        with_entry(s, k, v).len() == s.len(),
        forall|i: int|
            0 <= i < s.len() ==> (#[trigger] with_entry(s, k, v)[i]).0 == s[i].0,
        forall|i: int|
            0 <= i < s.len() && s[i].0@ == k@ ==> (#[trigger] with_entry(s, k, v)[i]).1 == v,
        forall|i: int|
            0 <= i < s.len() && s[i].0@ != k@ ==> (#[trigger] with_entry(s, k, v)[i]) == s[i],
{
}

/// Inserting a key that is absent appends it: every entry that was there
/// keeps its place, and the new one comes last.
pub proof fn lemma_insert_new_appends<K: View, V>(s: Seq<(K, V)>, k: K, v: V)
    requires
        !contains_key(s, k@),
    ensures
        with_entry(s, k, v) == s.push((k, v)),
{
}

/// Inserting one pair more into the result of a run of insertions is the run
/// with that pair at its end.
pub proof fn lemma_collect_push<K: View, V>(pairs: Seq<(K, V)>, k: K, v: V)
    ensures
        collect(pairs.push((k, v))) == with_entry(collect(pairs), k, v),
{
    assert(pairs.push((k, v)).drop_last() =~= pairs);
}

/// Pairs with pairwise distinct keys, inserted one after the other into an
/// empty map, give exactly those pairs in the order of their insertion.
///
/// So a map is rebuilt, entry for entry, by inserting its own entries in
/// their order into an empty map.
pub proof fn lemma_collect_distinct<K: View, V>(pairs: Seq<(K, V)>)
    requires
        distinct_keys(pairs),
    ensures
        collect(pairs) == pairs,
    decreases pairs.len(),
{
    if pairs.len() > 0 {
        let init = pairs.drop_last();
        lemma_collect_distinct(init);
        if contains_key(init, pairs.last().0@) {
            let i = index_of(init, pairs.last().0@);
            assert(pairs[i].0@ != pairs[pairs.len() - 1].0@);
        }
        assert(init.push(pairs.last()) =~= pairs);
    }
}

/// The keys present after a run of insertions are the keys that were
/// inserted: a key that was never inserted is absent.
pub proof fn lemma_collect_keys<K: View, V>(pairs: Seq<(K, V)>, k: K::V)
    ensures
        to_map(collect(pairs)).dom().contains(k) <==> contains_key(pairs, k),
    decreases pairs.len(),
{
    if pairs.len() > 0 {
        let init = pairs.drop_last();
        let last = pairs.last();
        lemma_collect_keys(init, k);
        lemma_collect_keeps_distinct(init);
        lemma_insert_as_map(collect(init), last.0, last.1);
        if contains_key(init, k) {
            let i = index_of(init, k);
            assert(pairs[i].0@ == k);
        }
        if contains_key(pairs, k) {
            let i = index_of(pairs, k);
            if i < init.len() {
                assert(init[i].0@ == k);
            }
        }
    }
}

/// Of the pairs inserted under one key, the first one gives the place and the
/// stored key: the entries of the result stand in the order in which their
/// keys were first inserted.
///
/// The sequence returned names, for each entry of the result, the pair that
/// created it.
pub proof fn lemma_collect_first_place<K: View, V>(pairs: Seq<(K, V)>) -> (source: Seq<int>)
    ensures
        source.len() == collect(pairs).len(),
        forall|a: int| 0 <= a < source.len() ==> 0 <= #[trigger] source[a] < pairs.len(),
        forall|a: int|
            0 <= a < source.len() ==> is_first_with_key(
                pairs,
                (#[trigger] collect(pairs)[a]).0@,
                source[a],
            ) && collect(pairs)[a].0 == pairs[source[a]].0,
        forall|a: int, b: int| 0 <= a < b < source.len() ==> #[trigger] source[a] < #[trigger] source[b],
    decreases pairs.len(),
{
    if pairs.len() == 0 {
        Seq::empty()
    } else {
        let init = pairs.drop_last();
        let last = pairs.last();
        let before = lemma_collect_first_place(init);
        lemma_collect_keys(init, last.0@);
        assert forall|a: int| 0 <= a < before.len() implies is_first_with_key(
            pairs,
            (#[trigger] collect(init)[a]).0@,
            before[a],
        ) && collect(init)[a].0 == pairs[before[a]].0 by {
            let i = before[a];
            assert(is_first_with_key(init, collect(init)[a].0@, i));
            assert forall|j: int| 0 <= j < i implies (#[trigger] pairs[j]).0@ != collect(
                init,
            )[a].0@ by {
                assert(init[j].0@ != collect(init)[a].0@);
            }
        }
        if contains_key(collect(init), last.0@) {
            before
        } else {
            assert forall|j: int| 0 <= j < init.len() implies (#[trigger] pairs[j]).0@
                != last.0@ by {
                assert(init[j].0@ == pairs[j].0@);
            }
            before.push(pairs.len() - 1)
        }
    }
}

/// Of the pairs inserted under one key, the last one gives the value.
pub proof fn lemma_collect_last_value<K: View, V>(pairs: Seq<(K, V)>, i: int)
    requires
        0 <= i < pairs.len(),
        forall|j: int| i < j < pairs.len() ==> (#[trigger] pairs[j]).0@ != pairs[i].0@,
    ensures
        to_map(collect(pairs)).dom().contains(pairs[i].0@),
        to_map(collect(pairs))[pairs[i].0@] == pairs[i].1,
    decreases pairs.len(),
{
    let init = pairs.drop_last();
    let last = pairs.last();
    lemma_collect_keeps_distinct(init);
    lemma_insert_as_map(collect(init), last.0, last.1);
    if i < pairs.len() - 1 {
        assert(pairs[pairs.len() - 1].0@ != pairs[i].0@);
        assert forall|j: int| i < j < init.len() implies (#[trigger] init[j]).0@ != init[i].0@ by {
            assert(pairs[j].0@ != pairs[i].0@);
        }
        lemma_collect_last_value(init, i);
    }
}

} // verus!
