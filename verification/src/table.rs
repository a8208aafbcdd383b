//! A mathematical view of keyed records stored in order: a sequence of
//! key/value pairs with pairwise-distinct keys, abstracted as a `Map`.
//! The marketplace keeps its listing, auction and deposit records in
//! vectors; these definitions and lemmas connect those vectors to the
//! maps that the contracts speak of.

use vstd::prelude::*;

verus! {

/// The map that a sequence of key/value pairs denotes. A later pair wins
/// over an earlier one with the same key, though the marketplace only ever
/// builds sequences whose keys are pairwise distinct.
pub open spec fn kv_map<K, V>(s: Seq<(K, V)>) -> Map<K, V>
    decreases s.len(),
{
    if s.len() == 0 {
        Map::empty()
    } else {
        kv_map(s.drop_last()).insert(s.last().0, s.last().1)
    }
}

/// All keys of the sequence are pairwise distinct.
pub open spec fn kv_unique<K, V>(s: Seq<(K, V)>) -> bool {
    forall|i: int, j: int| 0 <= i < j < s.len() ==> s[i].0 != s[j].0
}

/// Every key in the map comes from some pair of the sequence, and every
/// pair's key is in the map.
pub proof fn lemma_kv_map_dom<K, V>(s: Seq<(K, V)>)
    ensures
        forall|k: K|
            #[trigger] kv_map(s).contains_key(k) <==> exists|i: int|
                0 <= i < s.len() && s[i].0 == k,
    decreases s.len(),
{
    if s.len() > 0 {
        lemma_kv_map_dom(s.drop_last());
        assert forall|k: K| #[trigger] kv_map(s).contains_key(k) implies exists|i: int|
            0 <= i < s.len() && s[i].0 == k by {
            if k == s.last().0 {
                assert(s[s.len() - 1].0 == k);
            } else {
                assert(kv_map(s.drop_last()).contains_key(k));
                let i = choose|i: int| 0 <= i < s.drop_last().len() && s.drop_last()[i].0 == k;
                assert(s.drop_last()[i] == s[i]);
                assert(s[i].0 == k);
            }
        }
        assert forall|k: K| (exists|i: int| 0 <= i < s.len() && s[i].0 == k) implies #[trigger] kv_map(
            s,
        ).contains_key(k) by {
            let i = choose|i: int| 0 <= i < s.len() && s[i].0 == k;
            if i < s.len() - 1 {
                assert(s.drop_last()[i].0 == k);
                assert(exists|j: int|
                    0 <= j < s.drop_last().len() && s.drop_last()[j].0 == k);
                assert(kv_map(s.drop_last()).contains_key(k));
            } else {
                assert(s.last().0 == k);
            }
        }
    }
}

/// With distinct keys, the pair at position `i` is exactly what the map
/// holds at its key.
pub proof fn lemma_kv_map_index<K, V>(s: Seq<(K, V)>, i: int)
    requires
        kv_unique(s),
        0 <= i < s.len(),
    ensures
        kv_map(s).contains_key(s[i].0),
        kv_map(s)[s[i].0] == s[i].1,
    decreases s.len(),
{
    if i == s.len() - 1 {
    } else {
        lemma_kv_map_index(s.drop_last(), i);
        assert(s.drop_last()[i] == s[i]);
    }
}

/// Appending a pair inserts its key into the map.
pub proof fn lemma_kv_map_push<K, V>(s: Seq<(K, V)>, k: K, v: V)
    ensures
        kv_map(s.push((k, v))) == kv_map(s).insert(k, v),
{
    assert(s.push((k, v)).drop_last() =~= s);
    assert(s.push((k, v)).last() == (k, v));
}

/// Removing the pair at position `i` removes exactly its key from the map.
pub proof fn lemma_kv_map_remove<K, V>(s: Seq<(K, V)>, i: int)
    requires
        kv_unique(s),
        0 <= i < s.len(),
    ensures
        kv_map(s.remove(i)) == kv_map(s).remove(s[i].0),
        kv_unique(s.remove(i)),
    decreases s.len(),
{
    let k = s[i].0;
    assert forall|a: int, b: int| 0 <= a < b < s.remove(i).len() implies s.remove(i)[a].0 != s.remove(
        i,
    )[b].0 by {
        if a < i {
            if b < i {
                assert(s.remove(i)[a] == s[a] && s.remove(i)[b] == s[b]);
            } else {
                assert(s.remove(i)[a] == s[a] && s.remove(i)[b] == s[b + 1]);
            }
        } else {
            assert(s.remove(i)[a] == s[a + 1] && s.remove(i)[b] == s[b + 1]);
        }
    }
    if i == s.len() - 1 {
        assert(s.remove(i) =~= s.drop_last());
        lemma_kv_map_dom(s.drop_last());
        assert forall|j: int| 0 <= j < s.drop_last().len() implies s.drop_last()[j].0 != k by {
            assert(s[j].0 != s[s.len() - 1].0);
        }
        assert(!kv_map(s.drop_last()).contains_key(k));
        assert(kv_map(s.drop_last()) =~= kv_map(s.drop_last()).insert(k, s[i].1).remove(k));
    } else {
        lemma_kv_map_remove(s.drop_last(), i);
        assert(s.remove(i).drop_last() =~= s.drop_last().remove(i));
        assert(s.remove(i).last() == s.last());
        assert(kv_map(s.remove(i)) == kv_map(s.drop_last().remove(i)).insert(
            s.last().0,
            s.last().1,
        ));
        assert(s[i].0 != s[s.len() - 1].0);
        assert(kv_map(s.drop_last()).remove(k).insert(s.last().0, s.last().1) =~= kv_map(
            s.drop_last(),
        ).insert(s.last().0, s.last().1).remove(k));
    }
}

/// A sequence whose map lacks a key holds no pair with that key, so the
/// appended sequence keeps its keys distinct.
pub proof fn lemma_kv_unique_push<K, V>(s: Seq<(K, V)>, k: K, v: V)
    requires
        kv_unique(s),
        !kv_map(s).contains_key(k),
    ensures
        kv_unique(s.push((k, v))),
{
    lemma_kv_map_dom(s);
    assert forall|a: int, b: int| 0 <= a < b < s.push((k, v)).len() implies s.push(
        (k, v),
    )[a].0 != s.push((k, v))[b].0 by {
        if b < s.len() {
            assert(s.push((k, v))[a] == s[a] && s.push((k, v))[b] == s[b]);
        } else {
            assert(s.push((k, v))[a] == s[a] && s.push((k, v))[b] == (k, v));
            assert(s[a].0 != k);
        }
    }
}

} // verus!
