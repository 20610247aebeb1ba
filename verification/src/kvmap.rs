//! A key-value view of association sequences.
//!
//! The ledger stores each arena as a sequence of key-value pairs with
//! pairwise-distinct keys; its model is the finite map those pairs denote.
//! The lemmas here relate the sequence operations the executable code
//! performs to `insert` and `remove` on that map.

use vstd::prelude::*;

verus! {

/// The map an association sequence denotes. Later entries would win, but the
/// ledger keeps keys pairwise distinct, so every entry is the binding.
pub open spec fn kv_map<K, V>(s: Seq<(K, V)>) -> Map<K, V>
    decreases s.len(),
{
    if s.len() == 0 {
        Map::empty()
    } else {
        kv_map(s.drop_last()).insert(s.last().0, s.last().1)
    }
}

/// The keys of the association sequence are pairwise distinct.
pub open spec fn keys_distinct<K, V>(s: Seq<(K, V)>) -> bool {
    forall|i: int, j: int| 0 <= i < j < s.len() ==> s[i].0 != s[j].0
}

/// A key is bound in the map exactly when some entry carries it.
pub proof fn lemma_kv_contains<K, V>(s: Seq<(K, V)>, k: K)
    ensures
        kv_map(s).contains_key(k) <==> exists|i: int| 0 <= i < s.len() && s[i].0 == k,
    decreases s.len(),
{
    if s.len() == 0 {
    } else {
        lemma_kv_contains(s.drop_last(), k);
        if s.last().0 == k {
            assert(s[s.len() - 1].0 == k);
        } else {
            if exists|i: int| 0 <= i < s.len() && s[i].0 == k {
                let i = choose|i: int| 0 <= i < s.len() && s[i].0 == k;
                assert(s.drop_last()[i].0 == k);
            }
            if exists|i: int| 0 <= i < s.drop_last().len() && s.drop_last()[i].0 == k {
                let i = choose|i: int| 0 <= i < s.drop_last().len() && s.drop_last()[i].0 == k;
                assert(s[i].0 == k);
            }
        }
    }
}

/// With distinct keys, the entry at any position is the map's binding for its
/// key.
pub proof fn lemma_kv_value<K, V>(s: Seq<(K, V)>, i: int)
    requires
        keys_distinct(s),
        0 <= i < s.len(),
    ensures
        kv_map(s).contains_key(s[i].0),
        kv_map(s)[s[i].0] == s[i].1,
    decreases s.len(),
{
    if i == s.len() - 1 {
    } else {
        assert(keys_distinct(s.drop_last())) by {
            assert(forall|x: int, y: int|
                0 <= x < y < s.drop_last().len() ==> s.drop_last()[x].0 == s[x].0
                    && s.drop_last()[y].0 == s[y].0);
        }
        lemma_kv_value(s.drop_last(), i);
        assert(s.last().0 != s[i].0);
        assert(s.drop_last()[i] == s[i]);
    }
}

/// Replacing the entry at position `i` by one with the same key turns the map
/// into an `insert` at that key.
pub proof fn lemma_kv_update<K, V>(s: Seq<(K, V)>, i: int, p: (K, V))
    requires
        keys_distinct(s),
        0 <= i < s.len(),
        p.0 == s[i].0,
    ensures
        kv_map(s.update(i, p)) == kv_map(s).insert(p.0, p.1),
    decreases s.len(),
{
    let t = s.update(i, p);
    if i == s.len() - 1 {
        assert(t.drop_last() =~= s.drop_last());
        assert(t.last() == p);
        assert(kv_map(t) == kv_map(s.drop_last()).insert(p.0, p.1));
        assert(kv_map(s.drop_last()).insert(s.last().0, s.last().1).insert(p.0, p.1)
            =~= kv_map(s.drop_last()).insert(p.0, p.1));
    } else {
        assert(keys_distinct(s.drop_last())) by {
            assert(forall|x: int, y: int|
                0 <= x < y < s.drop_last().len() ==> s.drop_last()[x].0 == s[x].0
                    && s.drop_last()[y].0 == s[y].0);
        }
        assert(t.drop_last() =~= s.drop_last().update(i, p));
        assert(t.last() == s.last());
        lemma_kv_update(s.drop_last(), i, p);
        assert(s.drop_last()[i] == s[i]);
        assert(s.last().0 != p.0);
        assert(kv_map(s.drop_last()).insert(p.0, p.1).insert(s.last().0, s.last().1)
            =~= kv_map(s.drop_last()).insert(s.last().0, s.last().1).insert(p.0, p.1));
    }
}

/// Appending an entry turns the map into an `insert` of its binding.
pub proof fn lemma_kv_push<K, V>(s: Seq<(K, V)>, p: (K, V))
    ensures
        kv_map(s.push(p)) == kv_map(s).insert(p.0, p.1),
{
    assert(s.push(p).drop_last() =~= s);
    assert(s.push(p).last() == p);
}

/// With distinct keys, removing the entry at position `i` turns the map into
/// a `remove` of its key.
pub proof fn lemma_kv_remove<K, V>(s: Seq<(K, V)>, i: int)
    requires
        keys_distinct(s),
        0 <= i < s.len(),
    ensures
        kv_map(s.remove(i)) == kv_map(s).remove(s[i].0),
    decreases s.len(),
{
    let k = s[i].0;
    assert(keys_distinct(s.drop_last())) by {
        assert(forall|x: int, y: int|
            0 <= x < y < s.drop_last().len() ==> s.drop_last()[x].0 == s[x].0
                && s.drop_last()[y].0 == s[y].0);
    }
    if i == s.len() - 1 {
        assert(s.remove(i) =~= s.drop_last());
        lemma_kv_contains(s.drop_last(), k);
        assert(forall|j: int| 0 <= j < s.drop_last().len() ==> s.drop_last()[j] == s[j]);
        assert(!kv_map(s.drop_last()).contains_key(k));
        assert(kv_map(s.drop_last()).insert(k, s[i].1).remove(k) =~= kv_map(s.drop_last()));
    } else {
        let t = s.remove(i);
        assert(t.drop_last() =~= s.drop_last().remove(i));
        assert(t.last() == s.last());
        lemma_kv_remove(s.drop_last(), i);
        assert(s.drop_last()[i] == s[i]);
        assert(s.last().0 != k);
        assert(kv_map(s.drop_last()).remove(k).insert(s.last().0, s.last().1)
            =~= kv_map(s.drop_last()).insert(s.last().0, s.last().1).remove(k));
    }
}

} // verus!
