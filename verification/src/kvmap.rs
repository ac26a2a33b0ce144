use vstd::prelude::*;

verus! {

/// The map described by an association list, later entries winning. The
/// stores built on this keep keys unique, so the order never shows through.
pub open spec fn map_of<K, V>(s: Seq<(K, V)>) -> Map<K, V>
    decreases s.len(),
{
    if s.len() == 0 {
        Map::empty()
    } else {
        map_of(s.drop_last()).insert(s.last().0, s.last().1)
    }
}

/// Whether the entries of `s` carry pairwise distinct keys.
pub open spec fn unique_keys<K, V>(s: Seq<(K, V)>) -> bool {
    forall|i: int, j: int| 0 <= i < j < s.len() ==> s[i].0 != s[j].0
}

/// A key is in the map exactly when some entry carries it.
pub proof fn lemma_map_of_contains<K, V>(s: Seq<(K, V)>, k: K)
    ensures
        map_of(s).contains_key(k) <==> exists|i: int| 0 <= i < s.len() && s[i].0 == k,
    decreases s.len(),
{
    if s.len() == 0 {
    } else {
        lemma_map_of_contains(s.drop_last(), k);
        if s.last().0 == k {
            assert(s[s.len() - 1].0 == k);
        } else {
            if exists|i: int| 0 <= i < s.len() && s[i].0 == k {
                let i = choose|i: int| 0 <= i < s.len() && s[i].0 == k;
                assert(s.drop_last()[i].0 == k);
            }
            if exists|i: int| 0 <= i < s.drop_last().len() && s.drop_last()[i].0 == k {
                let i = choose|i: int| 0 <= i < s.drop_last().len() && s.drop_last()[i].0 == k;
                assert(s[i].0 == k);
            }
        }
    }
}

/// Under unique keys, the map's value at an entry's key is that entry's value.
pub proof fn lemma_map_of_index<K, V>(s: Seq<(K, V)>, i: int)
    requires
        unique_keys(s),
        0 <= i < s.len(),
    ensures
        map_of(s).contains_key(s[i].0),
        map_of(s)[s[i].0] == s[i].1,
    decreases s.len(),
{
    if i == s.len() - 1 {
    } else {
        assert(unique_keys(s.drop_last())) by {
            assert(forall|a: int, b: int|
                0 <= a < b < s.drop_last().len() ==> s.drop_last()[a] == s[a]
                    && s.drop_last()[b] == s[b]);
        }
        lemma_map_of_index(s.drop_last(), i);
        assert(s[i].0 != s.last().0);
    }
}

/// Appending an entry inserts its key into the map.
pub proof fn lemma_map_of_push<K, V>(s: Seq<(K, V)>, k: K, v: V)
    ensures
        map_of(s.push((k, v))) == map_of(s).insert(k, v),
{
    assert(s.push((k, v)).drop_last() =~= s);
    assert(s.push((k, v)).last() == (k, v));
}

/// Removing the entry at `i` removes exactly its key from the map.
pub proof fn lemma_map_of_remove<K, V>(s: Seq<(K, V)>, i: int)
    requires
        unique_keys(s),
        0 <= i < s.len(),
    ensures
        map_of(s.remove(i)) == map_of(s).remove(s[i].0),
    decreases s.len(),
{
    if i == s.len() - 1 {
        assert(s.remove(i) =~= s.drop_last());
        lemma_map_of_contains(s.drop_last(), s[i].0);
        assert(forall|a: int|
            0 <= a < s.drop_last().len() ==> #[trigger] s.drop_last()[a] == s[a]);
        assert(!map_of(s.drop_last()).contains_key(s[i].0));
        assert(map_of(s.drop_last()).insert(s.last().0, s.last().1).remove(s[i].0)
            =~= map_of(s.drop_last()));
    } else {
        assert(unique_keys(s.drop_last())) by {
            assert(forall|a: int, b: int|
                0 <= a < b < s.drop_last().len() ==> s.drop_last()[a] == s[a]
                    && s.drop_last()[b] == s[b]);
        }
        lemma_map_of_remove(s.drop_last(), i);
        assert(s.remove(i) =~= s.drop_last().remove(i).push(s.last()));
        lemma_map_of_push(s.drop_last().remove(i), s.last().0, s.last().1);
        assert(s[i].0 != s.last().0);
        assert(map_of(s.drop_last()).remove(s[i].0).insert(s.last().0, s.last().1)
            =~= map_of(s.drop_last()).insert(s.last().0, s.last().1).remove(s[i].0));
        assert(s.drop_last()[i] == s[i]);
    }
}

/// Two entry lists of equal length whose entries correspond pointwise --
/// same key, value rewritten by `f` -- describe maps with the same domain
/// whose values are rewritten by `f`.
pub proof fn lemma_map_of_pointwise<K, V>(s1: Seq<(K, V)>, s2: Seq<(K, V)>, f: spec_fn(K, V) -> V)
    requires
        unique_keys(s1),
        s1.len() == s2.len(),
        forall|j: int| 0 <= j < s1.len()
            ==> (#[trigger] s2[j]).0 == s1[j].0 && s2[j].1 == f(s1[j].0, s1[j].1),
    ensures
        map_of(s2).dom() == map_of(s1).dom(),
        forall|k: K| #[trigger] map_of(s1).contains_key(k)
            ==> map_of(s2)[k] == f(k, map_of(s1)[k]),
        unique_keys(s2),
{
    assert(unique_keys(s2)) by {
        assert forall|a: int, b: int| 0 <= a < b < s2.len()
            implies s2[a].0 != s2[b].0 by {
            assert(s2[a].0 == s1[a].0);
            assert(s2[b].0 == s1[b].0);
        }
    }
    assert forall|k: K|
        map_of(s1).contains_key(k) <==> map_of(s2).contains_key(k) by {
        lemma_map_of_contains(s1, k);
        lemma_map_of_contains(s2, k);
        if exists|i: int| 0 <= i < s1.len() && s1[i].0 == k {
            let i = choose|i: int| 0 <= i < s1.len() && s1[i].0 == k;
            assert(s2[i].0 == k);
        }
        if exists|i: int| 0 <= i < s2.len() && s2[i].0 == k {
            let i = choose|i: int| 0 <= i < s2.len() && s2[i].0 == k;
            assert(s1[i].0 == k);
        }
    }
    assert(map_of(s2).dom() =~= map_of(s1).dom());
    assert forall|k: K| map_of(s1).contains_key(k)
        implies map_of(s2)[k] == f(k, map_of(s1)[k]) by {
        lemma_map_of_contains(s1, k);
        let i = choose|i: int| 0 <= i < s1.len() && s1[i].0 == k;
        lemma_map_of_index(s1, i);
        lemma_map_of_index(s2, i);
    }
}

/// Unique keys survive removing an entry.
pub proof fn lemma_unique_keys_remove<K, V>(s: Seq<(K, V)>, i: int)
    requires
        unique_keys(s),
        0 <= i < s.len(),
    ensures
        unique_keys(s.remove(i)),
{
    assert forall|a: int, b: int| 0 <= a < b < s.remove(i).len()
        implies s.remove(i)[a].0 != s.remove(i)[b].0 by {
        let a0 = if a < i { a } else { a + 1 };
        let b0 = if b < i { b } else { b + 1 };
        assert(s.remove(i)[a] == s[a0]);
        assert(s.remove(i)[b] == s[b0]);
    }
}

} // verus!
