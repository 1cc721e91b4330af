use vstd::prelude::*;

verus! {

/// The keys of a list of entries, in list order.
pub open spec fn key_seq<T>(s: Seq<T>, key: spec_fn(T) -> Seq<char>) -> Seq<Seq<char>> {
    s.map_values(key)
}

/// No key occurs twice in the list.
pub open spec fn keys_unique<T>(s: Seq<T>, key: spec_fn(T) -> Seq<char>) -> bool {
    forall|i: int, j: int|
        0 <= i < s.len() && 0 <= j < s.len() && #[trigger] key(s[i]) == #[trigger] key(s[j]) ==> i == j
}

/// Whether some entry of the list has key `k`.
pub open spec fn has_key<T>(s: Seq<T>, key: spec_fn(T) -> Seq<char>, k: Seq<char>) -> bool {
    exists|i: int| 0 <= i < s.len() && #[trigger] key(s[i]) == k
}

/// The map from key to value that a list of entries stands for.
pub open spec fn keyed_map<T, V>(s: Seq<T>, key: spec_fn(T) -> Seq<char>, val: spec_fn(T) -> V) -> Map<Seq<char>, V> {
    Map::new(
        |k: Seq<char>| has_key(s, key, k),
        |k: Seq<char>| val(s[choose|i: int| 0 <= i < s.len() && #[trigger] key(s[i]) == k]),
    )
}

/// The entry at `i` is what the map holds for its key.
pub proof fn lemma_lookup<T, V>(s: Seq<T>, i: int, key: spec_fn(T) -> Seq<char>, val: spec_fn(T) -> V)
    requires
        keys_unique(s, key),
        0 <= i < s.len(),
    ensures
        keyed_map(s, key, val).contains_key(key(s[i])),
        keyed_map(s, key, val)[key(s[i])] == val(s[i]),
{
    let k = key(s[i]);
    assert(has_key(s, key, k));
    let j = choose|j: int| 0 <= j < s.len() && #[trigger] key(s[j]) == k;
    assert(key(s[j]) == key(s[i]));
}

/// The map's keys are the list's keys, one per entry.
pub proof fn lemma_dom<T, V>(s: Seq<T>, key: spec_fn(T) -> Seq<char>, val: spec_fn(T) -> V)
    requires
        keys_unique(s, key),
    ensures
        keyed_map(s, key, val).dom() == key_seq(s, key).to_set(),
        keyed_map(s, key, val).dom().finite(),
        keyed_map(s, key, val).dom().len() == s.len(),
        key_seq(s, key).no_duplicates(),
{
    let ks = key_seq(s, key);
    assert(ks.no_duplicates()) by {
        assert forall|i: int, j: int| 0 <= i < ks.len() && 0 <= j < ks.len() && i != j implies ks[i]
            != ks[j] by {
            assert(ks[i] == key(s[i]));
            assert(ks[j] == key(s[j]));
        }
    }
    assert forall|k: Seq<char>| keyed_map(s, key, val).dom().contains(k) <==> ks.to_set().contains(k) by {
        if has_key(s, key, k) {
            let i = choose|i: int| 0 <= i < s.len() && #[trigger] key(s[i]) == k;
            assert(ks[i] == k);
        }
        if ks.to_set().contains(k) {
            let i = choose|i: int| 0 <= i < ks.len() && ks[i] == k;
            assert(key(s[i]) == k);
        }
    }
    assert(keyed_map(s, key, val).dom() =~= ks.to_set());
    ks.unique_seq_to_set();
}

/// Two lists whose entries agree in key and value stand for the same map.
pub proof fn lemma_same_views<T, V>(s0: Seq<T>, s1: Seq<T>, key: spec_fn(T) -> Seq<char>, val: spec_fn(T) -> V)
    requires
        keys_unique(s0, key),
        keys_unique(s1, key),
        s0.len() == s1.len(),
        forall|j: int| 0 <= j < s0.len() ==> #[trigger] key(s1[j]) == key(s0[j]) && val(s1[j]) == val(s0[j]),
    ensures
        keyed_map(s1, key, val) == keyed_map(s0, key, val),
{
    assert forall|k: Seq<char>| has_key(s1, key, k) <==> has_key(s0, key, k) by {
        if has_key(s1, key, k) {
            let i = choose|i: int| 0 <= i < s1.len() && #[trigger] key(s1[i]) == k;
            assert(key(s0[i]) == k);
        }
        if has_key(s0, key, k) {
            let i = choose|i: int| 0 <= i < s0.len() && #[trigger] key(s0[i]) == k;
            assert(key(s1[i]) == k);
        }
    }
    assert forall|k: Seq<char>| has_key(s0, key, k) implies keyed_map(s1, key, val)[k] == keyed_map(s0, key, val)[k] by {
        let i = choose|i: int| 0 <= i < s0.len() && #[trigger] key(s0[i]) == k;
        lemma_lookup(s0, i, key, val);
        lemma_lookup(s1, i, key, val);
    }
    assert(keyed_map(s1, key, val) =~= keyed_map(s0, key, val));
}

/// Appending an entry with a new key adds that binding.
pub proof fn lemma_push<T, V>(s0: Seq<T>, s1: Seq<T>, key: spec_fn(T) -> Seq<char>, val: spec_fn(T) -> V)
    requires
        keys_unique(s0, key),
        s1.len() == s0.len() + 1,
        s1.drop_last() == s0,
        !keyed_map(s0, key, val).contains_key(key(s1.last())),
    ensures
        keys_unique(s1, key),
        keyed_map(s1, key, val) == keyed_map(s0, key, val).insert(key(s1.last()), val(s1.last())),
{
    let n = s0.len() as int;
    assert forall|i: int| 0 <= i < n implies #[trigger] s1[i] == s0[i] by {
        assert(s1.drop_last()[i] == s1[i]);
    }
    assert(keys_unique(s1, key)) by {
        assert forall|a: int, b: int|
            0 <= a < s1.len() && 0 <= b < s1.len() && #[trigger] key(s1[a]) == #[trigger] key(s1[b]) implies a == b by {
            if a < n && b == n {
                assert(has_key(s0, key, key(s0[a])));
            }
            if b < n && a == n {
                assert(has_key(s0, key, key(s0[b])));
            }
        }
    }
    let m = keyed_map(s0, key, val).insert(key(s1.last()), val(s1.last()));
    assert forall|k: Seq<char>| has_key(s1, key, k) <==> m.contains_key(k) by {
        if has_key(s1, key, k) {
            let i = choose|i: int| 0 <= i < s1.len() && #[trigger] key(s1[i]) == k;
            if i < n {
                assert(key(s0[i]) == k);
            }
        }
        if has_key(s0, key, k) {
            let i = choose|i: int| 0 <= i < s0.len() && #[trigger] key(s0[i]) == k;
            assert(key(s1[i]) == k);
        }
        if k == key(s1.last()) {
            assert(key(s1[n]) == k);
        }
    }
    assert forall|k: Seq<char>| has_key(s1, key, k) implies keyed_map(s1, key, val)[k] == m[k] by {
        let i = choose|i: int| 0 <= i < s1.len() && #[trigger] key(s1[i]) == k;
        lemma_lookup(s1, i, key, val);
        if i < n {
            lemma_lookup(s0, i, key, val);
        }
    }
    assert(keyed_map(s1, key, val) =~= m);
}

/// Replacing the entry at `i` by one with the same key rebinds that key.
pub proof fn lemma_update_value<T, V>(s0: Seq<T>, s1: Seq<T>, i: int, key: spec_fn(T) -> Seq<char>, val: spec_fn(T) -> V)
    requires
        keys_unique(s0, key),
        keys_unique(s1, key),
        0 <= i < s0.len(),
        s1.len() == s0.len(),
        key(s1[i]) == key(s0[i]),
        forall|j: int| 0 <= j < s1.len() && j != i ==> s1[j] == s0[j],
    ensures
        keyed_map(s1, key, val) == keyed_map(s0, key, val).insert(key(s1[i]), val(s1[i])),
{
    let m = keyed_map(s0, key, val).insert(key(s1[i]), val(s1[i]));
    lemma_lookup(s0, i, key, val);
    assert forall|k: Seq<char>| has_key(s1, key, k) <==> m.contains_key(k) by {
        if has_key(s1, key, k) {
            let j = choose|j: int| 0 <= j < s1.len() && #[trigger] key(s1[j]) == k;
            assert(key(s0[j]) == k);
        }
        if has_key(s0, key, k) {
            let j = choose|j: int| 0 <= j < s0.len() && #[trigger] key(s0[j]) == k;
            assert(key(s1[j]) == k);
        }
    }
    assert forall|k: Seq<char>| has_key(s1, key, k) implies keyed_map(s1, key, val)[k] == m[k] by {
        let j = choose|j: int| 0 <= j < s1.len() && #[trigger] key(s1[j]) == k;
        lemma_lookup(s1, j, key, val);
        if j != i {
            lemma_lookup(s0, j, key, val);
        }
    }
    assert(keyed_map(s1, key, val) =~= m);
}

/// Deleting the entry at `i` unbinds its key.
pub proof fn lemma_remove<T, V>(s0: Seq<T>, s1: Seq<T>, i: int, key: spec_fn(T) -> Seq<char>, val: spec_fn(T) -> V)
    requires
        keys_unique(s0, key),
        0 <= i < s0.len(),
        s1 == s0.remove(i),
    ensures
        keys_unique(s1, key),
        keyed_map(s1, key, val) == keyed_map(s0, key, val).remove(key(s0[i])),
{
    let n = s1.len() as int;
    assert forall|j: int| 0 <= j < n implies #[trigger] s1[j] == s0[if j < i { j } else { j + 1 }] by {}
    assert(keys_unique(s1, key)) by {
        assert forall|a: int, b: int|
            0 <= a < s1.len() && 0 <= b < s1.len() && #[trigger] key(s1[a]) == #[trigger] key(s1[b]) implies a == b by {
            let a0 = if a < i { a } else { a + 1 };
            let b0 = if b < i { b } else { b + 1 };
            assert(s1[a] == s0[a0]);
            assert(s1[b] == s0[b0]);
        }
    }
    let m = keyed_map(s0, key, val).remove(key(s0[i]));
    assert forall|k: Seq<char>| has_key(s1, key, k) <==> m.contains_key(k) by {
        if has_key(s1, key, k) {
            let j = choose|j: int| 0 <= j < s1.len() && #[trigger] key(s1[j]) == k;
            let j0 = if j < i { j } else { j + 1 };
            assert(s1[j] == s0[j0]);
            assert(key(s0[j0]) == k);
        }
        if m.contains_key(k) {
            let j0 = choose|j: int| 0 <= j < s0.len() && #[trigger] key(s0[j]) == k;
            assert(j0 != i);
            let j = if j0 < i { j0 } else { j0 - 1 };
            assert(s1[j] == s0[j0]);
            assert(key(s1[j]) == k);
        }
    }
    assert forall|k: Seq<char>| has_key(s1, key, k) implies keyed_map(s1, key, val)[k] == m[k] by {
        let j = choose|j: int| 0 <= j < s1.len() && #[trigger] key(s1[j]) == k;
        let j0 = if j < i { j } else { j + 1 };
        assert(s1[j] == s0[j0]);
        lemma_lookup(s1, j, key, val);
        lemma_lookup(s0, j0, key, val);
    }
    assert(keyed_map(s1, key, val) =~= m);
}

} // verus!
