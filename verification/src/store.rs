use vstd::prelude::*;

verus! {

/// Pairwise-distinct keys, under the projection `key`.
pub open spec fn keys_distinct<T>(s: Seq<T>, key: spec_fn(T) -> Seq<char>) -> bool {
    forall|i: int, j: int| 0 <= i < j < s.len() ==> key(s[i]) != key(s[j])
}

/// The exact-key map a sequence of records denotes, under the projection
/// `key`; a later record shadows an earlier one with the same key.
pub open spec fn map_of<T>(s: Seq<T>, key: spec_fn(T) -> Seq<char>) -> Map<Seq<char>, T>
    decreases s.len(),
{
    if s.len() == 0 {
        Map::empty()
    } else {
        map_of(s.drop_last(), key).insert(key(s.last()), s.last())
    }
}

/// A key projected from no record is absent from the denoted map.
pub proof fn lemma_map_of_absent<T>(s: Seq<T>, key: spec_fn(T) -> Seq<char>, k: Seq<char>)
    requires
        forall|i: int| 0 <= i < s.len() ==> key(s[i]) != k,
    ensures
        !map_of(s, key).contains_key(k),
    decreases s.len(),
{
    if s.len() > 0 {
        assert(key(s[s.len() - 1]) != k);
        lemma_map_of_absent(s.drop_last(), key, k);
    }
}

/// The record whose key no later record shares is what the denoted map
/// holds at that key.
pub proof fn lemma_map_of_index<T>(s: Seq<T>, key: spec_fn(T) -> Seq<char>, i: int)
    requires
        0 <= i < s.len(),
        forall|j: int| i < j < s.len() ==> key(s[j]) != key(s[i]),
    ensures
        map_of(s, key).contains_key(key(s[i])),
        map_of(s, key)[key(s[i])] == s[i],
    decreases s.len(),
{
    if i == s.len() - 1 {
    } else {
        assert(key(s.last()) != key(s[i]));
        lemma_map_of_index(s.drop_last(), key, i);
    }
}

/// Taking a record out and putting one back at the same position is a
/// plain overwrite.
pub proof fn lemma_remove_insert<T>(s: Seq<T>, i: int, x: T)
    requires
        0 <= i < s.len(),
    ensures
        s.remove(i).insert(i, x) == s.update(i, x),
{
    s.remove_ensures(i);
    s.remove(i).insert_ensures(i, x);
    assert forall|k: int| 0 <= k < s.len() implies s.remove(i).insert(i, x)[k] == s.update(
        i,
        x,
    )[k] by {
        if k < i {
            assert(s.remove(i).insert(i, x)[k] == s.remove(i)[k]);
        } else if k > i {
            assert(s.remove(i).insert(i, x)[k] == s.remove(i)[k - 1]);
        }
    }
    assert(s.remove(i).insert(i, x) =~= s.update(i, x));
}

} // verus!
