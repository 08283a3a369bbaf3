//! Association lists with unique string keys, viewed as maps.
//!
//! Both registry levels hold their entries in a `Vec<(String, V)>` whose keys
//! are pairwise distinct, and state their contracts over the corresponding
//! `Map<Seq<char>, V>`. This module defines that correspondence and the lemmas
//! the registry operations need.

use vstd::prelude::*;

verus! {

/// The keys of the entries are pairwise distinct.
pub open spec fn keys_unique<V>(s: Seq<(String, V)>) -> bool {
    forall|i: int, j: int| 0 <= i < j < s.len() ==> s[i].0@ != s[j].0@
}

/// Some entry carries the key `k`.
pub open spec fn has_key<V>(s: Seq<(String, V)>, k: Seq<char>) -> bool {
    exists|i: int| 0 <= i < s.len() && s[i].0@ == k
}

/// The map an association list denotes.
pub open spec fn assoc_map<V>(s: Seq<(String, V)>) -> Map<Seq<char>, V>
    decreases s.len(),
{
    if s.len() == 0 {
        Map::empty()
    } else {
        assoc_map(s.drop_last()).insert(s.last().0@, s.last().1)
    }
}

/// The denoted map contains exactly the keys of the entries.
pub proof fn lemma_assoc_map_contains<V>(s: Seq<(String, V)>, k: Seq<char>)
    ensures
        assoc_map(s).contains_key(k) == has_key(s, k),
    decreases s.len(),
{
    if s.len() == 0 {
    } else {
        let t = s.drop_last();
        lemma_assoc_map_contains(t, k);
        if s.last().0@ == k {
            assert(s[s.len() - 1].0@ == k);
        } else {
            if has_key(t, k) {
                let i = choose|i: int| 0 <= i < t.len() && t[i].0@ == k;
                assert(s[i].0@ == k);
            }
            if has_key(s, k) {
                let i = choose|i: int| 0 <= i < s.len() && s[i].0@ == k;
                assert(t[i].0@ == k);
            }
        }
    }
}

/// With unique keys, the denoted map sends each entry's key to its value.
pub proof fn lemma_assoc_map_index<V>(s: Seq<(String, V)>, i: int)
    requires
        keys_unique(s),
        0 <= i < s.len(),
    ensures
        assoc_map(s).contains_key(s[i].0@),
        assoc_map(s)[s[i].0@] == s[i].1,
    decreases s.len(),
{
    if i == s.len() - 1 {
    } else {
        let t = s.drop_last();
        assert(t[i] == s[i]);
        lemma_assoc_map_index(t, i);
        assert(s[i].0@ != s.last().0@);
    }
}

/// With unique keys, the denoted map is finite and has one key per entry.
pub proof fn lemma_assoc_map_len<V>(s: Seq<(String, V)>)
    requires
        keys_unique(s),
    ensures
        assoc_map(s).dom().finite(),
        assoc_map(s).len() == s.len(),
    decreases s.len(),
{
    if s.len() == 0 {
        assert(assoc_map(s).dom() =~= Set::<Seq<char>>::empty());
    } else {
        let t = s.drop_last();
        lemma_assoc_map_len(t);
        lemma_assoc_map_contains(t, s.last().0@);
        assert(!has_key(t, s.last().0@)) by {
            if has_key(t, s.last().0@) {
                let i = choose|i: int| 0 <= i < t.len() && t[i].0@ == s.last().0@;
                assert(s[i].0@ == s[s.len() - 1].0@);
            }
        }
    }
}

/// Appending an entry with a fresh key denotes inserting it into the map.
pub proof fn lemma_assoc_map_push<V>(s: Seq<(String, V)>, name: String, v: V)
    requires
        keys_unique(s),
        !has_key(s, name@),
    ensures
        keys_unique(s.push((name, v))),
        assoc_map(s.push((name, v))) == assoc_map(s).insert(name@, v),
{
    let s2 = s.push((name, v));
    assert(s2.drop_last() =~= s);
    assert forall|i: int, j: int| 0 <= i < j < s2.len() implies s2[i].0@ != s2[j].0@ by {
        if j == s2.len() - 1 {
            assert(s[i].0@ != name@);
        }
    }
}

/// Replacing the value of the entry at `i`, keeping its key, denotes
/// inserting the new value at that key.
pub proof fn lemma_assoc_map_update<V>(s: Seq<(String, V)>, i: int, v: V)
    requires
        keys_unique(s),
        0 <= i < s.len(),
    ensures
        keys_unique(s.update(i, (s[i].0, v))),
        assoc_map(s.update(i, (s[i].0, v))) == assoc_map(s).insert(s[i].0@, v),
    decreases s.len(),
{
    let s2 = s.update(i, (s[i].0, v));
    assert(keys_unique(s2));
    if i == s.len() - 1 {
        assert(s2.drop_last() =~= s.drop_last());
        assert(s2.last() == (s[i].0, v));
        assert(assoc_map(s2) =~= assoc_map(s).insert(s[i].0@, v));
    } else {
        let t = s.drop_last();
        lemma_assoc_map_update(t, i, v);
        assert(s2.drop_last() =~= t.update(i, (s[i].0, v)));
        assert(t[i] == s[i]);
        assert(s2.last() == s.last());
        assert(s[i].0@ != s.last().0@);
        assert(assoc_map(s2) =~= assoc_map(s).insert(s[i].0@, v));
    }
}

} // verus!
