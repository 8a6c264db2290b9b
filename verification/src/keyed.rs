//! A verified association list keyed by (worker id, operator id) pairs.
//!
//! Both pipeline stages own per-key mutable state partitioned this way; the
//! list carries one entry per key and is viewed in contracts as a `Map`.

use vstd::prelude::*;

verus! {

/// The map a key-value sequence stands for; a later entry wins on a repeated
/// key, though well-formed state never holds one.
pub open spec fn assoc_map<V>(s: Seq<((usize, usize), V)>) -> Map<(usize, usize), V>
    decreases s.len(),
{
    if s.len() == 0 {
        Map::empty()
    } else {
        assoc_map(s.drop_last()).insert(s.last().0, s.last().1)
    }
}

/// No two entries share a key.
pub open spec fn unique_keys<V>(s: Seq<((usize, usize), V)>) -> bool {
    forall|i: int, j: int|
        0 <= i < j < s.len() ==> (#[trigger] s[i]).0 != (#[trigger] s[j]).0
}

/// An entry's key and value are found in the map.
pub proof fn lemma_assoc_contains<V>(s: Seq<((usize, usize), V)>, i: int)
    requires
        0 <= i < s.len(),
        unique_keys(s),
    ensures
        assoc_map(s).contains_key(s[i].0),
        assoc_map(s)[s[i].0] == s[i].1,
    decreases s.len(),
{
    if i < s.len() - 1 {
        assert(unique_keys(s.drop_last()));
        lemma_assoc_contains(s.drop_last(), i);
        assert(s[i].0 != s.last().0);
    }
}

/// A key no entry carries is not in the map.
pub proof fn lemma_assoc_absent<V>(s: Seq<((usize, usize), V)>, k: (usize, usize))
    requires
        forall|i: int| 0 <= i < s.len() ==> (#[trigger] s[i]).0 != k,
    ensures
        !assoc_map(s).contains_key(k),
    decreases s.len(),
{
    if s.len() > 0 {
        lemma_assoc_absent(s.drop_last(), k);
    }
}

/// Appending an entry inserts its key into the map.
pub proof fn lemma_assoc_push<V>(s: Seq<((usize, usize), V)>, k: (usize, usize), v: V)
    ensures
        assoc_map(s.push((k, v))) == assoc_map(s).insert(k, v),
{
    assert(s.push((k, v)).drop_last() == s);
}

/// Removing the entry at `i` removes its key from the map and keeps the
/// remaining keys unique.
pub proof fn lemma_assoc_remove<V>(s: Seq<((usize, usize), V)>, i: int)
    requires
        0 <= i < s.len(),
        unique_keys(s),
    ensures
        assoc_map(s.remove(i)) == assoc_map(s).remove(s[i].0),
        unique_keys(s.remove(i)),
    decreases s.len(),
{
    assert forall|a: int, b: int| 0 <= a < b < s.remove(i).len() implies (#[trigger] s.remove(
        i,
    )[a]).0 != (#[trigger] s.remove(i)[b]).0 by {
        let a0 = if a < i { a } else { a + 1 };
        let b0 = if b < i { b } else { b + 1 };
        assert(s.remove(i)[a] == s[a0]);
        assert(s.remove(i)[b] == s[b0]);
    }
    if i == s.len() - 1 {
        assert(s.remove(i) == s.drop_last());
        assert(forall|j: int| 0 <= j < s.drop_last().len() ==> (#[trigger] s.drop_last()[j]).0
            != s[i].0);
        lemma_assoc_absent(s.drop_last(), s[i].0);
        assert(assoc_map(s.drop_last()) =~= assoc_map(s.drop_last()).insert(
            s.last().0,
            s.last().1,
        ).remove(s[i].0));
    } else {
        assert(unique_keys(s.drop_last()));
        lemma_assoc_remove(s.drop_last(), i);
        assert(s.remove(i).drop_last() == s.drop_last().remove(i));
        assert(s.remove(i).last() == s.last());
        assert(s[i].0 != s.last().0);
        assert(assoc_map(s.drop_last()).remove(s[i].0).insert(s.last().0, s.last().1)
            =~= assoc_map(s.drop_last()).insert(s.last().0, s.last().1).remove(s[i].0));
    }
}

/// Under unique keys the map has exactly one entry per list element.
pub proof fn lemma_assoc_len<V>(s: Seq<((usize, usize), V)>)
    requires
        unique_keys(s),
    ensures
        assoc_map(s).dom().finite(),
        assoc_map(s).dom().len() == s.len(),
    decreases s.len(),
{
    if s.len() > 0 {
        assert(unique_keys(s.drop_last()));
        lemma_assoc_len(s.drop_last());
        assert(forall|j: int| 0 <= j < s.drop_last().len() ==> (#[trigger] s.drop_last()[j]).0
            != s.last().0);
        lemma_assoc_absent(s.drop_last(), s.last().0);
    }
}

/// Finds the entry that carries `k`, if one does.
pub fn find_key<V>(s: &Vec<((usize, usize), V)>, k: (usize, usize)) -> (r: Option<usize>)
    ensures
        match r {
            Some(i) => i < s@.len() && s@[i as int].0 == k,
            None => forall|i: int| 0 <= i < s@.len() ==> (#[trigger] s@[i]).0 != k,
        },
{
    let mut idx: usize = 0;
    while idx < s.len()
        invariant
            idx <= s@.len(),
            forall|i: int| 0 <= i < idx ==> (#[trigger] s@[i]).0 != k,
        decreases s@.len() - idx,
    {
        if s[idx].0.0 == k.0 && s[idx].0.1 == k.1 {
            return Some(idx);
        }
        idx = idx + 1;
    }
    None
}

} // verus!
