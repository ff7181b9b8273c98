//! Entries kept in order under an identifier (an account, or a 32-byte
//! identifier), each identifier at most once, and the map they stand for.

use vstd::prelude::*;

use crate::Hash32;

verus! {

broadcast use vstd::array::group_array_axioms;

/// Returns whether two identifiers are the same.
pub fn same_id(a: &Hash32, b: &Hash32) -> (r: bool)
    ensures
        r == (*a == *b),
{
    let mut i: usize = 0;
    while i < 32
        invariant
            0 <= i <= 32,
            forall|k: int| 0 <= k < i ==> a[k] == b[k],
        decreases 32 - i,
    {
        if a[i] != b[i] {
            return false;
        }
        i = i + 1;
    }
    proof {
        assert(*a =~= *b);
    }
    true
}

/// No identifier appears twice.
pub open spec fn keys_unique<K, V>(s: Seq<(K, V)>) -> bool {
    forall|i: int, j: int| 0 <= i < j < s.len() ==> #[trigger] s[i].0 != #[trigger] s[j].0
}

/// Some entry carries the identifier.
pub open spec fn has_key<K, V>(s: Seq<(K, V)>, k: K) -> bool {
    exists|i: int| 0 <= i < s.len() && #[trigger] s[i].0 == k
}

/// The position of the entry carrying the identifier.
pub open spec fn key_index<K, V>(s: Seq<(K, V)>, k: K) -> int {
    choose|i: int| 0 <= i < s.len() && #[trigger] s[i].0 == k
}

/// The map the entries stand for.
pub open spec fn keyed_map<K, V>(s: Seq<(K, V)>) -> Map<K, V> {
    Map::new(|k: K| has_key(s, k), |k: K| s[key_index(s, k)].1)
}

/// With unique identifiers, the entry at a position is the one its
/// identifier maps to.
pub proof fn lemma_key_index<K, V>(s: Seq<(K, V)>, i: int)
    requires
        keys_unique(s),
        0 <= i < s.len(),
    ensures
        has_key(s, s[i].0),
        key_index(s, s[i].0) == i,
        keyed_map(s).contains_key(s[i].0),
        keyed_map(s)[s[i].0] == s[i].1,
{
    let j = key_index(s, s[i].0);
    assert(has_key(s, s[i].0));
    if j != i {
        if j < i {
            assert(s[j].0 != s[i].0);
        } else {
            assert(s[i].0 != s[j].0);
        }
    }
}

/// Adding an entry under a new identifier inserts it into the map.
pub proof fn lemma_push_new_key<K, V>(s: Seq<(K, V)>, k: K, v: V)
    requires
        keys_unique(s),
        !has_key(s, k),
    ensures
        keys_unique(s.push((k, v))),
        keyed_map(s.push((k, v))) == keyed_map(s).insert(k, v),
{
    let t = s.push((k, v));
    assert forall|i: int, j: int| 0 <= i < j < t.len() implies #[trigger] t[i].0 != #[trigger] t[j].0 by {
        if j == s.len() {
            assert(t[i] == s[i]);
        } else {
            assert(t[i] == s[i] && t[j] == s[j]);
        }
    }
    lemma_key_index(t, s.len() as int);
    assert forall|q: K| #[trigger] keyed_map(t).contains_key(q) == keyed_map(s).insert(k, v).contains_key(q) by {
        if has_key(s, q) {
            let i = key_index(s, q);
            assert(t[i] == s[i]);
        }
        if has_key(t, q) && q != k {
            let i = key_index(t, q);
            assert(i < s.len());
            assert(t[i] == s[i]);
        }
    }
    assert forall|q: K| #[trigger] keyed_map(t).contains_key(q) implies keyed_map(t)[q] == keyed_map(s).insert(k, v)[q] by {
        if q != k {
            let i = key_index(s, q);
            lemma_key_index(s, i);
            assert(t[i] == s[i]);
            lemma_key_index(t, i);
        }
    }
    assert(keyed_map(t) =~= keyed_map(s).insert(k, v));
}

/// Replacing the value at a position, keeping its identifier, updates the map
/// under that identifier and nowhere else.
pub proof fn lemma_update_value<K, V>(s: Seq<(K, V)>, i: int, v: V)
    requires
        keys_unique(s),
        0 <= i < s.len(),
    ensures
        keys_unique(s.update(i, (s[i].0, v))),
        keyed_map(s.update(i, (s[i].0, v))) == keyed_map(s).insert(s[i].0, v),
{
    let k = s[i].0;
    let t = s.update(i, (k, v));
    assert forall|a: int, b: int| 0 <= a < b < t.len() implies #[trigger] t[a].0 != #[trigger] t[b].0 by {
        assert(t[a].0 == s[a].0 && t[b].0 == s[b].0);
    }
    lemma_key_index(t, i);
    assert forall|q: K| #[trigger] keyed_map(t).contains_key(q) == keyed_map(s).insert(k, v).contains_key(q) by {
        if has_key(s, q) {
            let j = key_index(s, q);
            assert(t[j].0 == s[j].0);
        }
        if has_key(t, q) {
            let j = key_index(t, q);
            assert(t[j].0 == s[j].0);
        }
    }
    assert forall|q: K| #[trigger] keyed_map(t).contains_key(q) implies keyed_map(t)[q] == keyed_map(s).insert(k, v)[q] by {
        if q != k {
            let j = key_index(s, q);
            lemma_key_index(s, j);
            assert(j != i);
            assert(t[j] == s[j]);
            lemma_key_index(t, j);
        }
    }
    assert(keyed_map(t) =~= keyed_map(s).insert(k, v));
}

/// Removing the entry at a position removes its identifier from the map.
pub proof fn lemma_remove_at<K, V>(s: Seq<(K, V)>, i: int)
    requires
        keys_unique(s),
        0 <= i < s.len(),
    ensures
        keys_unique(s.remove(i)),
        keyed_map(s.remove(i)) == keyed_map(s).remove(s[i].0),
{
    let k = s[i].0;
    let t = s.remove(i);
    assert forall|a: int, b: int| 0 <= a < b < t.len() implies #[trigger] t[a].0 != #[trigger] t[b].0 by {
        let a1 = if a < i { a } else { a + 1 };
        let b1 = if b < i { b } else { b + 1 };
        assert(t[a] == s[a1] && t[b] == s[b1]);
    }
    assert forall|q: K| #[trigger] keyed_map(t).contains_key(q) == keyed_map(s).remove(k).contains_key(q) by {
        if has_key(s, q) && q != k {
            let j = key_index(s, q);
            lemma_key_index(s, j);
            assert(j != i);
            let j1 = if j < i { j } else { j - 1 };
            assert(t[j1] == s[j]);
        }
        if has_key(t, q) {
            let j = key_index(t, q);
            let j1 = if j < i { j } else { j + 1 };
            assert(t[j] == s[j1]);
            assert(j1 != i ==> s[j1].0 != s[i].0) by {
                if j1 < i {
                    assert(s[j1].0 != s[i].0);
                } else if j1 > i {
                    assert(s[i].0 != s[j1].0);
                }
            }
        }
    }
    assert forall|q: K| #[trigger] keyed_map(t).contains_key(q) implies keyed_map(t)[q] == keyed_map(s).remove(k)[q] by {
        let j = key_index(t, q);
        lemma_key_index(t, j);
        let j1 = if j < i { j } else { j + 1 };
        assert(t[j] == s[j1]);
        lemma_key_index(s, j1);
    }
    assert(keyed_map(t) =~= keyed_map(s).remove(k));
}

/// Returns the position of the entry carrying an account, if any.
pub fn find_account<V>(entries: &Vec<(u64, V)>, k: u64) -> (r: Option<usize>)
    requires
        keys_unique(entries@),
    ensures
        r is None <==> !has_key(entries@, k),
        r matches Some(i) ==> i < entries@.len() && entries@[i as int].0 == k && key_index(
            entries@,
            k,
        ) == i,
{
    let mut i: usize = 0;
    while i < entries.len()
        invariant
            keys_unique(entries@),
            0 <= i <= entries@.len(),
            forall|j: int| 0 <= j < i ==> entries@[j].0 != k,
        decreases entries@.len() - i,
    {
        if entries[i].0 == k {
            proof {
                lemma_key_index(entries@, i as int);
            }
            return Some(i);
        }
        i = i + 1;
    }
    None
}

/// Returns the position of the entry carrying an identifier, if any.
pub fn find_key<V>(entries: &Vec<(Hash32, V)>, k: &Hash32) -> (r: Option<usize>)
    requires
        keys_unique(entries@),
    ensures
        r is None <==> !has_key(entries@, *k),
        r matches Some(i) ==> i < entries@.len() && entries@[i as int].0 == *k && key_index(
            entries@,
            *k,
        ) == i,
{
    let mut i: usize = 0;
    while i < entries.len()
        invariant
            keys_unique(entries@),
            0 <= i <= entries@.len(),
            forall|j: int| 0 <= j < i ==> entries@[j].0 != *k,
        decreases entries@.len() - i,
    {
        if same_id(&entries[i].0, k) {
            proof {
                lemma_key_index(entries@, i as int);
            }
            return Some(i);
        }
        i = i + 1;
    }
    None
}

} // verus!
