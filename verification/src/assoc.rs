//! Association lists: sequences of key-value pairs in which no key occurs
//! twice. They keep the order in which keys first came in, so walking one
//! is repeatable.

use vstd::prelude::*;

verus! {

/// A key of an association list: a plain value that can be compared.
pub trait Key: Copy {
    /// Whether two keys are equal.
    fn same(&self, other: &Self) -> (b: bool)
        ensures
            b == (*self == *other),
    ;
}

impl Key for u64 {
    fn same(&self, other: &Self) -> (b: bool) {
        *self == *other
    }
}

/// No key occurs twice.
pub open spec fn keys_distinct<K, V>(s: Seq<(K, V)>) -> bool {
    forall|i: int, j: int| 0 <= i < j < s.len() ==> (#[trigger] s[i]).0 != (#[trigger] s[j]).0
}

/// Some pair has the key `k`.
pub open spec fn has_key<K, V>(s: Seq<(K, V)>, k: K) -> bool {
    exists|i: int| 0 <= i < s.len() && (#[trigger] s[i]).0 == k
}

/// `i` is the first place where the key `k` stands.
pub open spec fn is_first<K, V>(s: Seq<(K, V)>, k: K, i: int) -> bool {
    &&& 0 <= i < s.len()
    &&& s[i].0 == k
    &&& forall|j: int| 0 <= j < i ==> (#[trigger] s[j]).0 != k
}

/// The first place of the key `k`, or -1 if no pair has it.
pub open spec fn position<K, V>(s: Seq<(K, V)>, k: K) -> int {
    if has_key(s, k) {
        choose|i: int| is_first(s, k, i)
    } else {
        -1
    }
}

/// A key that stands at `i` has a first place, at `i` or before.
pub proof fn lemma_first_exists<K, V>(s: Seq<(K, V)>, k: K, i: int)
    requires
        0 <= i < s.len(),
        s[i].0 == k,
    ensures
        exists|f: int| is_first(s, k, f) && f <= i,
    decreases i,
{
    if exists|j: int| 0 <= j < i && (#[trigger] s[j]).0 == k {
        let j = choose|j: int| 0 <= j < i && (#[trigger] s[j]).0 == k;
        lemma_first_exists(s, k, j);
    } else {
        assert(is_first(s, k, i));
    }
}

/// The first place of a key is its position.
pub proof fn lemma_first_is_position<K, V>(s: Seq<(K, V)>, k: K, i: int)
    requires
        is_first(s, k, i),
    ensures
        has_key(s, k),
        position(s, k) == i,
{
    assert(s[i].0 == k);
    let p = position(s, k);
    assert(is_first(s, k, p));
    if p < i {
        assert(s[p].0 != k);
    } else if i < p {
        assert(s[i].0 != k);
    }
}

/// The list with `k` bound to `v`: in the place of the old pair if `k` was
/// bound, at the end if not.
pub open spec fn put<K, V>(s: Seq<(K, V)>, k: K, v: V) -> Seq<(K, V)> {
    if has_key(s, k) {
        s.update(position(s, k), (k, v))
    } else {
        s.push((k, v))
    }
}

/// In a list without repeats, the position of a key is the one place where
/// it stands.
pub proof fn lemma_position<K, V>(s: Seq<(K, V)>, i: int)
    requires
        keys_distinct(s),
        0 <= i < s.len(),
    ensures
        has_key(s, s[i].0),
        position(s, s[i].0) == i,
{
    let k = s[i].0;
    assert forall|j: int| 0 <= j < i implies (#[trigger] s[j]).0 != k by {
        assert(s[j].0 != s[i].0);
    }
    lemma_first_is_position(s, k, i);
}

/// The position of a key that is bound lies in the list and holds the key,
/// and the key stands nowhere before it.
pub proof fn lemma_position_bound<K, V>(s: Seq<(K, V)>, k: K)
    requires
        has_key(s, k),
    ensures
        is_first(s, k, position(s, k)),
{
    let i = choose|i: int| 0 <= i < s.len() && (#[trigger] s[i]).0 == k;
    lemma_first_exists(s, k, i);
}

/// Binding a key keeps the list free of repeats, binds the key, and leaves
/// every other key as it was.
pub proof fn lemma_put<K, V>(s: Seq<(K, V)>, k: K, v: V)
    requires
        keys_distinct(s),
    ensures
        keys_distinct(put(s, k, v)),
        has_key(put(s, k, v), k),
        put(s, k, v)[position(put(s, k, v), k)].1 == v,
        forall|other: K| has_key(put(s, k, v), other) <==> (other == k || has_key(s, other)),
{
    let t = put(s, k, v);
    if has_key(s, k) {
        lemma_position_bound(s, k);
        let p = position(s, k);
        assert(t[p].0 == k);
        assert forall|i: int, j: int| 0 <= i < j < t.len() implies (#[trigger] t[i]).0 != (
        #[trigger] t[j]).0 by {
            assert(s[i].0 != s[j].0);
        }
        lemma_position(t, p);
        assert forall|other: K| has_key(t, other) <==> (other == k || has_key(s, other)) by {
            if has_key(t, other) {
                let i = choose|i: int| 0 <= i < t.len() && (#[trigger] t[i]).0 == other;
                if i != p {
                    assert(s[i].0 == other);
                }
            }
            if has_key(s, other) {
                let i = choose|i: int| 0 <= i < s.len() && (#[trigger] s[i]).0 == other;
                assert(t[i].0 == other);
            }
        }
    } else {
        let p = s.len() as int;
        assert(t[p].0 == k);
        assert forall|i: int, j: int| 0 <= i < j < t.len() implies (#[trigger] t[i]).0 != (
        #[trigger] t[j]).0 by {
            if j < s.len() {
                assert(s[i].0 != s[j].0);
            } else {
                assert(s[i].0 != k);
            }
        }
        lemma_position(t, p);
        assert forall|other: K| has_key(t, other) <==> (other == k || has_key(s, other)) by {
            if has_key(t, other) {
                let i = choose|i: int| 0 <= i < t.len() && (#[trigger] t[i]).0 == other;
                if i != p {
                    assert(s[i].0 == other);
                }
            }
            if has_key(s, other) {
                let i = choose|i: int| 0 <= i < s.len() && (#[trigger] s[i]).0 == other;
                assert(t[i].0 == other);
            }
        }
    }
}

/// Looks a key up: its first place, if it is bound.
pub fn find<K: Key, V>(list: &Vec<(K, V)>, k: &K) -> (found: Option<usize>)
    ensures
        match found {
            Some(i) => i < list.len() && list[i as int].0 == *k && is_first(list@, *k, i as int),
            None => !has_key(list@, *k),
        },
        has_key(list@, *k) == found.is_some(),
        position(list@, *k) == match found {
            Some(i) => i as int,
            None => -1,
        },
{
    let mut i: usize = 0;
    while i < list.len()
        invariant
            i <= list.len(),
            forall|j: int| 0 <= j < i ==> (#[trigger] list[j]).0 != *k,
        decreases list.len() - i,
    {
        if list[i].0.same(k) {
            proof {
                lemma_first_is_position(list@, *k, i as int);
            }
            return Some(i);
        }
        i += 1;
    }
    None
}


/// Changing the values of a list leaves its keys where they are.
pub proof fn lemma_map_keys<K, V, W>(s: Seq<(K, V)>, f: spec_fn((K, V)) -> (K, W), k: K)
    requires
        forall|e: (K, V)| (#[trigger] f(e)).0 == e.0,
    ensures
        has_key(s.map_values(f), k) == has_key(s, k),
        position(s.map_values(f), k) == position(s, k),
        keys_distinct(s) ==> keys_distinct(s.map_values(f)),
{
    let t = s.map_values(f);
    assert forall|i: int| 0 <= i < s.len() implies (#[trigger] t[i]).0 == s[i].0 by {
        assert(t[i] == f(s[i]));
    }
    if has_key(s, k) {
        lemma_position_bound(s, k);
        let p = position(s, k);
        assert(t[p].0 == k);
        assert forall|j: int| 0 <= j < p implies (#[trigger] t[j]).0 != k by {
            assert(s[j].0 != k);
        }
        lemma_first_is_position(t, k, p);
    }
    if has_key(t, k) {
        let i = choose|i: int| 0 <= i < t.len() && (#[trigger] t[i]).0 == k;
        assert(s[i].0 == k);
    }
    if keys_distinct(s) {
        assert forall|i: int, j: int| 0 <= i < j < t.len() implies (#[trigger] t[i]).0 != (
        #[trigger] t[j]).0 by {
            assert(s[i].0 != s[j].0);
        }
    }
}


/// Whether no key occurs twice.
pub fn distinct<K: Key, V>(list: &Vec<(K, V)>) -> (ok: bool)
    ensures
        ok == keys_distinct(list@),
{
    let mut j: usize = 0;
    while j < list.len()
        invariant
            j <= list.len(),
            forall|a: int, b: int| 0 <= a < b < j ==> (#[trigger] list@[a]).0 != (#[trigger] list@[b]).0,
        decreases list.len() - j,
    {
        match find(list, &list[j].0) {
            Some(i) => {
                if i != j {
                    assert(list@[i as int].0 == list@[j as int].0);
                    return false;
                }
            },
            None => {
                assert(list@[j as int].0 == list@[j as int].0);
                assert(has_key(list@, list@[j as int].0));
            },
        }
        j += 1;
    }
    true
}

} // verus!
