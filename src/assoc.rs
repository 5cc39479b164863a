//! Association sequences: a sequence of key/value pairs with distinct keys,
//! read as the finite map it denotes. The stores of this crate keep their
//! entries in vectors and describe them through these definitions.
use vstd::prelude::*;

verus! {

/// No key occurs twice.
pub open spec fn keys_unique<A, B>(s: Seq<(A, B)>) -> bool {
    forall|i: int, j: int|
        0 <= i < s.len() && 0 <= j < s.len() && i != j ==> #[trigger] s[i].0 != #[trigger] s[j].0
}

/// Some pair of `s` has key `k`.
pub open spec fn has_key<A, B>(s: Seq<(A, B)>, k: A) -> bool {
    exists|i: int| 0 <= i < s.len() && #[trigger] s[i].0 == k
}

/// The map denoted by `s`.
pub open spec fn as_map<A, B>(s: Seq<(A, B)>) -> Map<A, B> {
    Map::new(|k: A| has_key(s, k), |k: A| s[choose|i: int| 0 <= i < s.len() && #[trigger] s[i].0 == k].1)
}

pub proof fn lemma_as_map_index<A, B>(s: Seq<(A, B)>, i: int)
    requires
        keys_unique(s),
        0 <= i < s.len(),
    ensures
        as_map(s).contains_key(s[i].0),
        as_map(s)[s[i].0] == s[i].1,
{
    assert(has_key(s, s[i].0));
    let j = choose|j: int| 0 <= j < s.len() && #[trigger] s[j].0 == s[i].0;
    assert(j == i);
}

pub proof fn lemma_as_map_absent<A, B>(s: Seq<(A, B)>, k: A)
    requires
        forall|i: int| 0 <= i < s.len() ==> #[trigger] s[i].0 != k,
    ensures
        !as_map(s).contains_key(k),
{
}

pub proof fn lemma_as_map_empty<A, B>(s: Seq<(A, B)>)
    requires
        s.len() == 0,
    ensures
        keys_unique(s),
        as_map(s) == Map::<A, B>::empty(),
{
    assert(as_map(s) =~= Map::<A, B>::empty());
}

pub proof fn lemma_as_map_push<A, B>(s: Seq<(A, B)>, k: A, v: B)
    requires
        keys_unique(s),
        !as_map(s).contains_key(k),
    ensures
        keys_unique(s.push((k, v))),
        as_map(s.push((k, v))) == as_map(s).insert(k, v),
{
    let t = s.push((k, v));
    assert forall|i: int| 0 <= i < s.len() implies #[trigger] s[i].0 != k by {
        if s[i].0 == k {
            assert(has_key(s, k));
        }
    }
    assert(forall|i: int| 0 <= i < s.len() ==> t[i] == s[i]);
    assert(keys_unique(t));
    assert forall|x: A| #[trigger] as_map(t).contains_key(x) <==> as_map(s).insert(k, v).contains_key(x) by {
        if has_key(s, x) {
            let i = choose|i: int| 0 <= i < s.len() && #[trigger] s[i].0 == x;
            assert(t[i].0 == x);
        }
        if has_key(t, x) && x != k {
            let i = choose|i: int| 0 <= i < t.len() && #[trigger] t[i].0 == x;
            assert(s[i].0 == x);
        }
        if x == k {
            assert(t[s.len() as int].0 == k);
        }
    }
    assert forall|x: A| #[trigger] as_map(t).contains_key(x) implies as_map(t)[x] == as_map(s).insert(k, v)[x] by {
        if x == k {
            lemma_as_map_index(t, s.len() as int);
        } else {
            let i = choose|i: int| 0 <= i < t.len() && #[trigger] t[i].0 == x;
            lemma_as_map_index(t, i);
            lemma_as_map_index(s, i);
        }
    }
    assert(as_map(t) =~= as_map(s).insert(k, v));
}

pub proof fn lemma_as_map_update<A, B>(s: Seq<(A, B)>, i: int, v: B)
    requires
        keys_unique(s),
        0 <= i < s.len(),
    ensures
        keys_unique(s.update(i, (s[i].0, v))),
        as_map(s.update(i, (s[i].0, v))) == as_map(s).insert(s[i].0, v),
{
    let k = s[i].0;
    let t = s.update(i, (k, v));
    assert(forall|j: int| 0 <= j < s.len() ==> #[trigger] t[j].0 == s[j].0);
    assert(keys_unique(t));
    lemma_as_map_index(s, i);
    assert forall|x: A| #[trigger] as_map(t).contains_key(x) <==> as_map(s).insert(k, v).contains_key(x) by {
        if has_key(s, x) {
            let j = choose|j: int| 0 <= j < s.len() && #[trigger] s[j].0 == x;
            assert(t[j].0 == x);
        }
        if has_key(t, x) {
            let j = choose|j: int| 0 <= j < t.len() && #[trigger] t[j].0 == x;
            assert(s[j].0 == x);
        }
    }
    assert forall|x: A| #[trigger] as_map(t).contains_key(x) implies as_map(t)[x] == as_map(s).insert(k, v)[x] by {
        let j = choose|j: int| 0 <= j < t.len() && #[trigger] t[j].0 == x;
        lemma_as_map_index(t, j);
        if j != i {
            lemma_as_map_index(s, j);
        }
    }
    assert(as_map(t) =~= as_map(s).insert(k, v));
}

pub proof fn lemma_as_map_remove<A, B>(s: Seq<(A, B)>, i: int)
    requires
        keys_unique(s),
        0 <= i < s.len(),
    ensures
        keys_unique(s.remove(i)),
        as_map(s.remove(i)) == as_map(s).remove(s[i].0),
{
    let k = s[i].0;
    let t = s.remove(i);
    assert(forall|j: int| 0 <= j < i ==> #[trigger] t[j] == s[j]);
    assert(forall|j: int| i <= j < t.len() ==> #[trigger] t[j] == s[j + 1]);
    assert forall|a: int, b: int|
        0 <= a < t.len() && 0 <= b < t.len() && a != b implies #[trigger] t[a].0 != #[trigger] t[b].0 by {
        let a2 = if a < i { a } else { a + 1 };
        let b2 = if b < i { b } else { b + 1 };
        assert(t[a] == s[a2] && t[b] == s[b2]);
    }
    assert forall|x: A| #[trigger] as_map(t).contains_key(x) <==> as_map(s).remove(k).contains_key(x) by {
        if has_key(s, x) && x != k {
            let j = choose|j: int| 0 <= j < s.len() && #[trigger] s[j].0 == x;
            if j < i {
                assert(t[j].0 == x);
            } else {
                assert(t[j - 1].0 == x);
            }
        }
        if has_key(t, x) {
            let j = choose|j: int| 0 <= j < t.len() && #[trigger] t[j].0 == x;
            let j2 = if j < i { j } else { j + 1 };
            assert(s[j2].0 == x);
            assert(x != k);
        }
    }
    assert forall|x: A| #[trigger] as_map(t).contains_key(x) implies as_map(t)[x] == as_map(s).remove(k)[x] by {
        let j = choose|j: int| 0 <= j < t.len() && #[trigger] t[j].0 == x;
        let j2 = if j < i { j } else { j + 1 };
        assert(t[j] == s[j2]);
        lemma_as_map_index(t, j);
        lemma_as_map_index(s, j2);
    }
    assert(as_map(t) =~= as_map(s).remove(k));
}

} // verus!
