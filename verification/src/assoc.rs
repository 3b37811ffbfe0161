//! Lists of pairs read as finite maps.
//!
//! Several tables of this library are short lists that are searched by key.
//! Their model is the map that such a list stands for when no key occurs
//! twice in it.

use vstd::prelude::*;

verus! {

pub open spec fn has_key<K, V>(s: Seq<(K, V)>, k: K) -> bool {
    exists|i: int| 0 <= i < s.len() && (#[trigger] s[i]).0 == k
}

pub open spec fn key_index<K, V>(s: Seq<(K, V)>, k: K) -> int {
    choose|i: int| 0 <= i < s.len() && (#[trigger] s[i]).0 == k
}

pub open spec fn unique_keys<K, V>(s: Seq<(K, V)>) -> bool {
    forall|i: int, j: int|
        0 <= i < s.len() && 0 <= j < s.len() && i != j ==> (#[trigger] s[i]).0 != (
        #[trigger] s[j]).0
}

/// The map that a list of pairs stands for.
pub open spec fn as_map<K, V>(s: Seq<(K, V)>) -> Map<K, V> {
    Map::new(|k: K| has_key(s, k), |k: K| s[key_index(s, k)].1)
}

pub proof fn lemma_lookup<K, V>(s: Seq<(K, V)>, i: int)
    requires
        unique_keys(s),
        0 <= i < s.len(),
    ensures
        as_map(s).contains_key(s[i].0),
        as_map(s)[s[i].0] == s[i].1,
        key_index(s, s[i].0) == i,
{
    assert(has_key(s, s[i].0));
}

pub proof fn lemma_absent<K, V>(s: Seq<(K, V)>, k: K)
    requires
        forall|i: int| 0 <= i < s.len() ==> (#[trigger] s[i]).0 != k,
    ensures
        !as_map(s).contains_key(k),
{
}

pub proof fn lemma_push<K, V>(s: Seq<(K, V)>, k: K, v: V)
    requires
        unique_keys(s),
        forall|i: int| 0 <= i < s.len() ==> (#[trigger] s[i]).0 != k,
    ensures
        unique_keys(s.push((k, v))),
        as_map(s.push((k, v))) == as_map(s).insert(k, v),
{
    let t = s.push((k, v));
    assert(unique_keys(t));
    assert forall|x: K| as_map(t).contains_key(x) <==> as_map(s).insert(k, v).contains_key(
        x,
    ) by {
        if has_key(t, x) {
            let i = key_index(t, x);
            if i < s.len() {
                assert(s[i].0 == x);
            }
        }
        if has_key(s, x) {
            let i = key_index(s, x);
            assert(t[i].0 == x);
        }
        if x == k {
            assert(t[s.len() as int].0 == x);
        }
    }
    assert forall|x: K| as_map(t).contains_key(x) implies as_map(t)[x] == as_map(s).insert(
        k,
        v,
    )[x] by {
        let i = key_index(t, x);
        lemma_lookup(t, i);
        if i < s.len() {
            assert(s[i].0 == x);
            lemma_lookup(s, i);
        }
    }
    assert(as_map(t) =~= as_map(s).insert(k, v));
}

pub proof fn lemma_update<K, V>(s: Seq<(K, V)>, i: int, v: V)
    requires
        unique_keys(s),
        0 <= i < s.len(),
    ensures
        unique_keys(s.update(i, (s[i].0, v))),
        as_map(s.update(i, (s[i].0, v))) == as_map(s).insert(s[i].0, v),
{
    let k = s[i].0;
    let t = s.update(i, (k, v));
    assert forall|a: int, b: int|
        0 <= a < t.len() && 0 <= b < t.len() && a != b implies (#[trigger] t[a]).0 != (
    #[trigger] t[b]).0 by {
        assert(t[a].0 == s[a].0);
        assert(t[b].0 == s[b].0);
    }
    assert forall|x: K| as_map(t).contains_key(x) <==> as_map(s).insert(k, v).contains_key(
        x,
    ) by {
        if has_key(t, x) {
            let j = key_index(t, x);
            assert(s[j].0 == x);
        }
        if has_key(s, x) {
            let j = key_index(s, x);
            assert(t[j].0 == x);
        }
        if x == k {
            assert(t[i].0 == x);
        }
    }
    assert forall|x: K| as_map(t).contains_key(x) implies as_map(t)[x] == as_map(s).insert(
        k,
        v,
    )[x] by {
        let j = key_index(t, x);
        lemma_lookup(t, j);
        assert(s[j].0 == x);
        lemma_lookup(s, j);
    }
    assert(as_map(t) =~= as_map(s).insert(k, v));
}

pub proof fn lemma_remove<K, V>(s: Seq<(K, V)>, i: int)
    requires
        unique_keys(s),
        0 <= i < s.len(),
    ensures
        unique_keys(s.remove(i)),
        as_map(s.remove(i)) == as_map(s).remove(s[i].0),
{
    let k = s[i].0;
    let t = s.remove(i);
    assert forall|a: int| 0 <= a < t.len() implies #[trigger] t[a] == s[if a < i {
        a
    } else {
        a + 1
    }] by {}
    assert forall|a: int, b: int|
        0 <= a < t.len() && 0 <= b < t.len() && a != b implies (#[trigger] t[a]).0 != (
    #[trigger] t[b]).0 by {
        let a1 = if a < i { a } else { a + 1 };
        let b1 = if b < i { b } else { b + 1 };
        assert(t[a] == s[a1]);
        assert(t[b] == s[b1]);
    }
    assert forall|x: K| as_map(t).contains_key(x) <==> as_map(s).remove(k).contains_key(x) by {
        if has_key(t, x) {
            let j = key_index(t, x);
            let j1 = if j < i { j } else { j + 1 };
            assert(t[j] == s[j1]);
            assert(s[j1].0 == x);
            assert(s[i].0 == k);
        }
        if has_key(s, x) && x != k {
            let j = key_index(s, x);
            let j1 = if j < i { j } else { j - 1 };
            assert(t[j1] == s[j]);
            assert(t[j1].0 == x);
        }
    }
    assert forall|x: K| as_map(t).contains_key(x) implies as_map(t)[x] == as_map(s).remove(
        k,
    )[x] by {
        let j = key_index(t, x);
        lemma_lookup(t, j);
        let j1 = if j < i { j } else { j + 1 };
        assert(t[j] == s[j1]);
        lemma_lookup(s, j1);
    }
    assert(as_map(t) =~= as_map(s).remove(k));
}

} // verus!
