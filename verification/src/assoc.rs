//! Association lists: maps kept as sequences of pairs with distinct keys.
use vstd::prelude::*;

verus! {

/// Whether a pair with the key `k` stands at `i`.
pub open spec fn keyed_at<K, V>(s: Seq<(K, V)>, i: int, k: K) -> bool {
    0 <= i < s.len() && s[i].0 == k
}

/// Whether no key occurs twice.
pub open spec fn distinct_keys<K, V>(s: Seq<(K, V)>) -> bool {
    forall|i: int, j: int|
        #![trigger s[i], s[j]]
        0 <= i < s.len() && 0 <= j < s.len() && s[i].0 == s[j].0 ==> i == j
}

/// The map that a sequence of pairs stands for.
pub open spec fn assoc_map<K, V>(s: Seq<(K, V)>) -> Map<K, V> {
    Map::new(
        |k: K| exists|i: int| keyed_at(s, i, k),
        |k: K|
            {
                let i = choose|i: int| keyed_at(s, i, k);
                s[i].1
            },
    )
}

/// What the map holds for a key that occurs.
pub proof fn lemma_assoc_at<K, V>(s: Seq<(K, V)>, i: int)
    requires
        distinct_keys(s),
        0 <= i < s.len(),
    ensures
        assoc_map(s).contains_key(s[i].0),
        assoc_map(s)[s[i].0] == s[i].1,
{
    let k = s[i].0;
    assert(keyed_at(s, i, k));
    let j = choose|j: int| keyed_at(s, j, k);
    assert(keyed_at(s, j, k));
    assert(s[j].0 == s[i].0);
}

/// A key that occurs nowhere is not in the map.
pub proof fn lemma_assoc_absent<K, V>(s: Seq<(K, V)>, k: K)
    requires
        forall|i: int| 0 <= i < s.len() ==> (#[trigger] s[i]).0 != k,
    ensures
        !assoc_map(s).contains_key(k),
{
}

/// Appending a pair with a new key.
pub proof fn lemma_assoc_push<K, V>(s: Seq<(K, V)>, k: K, v: V)
    requires
        distinct_keys(s),
        forall|i: int| 0 <= i < s.len() ==> (#[trigger] s[i]).0 != k,
    ensures
        distinct_keys(s.push((k, v))),
        assoc_map(s.push((k, v))) == assoc_map(s).insert(k, v),
{
    let t = s.push((k, v));
    let m = assoc_map(s).insert(k, v);
    assert forall|x: K| assoc_map(t).contains_key(x) == m.contains_key(x) by {
        if x == k {
            assert(keyed_at(t, s.len() as int, x));
        } else if assoc_map(s).contains_key(x) {
            let i = choose|i: int| keyed_at(s, i, x);
            assert(keyed_at(t, i, x));
        } else if assoc_map(t).contains_key(x) {
            let i = choose|i: int| keyed_at(t, i, x);
            assert(keyed_at(s, i, x));
        }
    }
    assert forall|x: K| m.contains_key(x) implies assoc_map(t)[x] == m[x] by {
        let i = choose|i: int| keyed_at(t, i, x);
        assert(assoc_map(t).contains_key(x));
        assert(keyed_at(t, i, x));
        lemma_assoc_at(t, i);
        if x != k {
            lemma_assoc_at(s, i);
        }
    }
    assert(assoc_map(t) =~= m);
}

/// Replacing the value at a position.
pub proof fn lemma_assoc_update<K, V>(s: Seq<(K, V)>, i: int, v: V)
    requires
        distinct_keys(s),
        0 <= i < s.len(),
    ensures
        distinct_keys(s.update(i, (s[i].0, v))),
        assoc_map(s.update(i, (s[i].0, v))) == assoc_map(s).insert(s[i].0, v),
{
    let t = s.update(i, (s[i].0, v));
    let m = assoc_map(s).insert(s[i].0, v);
    assert forall|x: K| assoc_map(t).contains_key(x) == m.contains_key(x) by {
        lemma_assoc_at(s, i);
        if assoc_map(s).contains_key(x) {
            let j = choose|j: int| keyed_at(s, j, x);
            assert(keyed_at(t, j, x));
        } else if assoc_map(t).contains_key(x) {
            let j = choose|j: int| keyed_at(t, j, x);
            assert(keyed_at(s, j, x));
        }
    }
    assert forall|x: K| m.contains_key(x) implies assoc_map(t)[x] == m[x] by {
        assert(assoc_map(t).contains_key(x));
        let j = choose|j: int| keyed_at(t, j, x);
        lemma_assoc_at(t, j);
        lemma_assoc_at(s, j);
    }
    assert(assoc_map(t) =~= m);
}

/// Taking out the pair at a position.
pub proof fn lemma_assoc_remove<K, V>(s: Seq<(K, V)>, i: int)
    requires
        distinct_keys(s),
        0 <= i < s.len(),
    ensures
        distinct_keys(s.remove(i)),
        assoc_map(s.remove(i)) == assoc_map(s).remove(s[i].0),
{
    let t = s.remove(i);
    let m = assoc_map(s).remove(s[i].0);
    assert forall|j: int, k: int|
        #![trigger t[j], t[k]]
        0 <= j < t.len() && 0 <= k < t.len() && t[j].0 == t[k].0 implies j == k by {
        let j0 = if j < i {
            j
        } else {
            j + 1
        };
        let k0 = if k < i {
            k
        } else {
            k + 1
        };
        assert(s[j0] == t[j] && s[k0] == t[k]);
    }
    assert forall|x: K| assoc_map(t).contains_key(x) == m.contains_key(x) by {
        if m.contains_key(x) {
            let j = choose|j: int| keyed_at(s, j, x);
            let j1 = if j < i {
                j
            } else {
                j - 1
            };
            assert(j != i);
            assert(keyed_at(t, j1, x));
        } else if assoc_map(t).contains_key(x) {
            let j = choose|j: int| keyed_at(t, j, x);
            let j0 = if j < i {
                j
            } else {
                j + 1
            };
            assert(keyed_at(s, j0, x));
            assert(s[j0].0 == s[i].0);
        }
    }
    assert forall|x: K| m.contains_key(x) implies assoc_map(t)[x] == m[x] by {
        assert(assoc_map(t).contains_key(x));
        let j = choose|j: int| keyed_at(t, j, x);
        let j0 = if j < i {
            j
        } else {
            j + 1
        };
        assert(s[j0] == t[j]);
        lemma_assoc_at(t, j);
        lemma_assoc_at(s, j0);
    }
    assert(assoc_map(t) =~= m);
}

/// What a sequence contains after an element is appended.
pub proof fn lemma_push_contains<A>(s: Seq<A>, x: A, y: A)
    ensures
        s.push(x).contains(y) == (s.contains(y) || x == y),
{
    let t = s.push(x);
    if s.contains(y) {
        let i = choose|i: int| 0 <= i < s.len() && s[i] == y;
        assert(t[i] == y);
    }
    if x == y {
        assert(t[s.len() as int] == y);
    }
    if t.contains(y) && x != y {
        let i = choose|i: int| 0 <= i < t.len() && t[i] == y;
        assert(s[i] == y);
    }
}

} // verus!
