//! Vectors of entries used as maps: each entry has a key, no key occurs
//! twice, and the vector stands for the map from keys to values.
use vstd::prelude::*;

verus! {

/// No two entries of `s` have the same key.
pub open spec fn distinct_keys<E, K>(s: Seq<E>, key: spec_fn(E) -> K) -> bool {
    forall|i: int, j: int| 0 <= i < j < s.len() ==> key(s[i]) != key(s[j])
}

/// The map that the entries of `s` stand for.
pub open spec fn to_map<E, K, V>(s: Seq<E>, key: spec_fn(E) -> K, val: spec_fn(E) -> V) -> Map<
    K,
    V,
>
    decreases s.len(),
{
    if s.len() == 0 {
        Map::empty()
    } else {
        to_map(s.drop_last(), key, val).insert(key(s.last()), val(s.last()))
    }
}

pub proof fn lemma_to_map_dom<E, K, V>(s: Seq<E>, key: spec_fn(E) -> K, val: spec_fn(E) -> V, k: K)
    ensures
        to_map(s, key, val).dom().contains(k) <==> exists|i: int| 0 <= i < s.len() && key(s[i]) == k,
    decreases s.len(),
{
    if s.len() > 0 {
        let t = s.drop_last();
        lemma_to_map_dom(t, key, val, k);
        if to_map(s, key, val).dom().contains(k) {
            if key(s.last()) == k {
                assert(key(s[s.len() - 1]) == k);
            } else {
                let i = choose|i: int| 0 <= i < t.len() && key(t[i]) == k;
                assert(key(s[i]) == k);
            }
        }
        if exists|i: int| 0 <= i < s.len() && key(s[i]) == k {
            let i = choose|i: int| 0 <= i < s.len() && key(s[i]) == k;
            if i < s.len() - 1 {
                assert(key(t[i]) == k);
            }
        }
    }
}

pub proof fn lemma_to_map_index<E, K, V>(
    s: Seq<E>,
    key: spec_fn(E) -> K,
    val: spec_fn(E) -> V,
    i: int,
)
    requires
        distinct_keys(s, key),
        0 <= i < s.len(),
    ensures
        to_map(s, key, val).dom().contains(key(s[i])),
        to_map(s, key, val)[key(s[i])] == val(s[i]),
    decreases s.len(),
{
    if i < s.len() - 1 {
        let t = s.drop_last();
        assert(t[i] == s[i]);
        lemma_to_map_index(t, key, val, i);
    }
}

pub proof fn lemma_to_map_push<E, K, V>(
    s: Seq<E>,
    key: spec_fn(E) -> K,
    val: spec_fn(E) -> V,
    e: E,
)
    requires
        distinct_keys(s, key),
        !to_map(s, key, val).dom().contains(key(e)),
    ensures
        distinct_keys(s.push(e), key),
        to_map(s.push(e), key, val) == to_map(s, key, val).insert(key(e), val(e)),
{
    assert(s.push(e).drop_last() =~= s);
    assert forall|i: int, j: int| 0 <= i < j < s.push(e).len() implies key(s.push(e)[i]) != key(
        s.push(e)[j],
    ) by {
        if j == s.len() {
            lemma_to_map_index(s, key, val, i);
        }
    }
}

pub proof fn lemma_to_map_update<E, K, V>(
    s: Seq<E>,
    key: spec_fn(E) -> K,
    val: spec_fn(E) -> V,
    i: int,
    e: E,
)
    requires
        distinct_keys(s, key),
        0 <= i < s.len(),
        key(e) == key(s[i]),
    ensures
        distinct_keys(s.update(i, e), key),
        to_map(s.update(i, e), key, val) == to_map(s, key, val).insert(key(e), val(e)),
    decreases s.len(),
{
    let u = s.update(i, e);
    assert forall|a: int, b: int| 0 <= a < b < u.len() implies key(u[a]) != key(u[b]) by {
        if a == i {
            assert(key(u[a]) == key(s[a]));
        }
        if b == i {
            assert(key(u[b]) == key(s[b]));
        }
    }
    let t = s.drop_last();
    if i == s.len() - 1 {
        assert(u.drop_last() =~= t);
        assert(to_map(u, key, val) =~= to_map(s, key, val).insert(key(e), val(e)));
    } else {
        assert(u.drop_last() =~= t.update(i, e));
        lemma_to_map_update(t, key, val, i, e);
        assert(key(s.last()) != key(e)) by {
            assert(key(s[i]) != key(s[s.len() - 1]));
        }
        assert(to_map(u, key, val) =~= to_map(s, key, val).insert(key(e), val(e)));
    }
}

pub proof fn lemma_to_map_remove<E, K, V>(
    s: Seq<E>,
    key: spec_fn(E) -> K,
    val: spec_fn(E) -> V,
    i: int,
)
    requires
        distinct_keys(s, key),
        0 <= i < s.len(),
    ensures
        distinct_keys(s.remove(i), key),
        to_map(s.remove(i), key, val) == to_map(s, key, val).remove(key(s[i])),
    decreases s.len(),
{
    let r = s.remove(i);
    assert forall|a: int, b: int| 0 <= a < b < r.len() implies key(r[a]) != key(r[b]) by {
        let a2 = if a < i {
            a
        } else {
            a + 1
        };
        let b2 = if b < i {
            b
        } else {
            b + 1
        };
        assert(r[a] == s[a2]);
        assert(r[b] == s[b2]);
    }
    let t = s.drop_last();
    if i == s.len() - 1 {
        assert(r =~= t);
        lemma_to_map_dom(t, key, val, key(s[i]));
        if to_map(t, key, val).dom().contains(key(s[i])) {
            let j = choose|j: int| 0 <= j < t.len() && key(t[j]) == key(s[i]);
            assert(key(s[j]) != key(s[i]));
        }
        assert(to_map(s, key, val).remove(key(s[i])) =~= to_map(t, key, val));
    } else {
        assert(r.drop_last() =~= t.remove(i));
        assert(r.last() == s.last());
        lemma_to_map_remove(t, key, val, i);
        assert(key(s.last()) != key(s[i])) by {
            assert(key(s[i]) != key(s[s.len() - 1]));
        }
        assert(to_map(r, key, val) =~= to_map(s, key, val).remove(key(s[i])));
    }
}

} // verus!
