//! Association lists: sequences of key-value pairs in which no key occurs
//! twice, read as maps. The tables of this crate store their entries this way.

use vstd::prelude::*;

verus! {

/// No key occurs at two positions of `s`.
pub open spec fn keys_distinct<K, V>(s: Seq<(K, V)>) -> bool {
    forall|i: int, j: int| 0 <= i < j < s.len() ==> s[i].0 != s[j].0
}

/// Some entry of `s` has key `k`.
pub open spec fn has_key<K, V>(s: Seq<(K, V)>, k: K) -> bool {
    exists|i: int| 0 <= i < s.len() && s[i].0 == k
}

/// A position of `s` that holds key `k`, where there is one.
pub open spec fn position<K, V>(s: Seq<(K, V)>, k: K) -> int {
    choose|i: int| 0 <= i < s.len() && s[i].0 == k
}

/// The map that `s` stands for: its keys, each with the value stored beside it.
pub open spec fn as_map<K, V>(s: Seq<(K, V)>) -> Map<K, V> {
    Map::new(|k: K| has_key(s, k), |k: K| s[position(s, k)].1)
}

/// With distinct keys, the entry at position `i` is the one its key finds.
pub proof fn lemma_entry<K, V>(s: Seq<(K, V)>, i: int)
    requires
        keys_distinct(s),
        0 <= i < s.len(),
    ensures
        has_key(s, s[i].0),
        position(s, s[i].0) == i,
        as_map(s).contains_key(s[i].0),
        as_map(s)[s[i].0] == s[i].1,
{
    let p = position(s, s[i].0);
    assert(0 <= p < s.len() && s[p].0 == s[i].0);
    if p < i {
        assert(s[p].0 != s[i].0);
    } else if i < p {
        assert(s[i].0 != s[p].0);
    }
}

/// Appending an entry under a key that is not yet there inserts it into the map.
pub proof fn lemma_push<K, V>(s: Seq<(K, V)>, k: K, v: V)
    requires
        keys_distinct(s),
        !has_key(s, k),
    ensures
        keys_distinct(s.push((k, v))),
        as_map(s.push((k, v))) == as_map(s).insert(k, v),
{
    let t = s.push((k, v));
    assert(keys_distinct(t)) by {
        assert forall|i: int, j: int| 0 <= i < j < t.len() implies t[i].0 != t[j].0 by {
            if j == s.len() {
                assert(s[i].0 != k);
            } else {
                assert(s[i].0 != s[j].0);
            }
        }
    }
    assert forall|q: K| has_key(t, q) <==> (q == k || has_key(s, q)) by {
        if has_key(t, q) {
            let i = position(t, q);
            if i < s.len() {
                assert(s[i].0 == q);
            }
        }
        if q == k {
            assert(t[s.len() as int].0 == k);
        }
        if has_key(s, q) {
            let i = position(s, q);
            assert(t[i].0 == q);
        }
    }
    assert forall|q: K| has_key(t, q) implies #[trigger] as_map(t)[q] == as_map(s).insert(k, v)[q] by {
        if q == k {
            lemma_entry(t, s.len() as int);
        } else {
            let i = position(s, q);
            assert(t[i] == s[i]);
            lemma_entry(t, i);
            lemma_entry(s, i);
        }
    }
    assert(as_map(t) =~= as_map(s).insert(k, v));
}

/// Replacing the value at position `i` rebinds that position's key in the map.
pub proof fn lemma_update<K, V>(s: Seq<(K, V)>, i: int, v: V)
    requires
        keys_distinct(s),
        0 <= i < s.len(),
    ensures
        keys_distinct(s.update(i, (s[i].0, v))),
        as_map(s.update(i, (s[i].0, v))) == as_map(s).insert(s[i].0, v),
{
    let k = s[i].0;
    let t = s.update(i, (k, v));
    assert(keys_distinct(t)) by {
        assert forall|a: int, b: int| 0 <= a < b < t.len() implies t[a].0 != t[b].0 by {
            assert(t[a].0 == s[a].0 && t[b].0 == s[b].0);
        }
    }
    assert forall|q: K| has_key(t, q) <==> has_key(s, q) by {
        if has_key(t, q) {
            let a = position(t, q);
            assert(s[a].0 == q);
        }
        if has_key(s, q) {
            let a = position(s, q);
            assert(t[a].0 == q);
        }
    }
    lemma_entry(s, i);
    assert forall|q: K| has_key(t, q) implies #[trigger] as_map(t)[q] == as_map(s).insert(k, v)[q] by {
        let a = position(s, q);
        lemma_entry(s, a);
        lemma_entry(t, a);
    }
    assert(as_map(t) =~= as_map(s).insert(k, v));
}

/// With distinct keys the map has as many keys as the list has entries.
pub proof fn lemma_len<K, V>(s: Seq<(K, V)>)
    requires
        keys_distinct(s),
    ensures
        as_map(s).dom().finite(),
        as_map(s).dom().len() == s.len(),
    decreases s.len(),
{
    if s.len() == 0 {
        assert(as_map(s).dom() =~= Set::<K>::empty());
    } else {
        let r = s.drop_last();
        let (k, v) = s.last();
        assert(keys_distinct(r)) by {
            assert forall|a: int, b: int| 0 <= a < b < r.len() implies r[a].0 != r[b].0 by {
                assert(s[a].0 != s[b].0);
            }
        }
        assert(!has_key(r, k)) by {
            if has_key(r, k) {
                let a = position(r, k);
                assert(s[a].0 != s[s.len() - 1].0);
            }
        }
        assert(s =~= r.push((k, v)));
        lemma_push(r, k, v);
        lemma_len(r);
        assert(as_map(s).dom() =~= as_map(r).dom().insert(k));
    }
}

} // verus!
