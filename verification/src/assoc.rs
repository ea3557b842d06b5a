//! Sequences of key/value pairs with distinct keys, used as finite maps
//! that remember the order in which keys were first inserted.
use vstd::prelude::*;

verus! {

/// Whether some pair has key `k`.
pub open spec fn has_key<K, V>(s: Seq<(K, V)>, k: K) -> bool {
    exists|i: int| 0 <= i < s.len() && s[i].0 == k
}

/// The position of a pair with key `k`.
pub open spec fn key_pos<K, V>(s: Seq<(K, V)>, k: K) -> int {
    choose|i: int| 0 <= i < s.len() && s[i].0 == k
}

/// The value stored at key `k`, if any.
pub open spec fn lookup<K, V>(s: Seq<(K, V)>, k: K) -> Option<V> {
    if has_key(s, k) {
        Some(s[key_pos(s, k)].1)
    } else {
        None
    }
}

/// `s` with the value at `k` replaced by `v`, or `(k, v)` appended when `k`
/// is new.
pub open spec fn upsert<K, V>(s: Seq<(K, V)>, k: K, v: V) -> Seq<(K, V)> {
    if has_key(s, k) {
        s.update(key_pos(s, k), (k, v))
    } else {
        s.push((k, v))
    }
}

/// No two pairs share a key.
pub open spec fn keys_unique<K, V>(s: Seq<(K, V)>) -> bool {
    forall|i: int, j: int| 0 <= i < s.len() && 0 <= j < s.len() && i != j ==> s[i].0 != s[j].0
}

/// The keys, in order.
pub open spec fn keys<K, V>(s: Seq<(K, V)>) -> Seq<K> {
    s.map_values(|p: (K, V)| p.0)
}

/// Where keys are distinct, the pair found at `i` is the one `key_pos` picks.
pub proof fn lemma_key_pos<K, V>(s: Seq<(K, V)>, k: K, i: int)
    requires
        keys_unique(s),
        0 <= i < s.len(),
        s[i].0 == k,
    ensures
        has_key(s, k),
        key_pos(s, k) == i,
        lookup(s, k) == Some(s[i].1),
{
    assert(0 <= i < s.len() && s[i].0 == k);
    let j = key_pos(s, k);
    assert(0 <= j < s.len() && s[j].0 == k);
}

/// Inserting keeps keys distinct, and the value at `k` is then `v`.
pub proof fn lemma_upsert<K, V>(s: Seq<(K, V)>, k: K, v: V)
    requires
        keys_unique(s),
    ensures
        keys_unique(upsert(s, k, v)),
        has_key(upsert(s, k, v), k),
        lookup(upsert(s, k, v), k) == Some(v),
        forall|q: K| q != k ==> lookup(upsert(s, k, v), q) == lookup(s, q),
        forall|q: K| has_key(upsert(s, k, v), q) <==> (q == k || has_key(s, q)),
{
    let t = upsert(s, k, v);
    if has_key(s, k) {
        let p = key_pos(s, k);
        assert(t[p].0 == k);
        lemma_key_pos(t, k, p);
        assert forall|q: K| q != k implies lookup(t, q) == lookup(s, q) by {
            if has_key(s, q) {
                let j = key_pos(s, q);
                assert(t[j] == s[j]);
                lemma_key_pos(t, q, j);
            } else {
                if has_key(t, q) {
                    let j = key_pos(t, q);
                    assert(s[j].0 == q);
                }
            }
        }
        assert forall|q: K| has_key(t, q) <==> (q == k || has_key(s, q)) by {
            if has_key(t, q) && q != k {
                let j = key_pos(t, q);
                assert(s[j].0 == q);
            }
            if has_key(s, q) {
                let j = key_pos(s, q);
                if j == p {
                    assert(t[p].0 == k);
                } else {
                    assert(t[j].0 == q);
                }
            }
        }
    } else {
        assert(t[s.len() as int].0 == k);
        lemma_key_pos(t, k, s.len() as int);
        assert forall|q: K| q != k implies lookup(t, q) == lookup(s, q) by {
            if has_key(s, q) {
                let j = key_pos(s, q);
                assert(t[j] == s[j]);
                lemma_key_pos(t, q, j);
            } else {
                if has_key(t, q) {
                    let j = key_pos(t, q);
                    assert(j != s.len());
                    assert(s[j].0 == q);
                }
            }
        }
        assert forall|q: K| has_key(t, q) <==> (q == k || has_key(s, q)) by {
            if has_key(t, q) && q != k {
                let j = key_pos(t, q);
                assert(s[j].0 == q);
            }
            if has_key(s, q) {
                let j = key_pos(s, q);
                assert(t[j].0 == q);
            }
        }
    }
}

/// What a sequence holds after a push.
pub proof fn lemma_push_contains<A>(s: Seq<A>, x: A, r: A)
    ensures
        s.push(x).contains(r) <==> (s.contains(r) || r == x),
{
    let t = s.push(x);
    if s.contains(r) {
        let j = choose|j: int| 0 <= j < s.len() && s[j] == r;
        assert(t[j] == r);
    }
    if r == x {
        assert(t[s.len() as int] == r);
    }
    if t.contains(r) {
        let j = choose|j: int| 0 <= j < t.len() && t[j] == r;
        if j < s.len() {
            assert(s[j] == r);
        }
    }
}

/// The elements of `s` in order, each only at its first occurrence.
pub open spec fn dedup<A>(s: Seq<A>) -> Seq<A>
    decreases s.len(),
{
    if s.len() == 0 {
        s
    } else {
        let d = dedup(s.drop_last());
        if d.contains(s.last()) {
            d
        } else {
            d.push(s.last())
        }
    }
}

/// `dedup` keeps every element once.
pub proof fn lemma_dedup<A>(s: Seq<A>)
    ensures
        dedup(s).no_duplicates(),
        forall|x: A| dedup(s).contains(x) <==> s.contains(x),
    decreases s.len(),
{
    if s.len() > 0 {
        let p = s.drop_last();
        lemma_dedup(p);
        let d = dedup(p);
        assert forall|x: A| dedup(s).contains(x) <==> s.contains(x) by {
            lemma_push_contains(p, s.last(), x);
            assert(s =~= p.push(s.last()));
            lemma_push_contains(d, s.last(), x);
        }
        if !d.contains(s.last()) {
            assert forall|i: int, j: int| 0 <= i < j < d.push(s.last()).len() implies d.push(s.last())[i] != d.push(s.last())[j] by {
                if j == d.len() {
                    assert(d[i] == d.push(s.last())[i]);
                }
            }
        }
    }
}

} // verus!
