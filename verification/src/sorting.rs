//! Stable insertion into, and sorting of, sequences ordered by a relation.
use vstd::prelude::*;

verus! {

/// `x` placed just before the first element `y` of `s` that sorts after it
/// (`after(y, x)`); at the end when there is none.
pub open spec fn insert_before<A>(s: Seq<A>, x: A, after: spec_fn(A, A) -> bool) -> Seq<A>
    decreases s.len(),
{
    if s.len() == 0 {
        seq![x]
    } else if after(s[0], x) {
        seq![x] + s
    } else {
        seq![s[0]] + insert_before(s.drop_first(), x, after)
    }
}

/// `s` sorted by inserting each element, in order, before the first that
/// sorts after it: elements that do not sort after one another keep their
/// order.
pub open spec fn insertion_sorted<A>(s: Seq<A>, after: spec_fn(A, A) -> bool) -> Seq<A>
    decreases s.len(),
{
    if s.len() == 0 {
        s
    } else {
        insert_before(insertion_sorted(s.drop_last(), after), s.last(), after)
    }
}

/// Where `p` is the first position whose element sorts after `x`,
/// inserting `x` puts it at `p`.
pub proof fn lemma_insert_before_at<A>(s: Seq<A>, x: A, after: spec_fn(A, A) -> bool, p: int)
    requires
        0 <= p <= s.len(),
        forall|j: int| 0 <= j < p ==> !after(#[trigger] s[j], x),
        p < s.len() ==> after(s[p], x),
    ensures
        insert_before(s, x, after) == s.take(p) + seq![x] + s.skip(p),
    decreases p,
{
    if p == 0 {
        if s.len() == 0 {
            assert(s.take(0) + seq![x] + s.skip(0) =~= seq![x]);
        } else {
            assert(s.take(0) + seq![x] + s.skip(0) =~= seq![x] + s);
        }
    } else {
        let t = s.drop_first();
        assert forall|j: int| 0 <= j < p - 1 implies !after(#[trigger] t[j], x) by {
            assert(t[j] == s[j + 1]);
        }
        lemma_insert_before_at(t, x, after, p - 1);
        assert(!after(s[0], x));
        assert(seq![s[0]] + (t.take(p - 1) + seq![x] + t.skip(p - 1)) =~= s.take(p) + seq![x] + s.skip(p));
    }
}

/// Sorting keeps the elements: it only reorders them.
pub proof fn lemma_insertion_sorted_len<A>(s: Seq<A>, after: spec_fn(A, A) -> bool)
    ensures
        insertion_sorted(s, after).len() == s.len(),
    decreases s.len(),
{
    if s.len() > 0 {
        lemma_insertion_sorted_len(s.drop_last(), after);
        lemma_insert_before_len(insertion_sorted(s.drop_last(), after), s.last(), after);
    }
}

/// Inserting adds one element.
pub proof fn lemma_insert_before_len<A>(s: Seq<A>, x: A, after: spec_fn(A, A) -> bool)
    ensures
        insert_before(s, x, after).len() == s.len() + 1,
    decreases s.len(),
{
    if s.len() > 0 && !after(s[0], x) {
        lemma_insert_before_len(s.drop_first(), x, after);
    }
}

/// Every element of `s` with `x` inserted is `x` or an element of `s`.
pub proof fn lemma_insert_before_contains<A>(s: Seq<A>, x: A, after: spec_fn(A, A) -> bool)
    ensures
        forall|i: int|
            0 <= i < insert_before(s, x, after).len() ==> #[trigger] insert_before(s, x, after)[i] == x
                || s.contains(insert_before(s, x, after)[i]),
    decreases s.len(),
{
    lemma_insert_before_len(s, x, after);
    let t = insert_before(s, x, after);
    if s.len() > 0 && !after(s[0], x) {
        let r = insert_before(s.drop_first(), x, after);
        lemma_insert_before_contains(s.drop_first(), x, after);
        assert forall|i: int| 0 <= i < t.len() implies #[trigger] t[i] == x || s.contains(t[i]) by {
            if i == 0 {
                assert(t[0] == s[0]);
            } else {
                assert(t[i] == r[i - 1]);
                if r[i - 1] != x {
                    let j = choose|j: int| 0 <= j < s.drop_first().len() && s.drop_first()[j] == r[i - 1];
                    assert(s[j + 1] == t[i]);
                }
            }
        }
    } else if s.len() > 0 {
        assert forall|i: int| 0 <= i < t.len() implies #[trigger] t[i] == x || s.contains(t[i]) by {
            if i > 0 {
                assert(t[i] == s[i - 1]);
            }
        }
    }
}

/// Sorting keeps every element within the sequence sorted.
pub proof fn lemma_insertion_sorted_contains<A>(s: Seq<A>, after: spec_fn(A, A) -> bool)
    ensures
        forall|i: int|
            0 <= i < insertion_sorted(s, after).len() ==> s.contains(#[trigger] insertion_sorted(s, after)[i]),
    decreases s.len(),
{
    if s.len() > 0 {
        let t = insertion_sorted(s.drop_last(), after);
        lemma_insertion_sorted_contains(s.drop_last(), after);
        lemma_insert_before_contains(t, s.last(), after);
        let u = insertion_sorted(s, after);
        assert forall|i: int| 0 <= i < u.len() implies s.contains(#[trigger] u[i]) by {
            if u[i] == s.last() {
                assert(s[s.len() - 1] == u[i]);
            } else {
                assert(t.contains(u[i]));
                let j = choose|j: int| 0 <= j < t.len() && t[j] == u[i];
                assert(s.drop_last().contains(t[j]));
                let k = choose|k: int| 0 <= k < s.drop_last().len() && s.drop_last()[k] == t[j];
                assert(s[k] == u[i]);
            }
        }
    }
}

} // verus!
