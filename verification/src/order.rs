//! A total order on text, character by character.
use vstd::prelude::*;

verus! {

/// -1, 0 or 1 as `a` sorts before, with or after `b`, comparing characters
/// by their code points and a proper prefix before the longer text.
pub open spec fn text_order(a: Seq<char>, b: Seq<char>) -> int
    decreases a.len(),
{
    if a.len() == 0 {
        if b.len() == 0 { 0 } else { -1 }
    } else if b.len() == 0 {
        1
    } else if (a[0] as int) < (b[0] as int) {
        -1
    } else if (a[0] as int) > (b[0] as int) {
        1
    } else {
        text_order(a.drop_first(), b.drop_first())
    }
}

/// Comparing a text with itself gives 0, and only then.
pub proof fn lemma_text_order_zero(a: Seq<char>, b: Seq<char>)
    ensures
        text_order(a, b) == 0 <==> a == b,
    decreases a.len(),
{
    if a.len() > 0 && b.len() > 0 && a[0] == b[0] {
        lemma_text_order_zero(a.drop_first(), b.drop_first());
        if a.drop_first() == b.drop_first() {
            assert(a =~= seq![a[0]] + a.drop_first());
            assert(b =~= seq![b[0]] + b.drop_first());
        }
    }
    if a.len() > 0 && b.len() > 0 && a[0] != b[0] {
        assert((a[0] as int) != (b[0] as int));
    }
    if a.len() == 0 && b.len() == 0 {
        assert(a =~= b);
    }
}

/// Swapping the operands negates the order.
pub proof fn lemma_text_order_antisymmetric(a: Seq<char>, b: Seq<char>)
    ensures
        text_order(a, b) == -text_order(b, a),
    decreases a.len(),
{
    if a.len() > 0 && b.len() > 0 && a[0] == b[0] {
        lemma_text_order_antisymmetric(a.drop_first(), b.drop_first());
    }
}

/// The order of two texts.
pub fn compare_text(a: &str, b: &str) -> (res: i8)
    ensures
        res as int == text_order(a@, b@),
{
    let n = a.unicode_len();
    let m = b.unicode_len();
    assert(a@.skip(0) =~= a@);
    assert(b@.skip(0) =~= b@);
    let mut i: usize = 0;
    while i < n && i < m
        invariant
            n == a@.len(),
            m == b@.len(),
            i <= n,
            i <= m,
            text_order(a@, b@) == text_order(a@.skip(i as int), b@.skip(i as int)),
        decreases n - i,
    {
        let x = a.get_char(i);
        let y = b.get_char(i);
        assert(a@.skip(i as int)[0] == x);
        assert(b@.skip(i as int)[0] == y);
        if (x as u32) < (y as u32) {
            assert((x as int) < (y as int));
            return -1;
        }
        if (x as u32) > (y as u32) {
            return 1;
        }
        assert(x == y);
        assert(a@.skip(i as int).drop_first() =~= a@.skip(i + 1));
        assert(b@.skip(i as int).drop_first() =~= b@.skip(i + 1));
        i += 1;
    }
    if i == n {
        if i == m { 0 } else { -1 }
    } else {
        1
    }
}

/// The order of two optional texts: an absent text first.
pub open spec fn option_order(a: Option<Seq<char>>, b: Option<Seq<char>>) -> int {
    match (a, b) {
        (None, None) => 0,
        (None, Some(_)) => -1,
        (Some(_), None) => 1,
        (Some(x), Some(y)) => text_order(x, y),
    }
}

/// The order of two optional texts.
pub fn compare_option_text(a: &Option<String>, b: &Option<String>) -> (res: i8)
    ensures
        res as int == option_order(crate::paths::opt_text(*a), crate::paths::opt_text(*b)),
{
    match (a, b) {
        (None, None) => 0,
        (None, Some(_)) => -1,
        (Some(_), None) => 1,
        (Some(x), Some(y)) => compare_text(x.as_str(), y.as_str()),
    }
}

/// The lexicographic order of two sequences of texts.
pub open spec fn texts_order(a: Seq<Seq<char>>, b: Seq<Seq<char>>) -> int
    decreases a.len(),
{
    if a.len() == 0 {
        if b.len() == 0 { 0 } else { -1 }
    } else if b.len() == 0 {
        1
    } else if text_order(a[0], b[0]) != 0 {
        text_order(a[0], b[0])
    } else {
        texts_order(a.drop_first(), b.drop_first())
    }
}

/// The order of two sequences of texts.
pub fn compare_texts(a: &Vec<String>, b: &Vec<String>) -> (res: i8)
    ensures
        res as int == texts_order(crate::text::views(a@), crate::text::views(b@)),
{
    let ghost av = crate::text::views(a@);
    let ghost bv = crate::text::views(b@);
    let n = a.len();
    let m = b.len();
    assert(av.skip(0) =~= av);
    assert(bv.skip(0) =~= bv);
    let mut i: usize = 0;
    while i < n && i < m
        invariant
            n == a.len(),
            m == b.len(),
            av == crate::text::views(a@),
            bv == crate::text::views(b@),
            i <= n,
            i <= m,
            texts_order(av, bv) == texts_order(av.skip(i as int), bv.skip(i as int)),
        decreases n - i,
    {
        let c = compare_text(a[i].as_str(), b[i].as_str());
        assert(av.skip(i as int)[0] == a@[i as int]@);
        assert(bv.skip(i as int)[0] == b@[i as int]@);
        if c != 0 {
            return c;
        }
        assert(av.skip(i as int).drop_first() =~= av.skip(i + 1));
        assert(bv.skip(i as int).drop_first() =~= bv.skip(i + 1));
        i += 1;
    }
    if i == n {
        if i == m { 0 } else { -1 }
    } else {
        1
    }
}

} // verus!
