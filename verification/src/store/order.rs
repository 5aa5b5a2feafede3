//! Orders: text comparison, ordering by a relation, and windows of rows.
use vstd::prelude::*;

verus! {

/// Text order of the database: character by character by code point, a
/// proper prefix coming first. On well-formed UTF-8 this is the byte order in
/// which the database compares stored text.
pub open spec fn text_less(a: Seq<char>, b: Seq<char>) -> bool
    decreases a.len(),
{
    if a.len() == 0 {
        b.len() > 0
    } else if b.len() == 0 {
        false
    } else if a[0] != b[0] {
        (a[0] as u32) < (b[0] as u32)
    } else {
        text_less(a.drop_first(), b.drop_first())
    }
}

/// Whether `a` comes before `b` in the text order.
pub fn str_less(a: &str, b: &str) -> (res: bool)
    ensures
        res == text_less(a@, b@),
{
    let na = a.unicode_len();
    let nb = b.unicode_len();
    let mut i: usize = 0;
    proof {
        assert(a@.skip(0) =~= a@);
        assert(b@.skip(0) =~= b@);
    }
    while i < na && i < nb
        invariant
            na == a@.len(),
            nb == b@.len(),
            i <= na,
            i <= nb,
            text_less(a@, b@) == text_less(a@.skip(i as int), b@.skip(i as int)),
        decreases na - i,
    {
        let ca = a.get_char(i);
        let cb = b.get_char(i);
        if ca != cb {
            proof {
                assert(a@.skip(i as int)[0] == ca);
                assert(b@.skip(i as int)[0] == cb);
            }
            return (ca as u32) < (cb as u32);
        }
        proof {
            assert(a@.skip(i as int).drop_first() =~= a@.skip(i + 1));
            assert(b@.skip(i as int).drop_first() =~= b@.skip(i + 1));
        }
        i = i + 1;
    }
    proof {
        assert(a@.skip(i as int).len() == na - i);
        assert(b@.skip(i as int).len() == nb - i);
    }
    i == na && i < nb
}

/// `x` put into the ordered sequence `s` in front of the first element that
/// it comes before.
pub open spec fn insert_in_order<T>(s: Seq<T>, x: T, before: spec_fn(T, T) -> bool) -> Seq<T>
    decreases s.len(),
{
    if s.len() == 0 {
        seq![x]
    } else if before(x, s[0]) {
        seq![x] + s
    } else {
        seq![s[0]] + insert_in_order(s.drop_first(), x, before)
    }
}

/// The elements of `s` arranged by the order `before`: each element in turn
/// put into place among the ones before it.
pub open spec fn order_by<T>(s: Seq<T>, before: spec_fn(T, T) -> bool) -> Seq<T>
    decreases s.len(),
{
    if s.len() == 0 {
        Seq::empty()
    } else {
        insert_in_order(order_by(s.drop_last(), before), s.last(), before)
    }
}

/// Rows `offset ..` of `s`, at most `limit` of them; a negative offset counts
/// as zero and a negative limit as no limit.
pub open spec fn window<T>(s: Seq<T>, limit: i64, offset: i64) -> Seq<T> {
    let start: int = if offset < 0 {
        0
    } else if offset > s.len() {
        s.len() as int
    } else {
        offset as int
    };
    let rest = s.skip(start);
    if limit < 0 || limit > rest.len() {
        rest
    } else {
        rest.take(limit as int)
    }
}

pub proof fn lemma_insert_in_order_at<T>(
    s: Seq<T>,
    x: T,
    before: spec_fn(T, T) -> bool,
    p: int,
)
    requires
        0 <= p <= s.len(),
        forall|j: int| 0 <= j < p ==> !before(x, #[trigger] s[j]),
        p == s.len() || before(x, s[p]),
    ensures
        insert_in_order(s, x, before) == s.insert(p, x),
    decreases s.len(),
{
    if s.len() == 0 {
        assert(seq![x] =~= s.insert(p, x));
    } else if p == 0 {
        assert(seq![x] + s =~= s.insert(p, x));
    } else {
        assert(!before(x, s[0]));
        let t = s.drop_first();
        assert forall|j: int| 0 <= j < p - 1 implies !before(x, #[trigger] t[j]) by {
            assert(t[j] == s[j + 1]);
        }
        if p < s.len() {
            assert(t[p - 1] == s[p]);
        }
        lemma_insert_in_order_at(t, x, before, p - 1);
        assert(seq![s[0]] + t.insert(p - 1, x) =~= s.insert(p, x));
    }
}

pub proof fn lemma_order_by_len<T>(s: Seq<T>, before: spec_fn(T, T) -> bool)
    ensures
        order_by(s, before).len() == s.len(),
    decreases s.len(),
{
    if s.len() > 0 {
        lemma_order_by_len(s.drop_last(), before);
        lemma_insert_in_order_len(order_by(s.drop_last(), before), s.last(), before);
    }
}

pub proof fn lemma_insert_in_order_len<T>(s: Seq<T>, x: T, before: spec_fn(T, T) -> bool)
    ensures
        insert_in_order(s, x, before).len() == s.len() + 1,
    decreases s.len(),
{
    if s.len() > 0 && !before(x, s[0]) {
        lemma_insert_in_order_len(s.drop_first(), x, before);
    }
}

/// One step of building `order_by` over a growing prefix.
pub proof fn lemma_order_by_step<T>(s: Seq<T>, i: int, before: spec_fn(T, T) -> bool)
    requires
        0 <= i < s.len(),
    ensures
        order_by(s.take(i + 1), before) == insert_in_order(order_by(s.take(i), before), s[i], before),
{
    assert(s.take(i + 1).drop_last() =~= s.take(i));
}

} // verus!
