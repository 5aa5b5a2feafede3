//! Facts about filtering sequences.
use vstd::prelude::*;

verus! {

/// Filtering a growing prefix one element at a time.
pub proof fn lemma_filter_step<T>(s: Seq<T>, p: spec_fn(T) -> bool, i: int)
    requires
        0 <= i < s.len(),
    ensures
        s.take(i + 1).filter(p) == (if p(s[i]) {
            s.take(i).filter(p).push(s[i])
        } else {
            s.take(i).filter(p)
        }),
{
    reveal(Seq::filter);
    assert(s.take(i + 1).drop_last() =~= s.take(i));
    assert(s.take(i + 1).last() == s[i]);
}

pub proof fn lemma_filter_empty<T>(s: Seq<T>, p: spec_fn(T) -> bool)
    requires
        s.len() == 0,
    ensures
        s.filter(p) =~= Seq::<T>::empty(),
{
    reveal(Seq::filter);
}

/// Every element kept by a filter stands in the sequence, at a position no
/// later than its place among the kept ones allows.
pub proof fn lemma_filter_members<T>(s: Seq<T>, p: spec_fn(T) -> bool)
    ensures
        s.filter(p).len() <= s.len(),
        forall|i: int|
            0 <= i < s.filter(p).len() ==> p(s.filter(p)[i]) && exists|k: int|
                0 <= k < s.len() && #[trigger] s[k] == s.filter(p)[i],
    decreases s.len(),
{
    reveal(Seq::filter);
    if s.len() > 0 {
        let d = s.drop_last();
        lemma_filter_members(d, p);
        let fd = d.filter(p);
        let f = s.filter(p);
        assert forall|i: int| 0 <= i < f.len() implies p(f[i]) && exists|k: int|
            0 <= k < s.len() && #[trigger] s[k] == f[i] by {
            if i < fd.len() {
                assert(f[i] == fd[i]);
                let k = choose|k: int| 0 <= k < d.len() && #[trigger] d[k] == fd[i];
                assert(s[k] == f[i]);
            } else {
                assert(f[i] == s[s.len() - 1]);
            }
        }
    }
}

/// A filter keeps every relation that holds between earlier and later
/// elements of the sequence.
pub proof fn lemma_filter_pairwise<T>(
    s: Seq<T>,
    p: spec_fn(T) -> bool,
    r: spec_fn(T, T) -> bool,
)
    requires
        forall|i: int, j: int| 0 <= i < j < s.len() ==> r(s[i], s[j]),
    ensures
        forall|i: int, j: int|
            0 <= i < j < s.filter(p).len() ==> r(s.filter(p)[i], s.filter(p)[j]),
    decreases s.len(),
{
    reveal(Seq::filter);
    if s.len() > 0 {
        let d = s.drop_last();
        assert forall|i: int, j: int| 0 <= i < j < d.len() implies r(d[i], d[j]) by {
            assert(d[i] == s[i] && d[j] == s[j]);
        }
        lemma_filter_pairwise(d, p, r);
        lemma_filter_members(d, p);
        let fd = d.filter(p);
        let f = s.filter(p);
        assert forall|i: int, j: int| 0 <= i < j < f.len() implies r(f[i], f[j]) by {
            if j < fd.len() {
                assert(f[i] == fd[i] && f[j] == fd[j]);
            } else {
                assert(f[j] == s[s.len() - 1]);
                assert(f[i] == fd[i]);
                let k = choose|k: int| 0 <= k < d.len() && #[trigger] d[k] == fd[i];
                assert(s[k] == f[i]);
            }
        }
    }
}

/// The elements a filter keeps and the ones it drops add up to the sequence.
pub proof fn lemma_filter_complement_len<T>(s: Seq<T>, p: spec_fn(T) -> bool)
    ensures
        s.filter(p).len() + s.filter(|x: T| !p(x)).len() == s.len(),
    decreases s.len(),
{
    reveal(Seq::filter);
    if s.len() > 0 {
        lemma_filter_complement_len(s.drop_last(), p);
    }
}

/// A filter that keeps everything gives back the sequence.
pub proof fn lemma_filter_all<T>(s: Seq<T>, p: spec_fn(T) -> bool)
    requires
        forall|i: int| 0 <= i < s.len() ==> p(s[i]),
    ensures
        s.filter(p) == s,
    decreases s.len(),
{
    reveal(Seq::filter);
    if s.len() > 0 {
        let d = s.drop_last();
        assert forall|i: int| 0 <= i < d.len() implies p(d[i]) by {
            assert(d[i] == s[i]);
        }
        lemma_filter_all(d, p);
        assert(d.push(s.last()) =~= s);
    }
}

/// A filter that keeps nothing gives the empty sequence.
pub proof fn lemma_filter_none<T>(s: Seq<T>, p: spec_fn(T) -> bool)
    requires
        forall|i: int| 0 <= i < s.len() ==> !p(s[i]),
    ensures
        s.filter(p).len() == 0,
    decreases s.len(),
{
    reveal(Seq::filter);
    if s.len() > 0 {
        let d = s.drop_last();
        assert forall|i: int| 0 <= i < d.len() implies !p(d[i]) by {
            assert(d[i] == s[i]);
        }
        lemma_filter_none(d, p);
    }
}

/// An element kept by the filter is found among the kept ones.
pub proof fn lemma_filter_keeps<T>(s: Seq<T>, p: spec_fn(T) -> bool, k: int)
    requires
        0 <= k < s.len(),
        p(s[k]),
    ensures
        exists|i: int| 0 <= i < s.filter(p).len() && s.filter(p)[i] == s[k],
    decreases s.len(),
{
    reveal(Seq::filter);
    let d = s.drop_last();
    if k == s.len() - 1 {
        assert(s.filter(p)[s.filter(p).len() - 1] == s[k]);
    } else {
        assert(d[k] == s[k]);
        lemma_filter_keeps(d, p, k);
        let i = choose|i: int| 0 <= i < d.filter(p).len() && d.filter(p)[i] == d[k];
        assert(s.filter(p)[i] == s[k]);
    }
}

} // verus!
