//! Searching the previews with the database's LIKE pattern matching.
use vstd::prelude::*;

use super::listing::{at, listed, recent_before, sort_by_recency};
use super::order::{lemma_order_by_len, order_by, window};
use super::queries::{public_copy, public_entry};
use super::seqs::lemma_filter_step;
use super::{Database, DbView, EntryView, entries_view};
use crate::models::{ClipboardEntry, ClipboardEntryView};

verus! {

/// A character with ASCII capitals folded to small letters, as a code point.
pub open spec fn fold_ascii(c: char) -> u32 {
    if 65 <= (c as u32) && (c as u32) <= 90 {
        ((c as u32) + 32) as u32
    } else {
        c as u32
    }
}

/// The database's LIKE match of text `s` against pattern `p`: `%` stands for
/// any run of characters, `_` for any one character, and other characters
/// match themselves with ASCII letters compared without regard to case.
pub open spec fn like_match(p: Seq<char>, s: Seq<char>) -> bool
    decreases p.len(), s.len(),
{
    if p.len() == 0 {
        s.len() == 0
    } else if p[0] == '%' {
        like_match(p.drop_first(), s) || (s.len() > 0 && like_match(p, s.drop_first()))
    } else if s.len() == 0 {
        false
    } else if p[0] == '_' {
        like_match(p.drop_first(), s.drop_first())
    } else {
        fold_ascii(p[0]) == fold_ascii(s[0]) && like_match(p.drop_first(), s.drop_first())
    }
}

/// The search pattern for `query`: the query with any text allowed before and
/// after it.
pub open spec fn search_pattern(query: Seq<char>) -> Seq<char> {
    seq!['%'] + query + seq!['%']
}

/// The live entries whose preview matches the search pattern of `query`, by
/// recency, at most `limit` of them.
pub open spec fn spec_search_entries(v: DbView, query: Seq<char>, limit: i64) -> Seq<
    ClipboardEntryView,
> {
    window(
        order_by(
            v.entries.filter(
                |e: EntryView| listed(e, false) && like_match(search_pattern(query), e.text_preview),
            ),
            |a: EntryView, b: EntryView| recent_before(a, b),
        ),
        limit,
        0,
    ).map_values(|e: EntryView| public_entry(e))
}

fn fold_exec(c: char) -> (r: u32)
    ensures
        r == fold_ascii(c),
{
    let u = c as u32;
    if 65 <= u && u <= 90 {
        u + 32
    } else {
        u
    }
}

/// The characters of a string slice.
fn chars_of(s: &str) -> (r: Vec<char>)
    ensures
        r@ == s@,
{
    let n = s.unicode_len();
    let mut r: Vec<char> = Vec::new();
    let mut i: usize = 0;
    while i < n
        invariant
            n == s@.len(),
            i <= n,
            r@ == s@.take(i as int),
        decreases n - i,
    {
        let c = s.get_char(i);
        r.push(c);
        proof {
            assert(r@ =~= s@.take(i + 1));
        }
        i = i + 1;
    }
    proof {
        assert(s@.take(n as int) =~= s@);
    }
    r
}

/// Whether text `s` matches pattern `p` (see `like_match`).
pub fn like(p: &Vec<char>, s: &Vec<char>) -> (r: bool)
    ensures
        r == like_match(p@, s@),
{
    let m = p.len();
    let n = s.len();
    // next[j] holds the match of p[i + 1 ..] against s[j ..]
    let mut next: Vec<bool> = Vec::new();
    let mut j: usize = 0;
    while j < n
        invariant
            n == s@.len(),
            m == p@.len(),
            j <= n,
            next@.len() == j,
            forall|k: int| 0 <= k < j ==> next@[k] == like_match(p@.skip(m as int), s@.skip(k)),
        decreases n - j,
    {
        proof {
            assert(p@.skip(m as int).len() == 0);
        }
        next.push(false);
        j = j + 1;
    }
    next.push(true);
    proof {
        assert(p@.skip(m as int).len() == 0);
        assert(s@.skip(n as int).len() == 0);
    }
    let mut i: usize = m;
    while i > 0
        invariant
            n == s@.len(),
            m == p@.len(),
            i <= m,
            next@.len() == n + 1,
            forall|k: int| 0 <= k <= n ==> next@[k] == like_match(p@.skip(i as int), s@.skip(k)),
        decreases i,
    {
        let ii = i - 1;
        let pc = p[ii];
        let mut cur: Vec<bool> = Vec::new();
        let mut k: usize = 0;
        while k < n
            invariant
                n == s@.len(),
                k <= n,
                cur@.len() == k,
            decreases n - k,
        {
            cur.push(false);
            k = k + 1;
        }
        cur.push(false);
        // fill cur from the back
        let mut jj: usize = n;
        proof {
            let ps = p@.skip(ii as int);
            assert(ps.len() > 0);
            assert(ps[0] == pc);
            assert(ps.drop_first() =~= p@.skip(ii + 1));
            assert(s@.skip(n as int).len() == 0);
        }
        let last = if pc == '%' {
            next[n]
        } else {
            false
        };
        cur.set(n, last);
        while jj > 0
            invariant
                n == s@.len(),
                m == p@.len(),
                ii < m,
                pc == p@[ii as int],
                jj <= n + 1,
                cur@.len() == n + 1,
                next@.len() == n + 1,
                forall|q: int| 0 <= q <= n ==> next@[q] == like_match(p@.skip(ii + 1), s@.skip(q)),
                jj <= n,
                forall|q: int| jj <= q <= n ==> cur@[q] == like_match(p@.skip(ii as int), s@.skip(q)),
            decreases jj,
        {
            let j = jj - 1;
            let ghost ps = p@.skip(ii as int);
            let ghost ss = s@.skip(j as int);
            proof {
                assert(ps.len() > 0);
                assert(ps[0] == pc);
                assert(ps.drop_first() =~= p@.skip(ii + 1));
                if j < n {
                    assert(ss.drop_first() =~= s@.skip(j + 1));
                    assert(ss[0] == s@[j as int]);
                }
            }
            let val = if pc == '%' {
                next[j] || cur[j + 1]
            } else if pc == '_' {
                next[j + 1]
            } else {
                fold_exec(pc) == fold_exec(s[j]) && next[j + 1]
            };
            proof {
                assert(val == like_match(ps, ss));
            }
            cur.set(j, val);
            jj = j;
        }
        next = cur;
        i = ii;
    }
    proof {
        assert(p@.skip(0) =~= p@);
        assert(s@.skip(0) =~= s@);
    }
    next[0]
}

impl Database {
    /// The live entries whose preview contains `query` in the sense of the
    /// database's LIKE, most recent first, at most `limit` of them.
    pub fn search_entries(&self, query: &str, limit: i64) -> (r: Vec<ClipboardEntry>)
        requires
            self.wf(),
        ensures
            r@.map_values(|e: ClipboardEntry| e@) == spec_search_entries(self@, query@, limit),
    {
        let ghost v = self@;
        let ghost es = entries_view(self.entries@);
        let ghost pred = |e: EntryView|
            listed(e, false) && like_match(search_pattern(query@), e.text_preview);
        let ghost before = |a: EntryView, b: EntryView| recent_before(a, b);
        let mut pattern: Vec<char> = Vec::new();
        pattern.push('%');
        let q = chars_of(query);
        let mut t: usize = 0;
        while t < q.len()
            invariant
                t <= q@.len(),
                pattern@ == seq!['%'] + q@.take(t as int),
            decreases q@.len() - t,
        {
            pattern.push(q[t]);
            proof {
                assert(pattern@ =~= seq!['%'] + q@.take(t + 1));
            }
            t = t + 1;
        }
        pattern.push('%');
        proof {
            assert(q@.take(q@.len() as int) =~= q@);
            assert(pattern@ =~= search_pattern(query@));
        }
        let n = self.entries.len();
        let mut idx: Vec<usize> = Vec::new();
        let mut i: usize = 0;
        proof {
            assert(at(es, idx@) =~= es.take(0).filter(pred)) by {
                reveal(Seq::filter);
            }
        }
        while i < n
            invariant
                n == self.entries@.len(),
                es == entries_view(self.entries@),
                i <= n,
                pattern@ == search_pattern(query@),
                pred == (|e: EntryView|
                    listed(e, false) && like_match(search_pattern(query@), e.text_preview)),
                forall|k: int| 0 <= k < idx@.len() ==> idx@[k] < i,
                at(es, idx@) == es.take(i as int).filter(pred),
            decreases n - i,
        {
            proof {
                lemma_filter_step(es, pred, i as int);
            }
            if !self.entries[i].is_deleted {
                let text = chars_of(self.entries[i].text_preview.as_str());
                if like(&pattern, &text) {
                    let ghost old_idx = idx@;
                    idx.push(i);
                    proof {
                        assert(at(es, idx@) =~= at(es, old_idx).push(es[i as int]));
                    }
                }
            }
            i = i + 1;
        }
        proof {
            assert(es.take(n as int) =~= es);
        }
        let sorted = sort_by_recency(&self.entries, &idx);
        proof {
            lemma_order_by_len(at(es, idx@), before);
        }
        let total = sorted.len();
        let end: usize = if limit < 0 || limit as u64 > total as u64 {
            total
        } else {
            limit as usize
        };
        let ghost ord = at(es, sorted@);
        proof {
            assert(window(ord, limit, 0) =~= ord.subrange(0, end as int));
        }
        let mut out: Vec<ClipboardEntry> = Vec::new();
        let mut k: usize = 0;
        while k < end
            invariant
                k <= end,
                end <= sorted@.len(),
                es == entries_view(self.entries@),
                ord == at(es, sorted@),
                forall|j: int| 0 <= j < sorted@.len() ==> sorted@[j] < self.entries@.len(),
                out@.map_values(|e: ClipboardEntry| e@) == ord.subrange(0, k as int).map_values(
                    |e: EntryView| public_entry(e),
                ),
            decreases end - k,
        {
            let ghost before_out = out@;
            let c = public_copy(&self.entries[sorted[k]]);
            out.push(c);
            proof {
                assert(ord[k as int] == es[sorted@[k as int] as int]);
                assert(out@ == before_out.push(c));
                assert(out@.map_values(|e: ClipboardEntry| e@) =~= before_out.map_values(
                    |e: ClipboardEntry| e@,
                ).push(c@));
                assert(ord.subrange(0, k + 1) =~= ord.subrange(0, k as int).push(ord[k as int]));
                assert(out@.map_values(|e: ClipboardEntry| e@) =~= ord.subrange(
                    0,
                    k + 1,
                ).map_values(|e: EntryView| public_entry(e)));
            }
            k = k + 1;
        }
        out
    }
}

} // verus!
