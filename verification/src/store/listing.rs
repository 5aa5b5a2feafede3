//! Reading the history page by page by recency, and cutting the unpinned
//! entries down to a limit.
use vstd::prelude::*;

use super::links::{LinkFilter, LinkSel, id_in, remove_links};
use super::order::{lemma_insert_in_order_at, lemma_order_by_len, lemma_order_by_step, order_by, str_less, text_less, window};
use super::queries::{public_copy, public_entry};
use super::seqs::{lemma_filter_members, lemma_filter_pairwise, lemma_filter_step};
use super::{Database, DbView, EntryRow, EntryView, db_wf, entries_view};
use crate::models::{ClipboardEntry, ClipboardEntryView};

verus! {

/// Recency order of entries: the later last access first, and among equal
/// last accesses the higher id first.
pub open spec fn recent_before(a: EntryView, b: EntryView) -> bool {
    text_less(b.last_accessed, a.last_accessed) || (a.last_accessed == b.last_accessed && a.id
        > b.id)
}

/// Whether an entry is listed: it is live, and not pinned when only unpinned
/// entries are asked for.
pub open spec fn listed(e: EntryView, unpinned_only: bool) -> bool {
    !e.is_deleted && (!unpinned_only || !e.is_pinned)
}

/// The live entries in table order.
pub open spec fn live_entries(v: DbView) -> Seq<EntryView> {
    v.entries.filter(|e: EntryView| listed(e, false))
}

/// A page of the history: the live entries by recency, rows `offset ..`,
/// at most `limit` of them.
pub open spec fn spec_get_entries(v: DbView, limit: i64, offset: i64) -> Seq<ClipboardEntryView> {
    window(order_by(live_entries(v), |a: EntryView, b: EntryView| recent_before(a, b)), limit, offset).map_values(
        |e: EntryView| public_entry(e),
    )
}

/// The live entries that are not pinned, in table order.
pub open spec fn unpinned_entries(v: DbView) -> Seq<EntryView> {
    v.entries.filter(|e: EntryView| listed(e, true))
}

/// The ids of the entries that cleaning up to `max_count` removes: the live
/// unpinned entries past the `max_count` most recent ones.
pub open spec fn doomed_ids(v: DbView, max_count: i64) -> Seq<i64> {
    let keep: int = if max_count < 0 {
        0
    } else {
        max_count as int
    };
    order_by(unpinned_entries(v), |a: EntryView, b: EntryView| recent_before(a, b)).skip(
        keep,
    ).map_values(|e: EntryView| e.id)
}

/// Keeping at most `max_count` live unpinned entries: when there are more,
/// the least recently used ones are removed from the table for good, with
/// their folder links. The result is the number of live unpinned entries over
/// the limit.
pub open spec fn spec_cleanup_old_entries(v: DbView, max_count: i64) -> (DbView, usize) {
    let count = unpinned_entries(v).len();
    if count <= max_count {
        (v, 0)
    } else {
        let doomed = doomed_ids(v, max_count);
        (
            remove_links(
                DbView { entries: v.entries.filter(|e: EntryView| !doomed.contains(e.id)), ..v },
                LinkSel::OfEntries(doomed),
            ),
            (count - max_count) as usize,
        )
    }
}

/// The entries at the given positions of the table.
pub open spec fn at(es: Seq<EntryView>, idx: Seq<usize>) -> Seq<EntryView> {
    idx.map_values(|k: usize| es[k as int])
}

fn recent_before_exec(a: &EntryRow, b: &EntryRow) -> (r: bool)
    ensures
        r == recent_before(a@, b@),
{
    str_less(b.last_accessed.as_str(), a.last_accessed.as_str()) || (a.last_accessed
        == b.last_accessed && a.id > b.id)
}

/// The positions `idx` arranged by recency of their entries.
pub(crate) fn sort_by_recency(entries: &Vec<EntryRow>, idx: &Vec<usize>) -> (out: Vec<usize>)
    requires
        forall|k: int| 0 <= k < idx@.len() ==> idx@[k] < entries@.len(),
    ensures
        forall|k: int| 0 <= k < out@.len() ==> out@[k] < entries@.len(),
        at(entries_view(entries@), out@) == order_by(
            at(entries_view(entries@), idx@),
            |a: EntryView, b: EntryView| recent_before(a, b),
        ),
{
    let ghost es = entries_view(entries@);
    let ghost before = |a: EntryView, b: EntryView| recent_before(a, b);
    let ghost items = at(es, idx@);
    let n = idx.len();
    let mut out: Vec<usize> = Vec::new();
    let mut i: usize = 0;
    proof {
        assert(items.take(0) =~= Seq::<EntryView>::empty());
        assert(at(es, out@) =~= Seq::<EntryView>::empty());
    }
    while i < n
        invariant
            n == idx@.len(),
            i <= n,
            es == entries_view(entries@),
            before == (|a: EntryView, b: EntryView| recent_before(a, b)),
            items == at(es, idx@),
            forall|k: int| 0 <= k < idx@.len() ==> idx@[k] < entries@.len(),
            forall|k: int| 0 <= k < out@.len() ==> out@[k] < entries@.len(),
            at(es, out@) == order_by(items.take(i as int), before),
        decreases n - i,
    {
        let x = idx[i];
        let mut p: usize = 0;
        let m = out.len();
        let mut done = false;
        while p < m && !done
            invariant
                m == out@.len(),
                p <= m,
                done ==> p < m && before(es[x as int], at(es, out@)[p as int]),
                x < entries@.len(),
                es == entries_view(entries@),
                before == (|a: EntryView, b: EntryView| recent_before(a, b)),
                forall|k: int| 0 <= k < out@.len() ==> out@[k] < entries@.len(),
                forall|j: int| 0 <= j < p ==> !before(es[x as int], #[trigger] at(es, out@)[j]),
            decreases m - p + (if done {
                0int
            } else {
                1int
            }),
        {
            proof {
                assert(at(es, out@)[p as int] == es[out@[p as int] as int]);
            }
            if recent_before_exec(&entries[x], &entries[out[p]]) {
                done = true;
            } else {
                p = p + 1;
            }
        }
        proof {
            lemma_insert_in_order_at(at(es, out@), es[x as int], before, p as int);
            lemma_order_by_step(items, i as int, before);
        }
        let ghost old_out = out@;
        out.insert(p, x);
        proof {
            assert(at(es, out@) =~= at(es, old_out).insert(p as int, es[x as int]));
            assert(items[i as int] == es[x as int]);
        }
        i = i + 1;
    }
    proof {
        assert(items.take(n as int) =~= items);
    }
    out
}

/// The positions of the entries that pass `keep`, in table order.
fn positions_of_live(entries: &Vec<EntryRow>, unpinned_only: bool) -> (idx: Vec<usize>)
    ensures
        forall|k: int| 0 <= k < idx@.len() ==> idx@[k] < entries@.len(),
        at(entries_view(entries@), idx@) == entries_view(entries@).filter(
            |e: EntryView| listed(e, unpinned_only),
        ),
{
    let ghost es = entries_view(entries@);
    let ghost p = |e: EntryView| listed(e, unpinned_only);
    let n = entries.len();
    let mut idx: Vec<usize> = Vec::new();
    let mut i: usize = 0;
    proof {
        assert(at(es, idx@) =~= es.take(0).filter(p)) by {
            reveal(Seq::filter);
        }
    }
    while i < n
        invariant
            n == entries@.len(),
            es == entries_view(entries@),
            i <= n,
            p == (|e: EntryView| listed(e, unpinned_only)),
            forall|k: int| 0 <= k < idx@.len() ==> idx@[k] < i,
            at(es, idx@) == es.take(i as int).filter(p),
        decreases n - i,
    {
        proof {
            lemma_filter_step(es, p, i as int);
        }
        if !entries[i].is_deleted && (!unpinned_only || !entries[i].is_pinned) {
            let ghost old_idx = idx@;
            idx.push(i);
            proof {
                assert(at(es, idx@) =~= at(es, old_idx).push(es[i as int]));
            }
        }
        i = i + 1;
    }
    proof {
        assert(es.take(n as int) =~= es);
    }
    idx
}

/// Bounds of the rows `offset ..` of a sequence of `n`, at most `limit` of them.
fn window_bounds(n: usize, limit: i64, offset: i64) -> (r: (usize, usize))
    ensures
        r.0 <= r.1 <= n,
        forall|s: Seq<usize>|
            s.len() == n ==> #[trigger] window(s, limit, offset) == s.subrange(
                r.0 as int,
                r.1 as int,
            ),
        forall|s: Seq<EntryView>|
            s.len() == n ==> #[trigger] window(s, limit, offset) == s.subrange(
                r.0 as int,
                r.1 as int,
            ),
{
    let start: usize = if offset < 0 {
        0
    } else if offset as u64 > n as u64 {
        n
    } else {
        offset as usize
    };
    let rest = n - start;
    let end: usize = if limit < 0 || limit as u64 > rest as u64 {
        n
    } else {
        start + limit as usize
    };
    proof {
        assert forall|s: Seq<usize>| s.len() == n implies #[trigger] window(s, limit, offset)
            == s.subrange(start as int, end as int) by {
            assert(window(s, limit, offset) =~= s.subrange(start as int, end as int));
        }
        assert forall|s: Seq<EntryView>| s.len() == n implies #[trigger] window(
            s,
            limit,
            offset,
        ) == s.subrange(start as int, end as int) by {
            assert(window(s, limit, offset) =~= s.subrange(start as int, end as int));
        }
    }
    (start, end)
}

impl Database {
    /// A page of the history, most recent first (see `spec_get_entries`).
    pub fn get_entries(&self, limit: i64, offset: i64) -> (r: Vec<ClipboardEntry>)
        requires
            self.wf(),
        ensures
            r@.map_values(|e: ClipboardEntry| e@) == spec_get_entries(self@, limit, offset),
    {
        let ghost es = entries_view(self.entries@);
        let ghost before = |a: EntryView, b: EntryView| recent_before(a, b);
        let idx = positions_of_live(&self.entries, false);
        let sorted = sort_by_recency(&self.entries, &idx);
        proof {
            assert(live_entries(self@) == at(es, idx@));
            lemma_order_by_len(at(es, idx@), before);
        }
        let (start, end) = window_bounds(sorted.len(), limit, offset);
        let mut out: Vec<ClipboardEntry> = Vec::new();
        let mut k = start;
        while k < end
            invariant
                start <= k <= end,
                end <= sorted@.len(),
                es == entries_view(self.entries@),
                forall|j: int| 0 <= j < sorted@.len() ==> sorted@[j] < self.entries@.len(),
                out@.map_values(|e: ClipboardEntry| e@) == at(es, sorted@).subrange(
                    start as int,
                    k as int,
                ).map_values(|e: EntryView| public_entry(e)),
            decreases end - k,
        {
            let ghost before_out = out@;
            let c = public_copy(&self.entries[sorted[k]]);
            out.push(c);
            proof {
                assert(at(es, sorted@)[k as int] == es[sorted@[k as int] as int]);
                assert(c@ == public_entry(at(es, sorted@)[k as int]));
                assert(out@ == before_out.push(c));
                assert(out@.map_values(|e: ClipboardEntry| e@) =~= before_out.map_values(
                    |e: ClipboardEntry| e@,
                ).push(c@));
                assert(at(es, sorted@).subrange(start as int, k + 1) =~= at(es, sorted@).subrange(
                    start as int,
                    k as int,
                ).push(at(es, sorted@)[k as int]));
                assert(out@.map_values(|e: ClipboardEntry| e@) =~= at(es, sorted@).subrange(
                    start as int,
                    k + 1,
                ).map_values(|e: EntryView| public_entry(e)));
            }
            k = k + 1;
        }
        proof {
            assert(window(at(es, sorted@), limit, offset) == at(es, sorted@).subrange(
                start as int,
                end as int,
            ));
        }
        out
    }
}

/// Removing entries keeps the tables consistent.
pub proof fn lemma_filter_entries_wf(v: DbView, keep: spec_fn(EntryView) -> bool)
    requires
        db_wf(v),
    ensures
        db_wf(DbView { entries: v.entries.filter(keep), ..v }),
{
    let es = v.entries.filter(keep);
    lemma_filter_pairwise(v.entries, keep, |a: EntryView, b: EntryView| a.id < b.id);
    lemma_filter_pairwise(
        v.entries,
        keep,
        |a: EntryView, b: EntryView| a.content_hash != b.content_hash,
    );
    lemma_filter_members(v.entries, keep);
    assert forall|k: int| 0 <= k < es.len() implies es[k].id <= v.entry_seq
        && super::is_content_type_name(es[k].content_type) by {
        let j = choose|j: int| 0 <= j < v.entries.len() && #[trigger] v.entries[j] == es[k];
    }
}

impl Database {
    /// Removes for good every entry whose id is one of `doomed`.
    fn remove_entries_with_ids(&mut self, doomed: &Vec<i64>)
        requires
            old(self).wf(),
        ensures
            final(self).wf(),
            final(self)@ == (DbView {
                entries: old(self)@.entries.filter(|e: EntryView| !doomed@.contains(e.id)),
                ..old(self)@
            }),
    {
        let ghost v = self@;
        let ghost keep = |e: EntryView| !doomed@.contains(e.id);
        let mut rest: Vec<EntryRow> = Vec::new();
        std::mem::swap(&mut rest, &mut self.entries);
        let n = rest.len();
        let mut i: usize = 0;
        proof {
            assert(entries_view(self.entries@) =~= v.entries.take(0).filter(keep)) by {
                reveal(Seq::filter);
            }
            assert(entries_view(rest@) =~= v.entries.skip(0));
        }
        while i < n
            invariant
                i <= n,
                n == v.entries.len(),
                keep == (|e: EntryView| !doomed@.contains(e.id)),
                entries_view(rest@) == v.entries.skip(i as int),
                entries_view(self.entries@) == v.entries.take(i as int).filter(keep),
                self.folders == old(self).folders,
                self.links == old(self).links,
                self.settings == old(self).settings,
                self.entry_seq == old(self).entry_seq,
                self.folder_seq == old(self).folder_seq,
            decreases n - i,
        {
            let ghost before_rest = rest@;
            proof {
                assert(entries_view(rest@).len() == rest@.len());
                assert(v.entries.skip(i as int).len() == n - i);
                assert(entries_view(before_rest)[0] == before_rest[0]@);
                assert(v.entries.skip(i as int)[0] == v.entries[i as int]);
            }
            let row = rest.remove(0);
            proof {
                assert(row@ == v.entries[i as int]);
                assert forall|j: int| 0 <= j < rest@.len() implies entries_view(rest@)[j]
                    == v.entries.skip(i + 1)[j] by {
                    assert(rest@[j] == before_rest[j + 1]);
                    assert(entries_view(before_rest)[j + 1] == before_rest[j + 1]@);
                    assert(v.entries.skip(i as int)[j + 1] == v.entries[i + 1 + j]);
                }
                assert(entries_view(rest@) =~= v.entries.skip(i + 1));
                lemma_filter_step(v.entries, keep, i as int);
            }
            if !id_in(doomed, row.id) {
                let ghost before_kept = self.entries@;
                self.entries.push(row);
                proof {
                    assert(entries_view(self.entries@) =~= entries_view(before_kept).push(
                        v.entries[i as int],
                    ));
                }
            }
            i = i + 1;
        }
        proof {
            assert(v.entries.take(n as int) =~= v.entries);
            lemma_filter_entries_wf(v, keep);
            assert(self@.entries == v.entries.filter(keep));
            assert(self@.folders == v.folders);
            assert(self@.links == v.links);
            assert(self@.settings == v.settings);
        }
    }

    /// Keeps at most `max_count` live unpinned entries (see
    /// `spec_cleanup_old_entries`).
    pub fn cleanup_old_entries(&mut self, max_count: i64) -> (r: usize)
        requires
            old(self).wf(),
            unpinned_entries(old(self)@).len() <= i64::MAX,
            unpinned_entries(old(self)@).len() - max_count <= i64::MAX,
        ensures
            final(self).wf(),
            (final(self)@, r) == spec_cleanup_old_entries(old(self)@, max_count),
    {
        let ghost v = self@;
        let ghost es = entries_view(self.entries@);
        let ghost before = |a: EntryView, b: EntryView| recent_before(a, b);
        let idx = positions_of_live(&self.entries, true);
        let count = idx.len();
        proof {
            assert(unpinned_entries(v) == at(es, idx@));
        }
        if count as i64 <= max_count {
            return 0;
        }
        let to_delete: i64 = count as i64 - max_count;
        let keep: usize = if max_count < 0 {
            0
        } else {
            max_count as usize
        };
        let sorted = sort_by_recency(&self.entries, &idx);
        proof {
            lemma_order_by_len(at(es, idx@), before);
        }
        let mut doomed: Vec<i64> = Vec::new();
        let mut k = keep;
        let ghost ord = at(es, sorted@);
        while k < sorted.len()
            invariant
                keep <= k <= sorted@.len(),
                es == entries_view(self.entries@),
                ord == at(es, sorted@),
                forall|j: int| 0 <= j < sorted@.len() ==> sorted@[j] < self.entries@.len(),
                doomed@ == ord.subrange(keep as int, k as int).map_values(|e: EntryView| e.id),
            decreases sorted@.len() - k,
        {
            let ghost before_d = doomed@;
            doomed.push(self.entries[sorted[k]].id);
            proof {
                assert(ord[k as int] == es[sorted@[k as int] as int]);
                assert(doomed@ =~= ord.subrange(keep as int, k + 1).map_values(
                    |e: EntryView| e.id,
                ));
            }
            k = k + 1;
        }
        proof {
            assert(ord.subrange(keep as int, sorted@.len() as int) =~= ord.skip(keep as int));
            assert(doomed@ == doomed_ids(v, max_count));
        }
        self.remove_entries_with_ids(&doomed);
        self.delete_links(&LinkFilter::OfEntries(doomed));
        to_delete as usize
    }
}

} // verus!
