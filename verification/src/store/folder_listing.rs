//! Reading folders: the entries of one folder, and the folder list with
//! entry counts.
use vstd::prelude::*;

use super::order::{lemma_insert_in_order_at, lemma_order_by_len, lemma_order_by_step, order_by, str_less, text_less, window};
use super::queries::{find_entry, has_id, has_live_id, lemma_pos_of_id, pos_of_id, public_copy, public_entry};
use super::seqs::lemma_filter_step;
use super::{Database, DbView, EntryRow, EntryView, FolderEntryRow, FolderView, LinkView, db_wf, entries_view, folders_view, links_view};
use crate::models::{ClipboardEntry, ClipboardEntryView, Folder, FolderWithEntryCount, FolderWithEntryCountView};

verus! {

/// A live entry found in a folder, with the time it was put there.
pub struct FolderHit {
    pub entry: EntryView,
    pub added_at: Seq<char>,
}

/// Order of the entries of a folder: the latest put in first, and among
/// equal times the higher entry id first.
pub open spec fn hit_before(a: FolderHit, b: FolderHit) -> bool {
    text_less(b.added_at, a.added_at) || (a.added_at == b.added_at && a.entry.id > b.entry.id)
}

/// Whether the link belongs to folder `folder_id` and leads to a live entry.
pub open spec fn link_in_folder(v: DbView, folder_id: i64, l: LinkView) -> bool {
    l.folder_id == folder_id && has_live_id(v.entries, l.entry_id)
}

pub open spec fn hit_of(v: DbView, l: LinkView) -> FolderHit {
    FolderHit { entry: v.entries[pos_of_id(v.entries, l.entry_id)], added_at: l.added_at }
}

/// The live entries of folder `folder_id`, in link order.
pub open spec fn folder_hits(v: DbView, folder_id: i64) -> Seq<FolderHit> {
    v.links.filter(|l: LinkView| link_in_folder(v, folder_id, l)).map_values(
        |l: LinkView| hit_of(v, l),
    )
}

/// A page of the live entries of folder `folder_id`, latest put in first.
pub open spec fn spec_get_folder_entries(
    v: DbView,
    folder_id: i64,
    limit: i64,
    offset: i64,
) -> Seq<ClipboardEntryView> {
    window(
        order_by(folder_hits(v, folder_id), |a: FolderHit, b: FolderHit| hit_before(a, b)),
        limit,
        offset,
    ).map_values(|h: FolderHit| public_entry(h.entry))
}

/// Order of the folder list: by sort order, then by id.
pub open spec fn folder_before(a: FolderView, b: FolderView) -> bool {
    a.sort_order < b.sort_order || (a.sort_order == b.sort_order && a.id < b.id)
}

/// The number of live entries in folder `folder_id`.
pub open spec fn entry_count(v: DbView, folder_id: i64) -> nat {
    v.links.filter(|l: LinkView| link_in_folder(v, folder_id, l)).len()
}

pub open spec fn with_count(f: FolderView, count: i64) -> FolderWithEntryCountView {
    FolderWithEntryCountView {
        id: f.id,
        name: f.name,
        is_default: f.is_default,
        sort_order: f.sort_order,
        created_at: f.created_at,
        updated_at: f.updated_at,
        entry_count: count,
    }
}

/// All folders in list order, each with the number of live entries in it.
pub open spec fn spec_list_folders(v: DbView) -> Seq<FolderWithEntryCountView> {
    order_by(v.folders, |a: FolderView, b: FolderView| folder_before(a, b)).map_values(
        |f: FolderView| with_count(f, entry_count(v, f.id) as i64),
    )
}

/// The hits at the given (entry position, link position) pairs.
pub open spec fn hits_at(es: Seq<EntryView>, ls: Seq<LinkView>, ps: Seq<(usize, usize)>) -> Seq<
    FolderHit,
> {
    ps.map_values(|p: (usize, usize)| FolderHit { entry: es[p.0 as int], added_at: ls[p.1 as int].added_at })
}

pub open spec fn folders_at(fs: Seq<FolderView>, idx: Seq<usize>) -> Seq<FolderView> {
    idx.map_values(|k: usize| fs[k as int])
}

/// With unique ids, a live entry with id `id` is the one at its position.
pub proof fn lemma_live_id(es: Seq<EntryView>, id: i64)
    requires
        forall|i: int, j: int| 0 <= i < j < es.len() ==> es[i].id < es[j].id,
    ensures
        has_live_id(es, id) == (has_id(es, id) && !es[pos_of_id(es, id)].is_deleted),
{
    if has_live_id(es, id) {
        let k = choose|k: int| 0 <= k < es.len() && es[k].id == id && !es[k].is_deleted;
        lemma_pos_of_id(es, id, k);
    }
    if has_id(es, id) {
        let k = choose|k: int| 0 <= k < es.len() && es[k].id == id;
        lemma_pos_of_id(es, id, k);
    }
}

fn hit_before_exec(a: &EntryRow, al: &FolderEntryRow, b: &EntryRow, bl: &FolderEntryRow) -> (r: bool)
    ensures
        r == hit_before(
            FolderHit { entry: a@, added_at: al.added_at@ },
            FolderHit { entry: b@, added_at: bl.added_at@ },
        ),
{
    str_less(bl.added_at.as_str(), al.added_at.as_str()) || (al.added_at == bl.added_at && a.id
        > b.id)
}

fn folder_before_exec(a: &Folder, b: &Folder) -> (r: bool)
    ensures
        r == folder_before(a@, b@),
{
    a.sort_order < b.sort_order || (a.sort_order == b.sort_order && a.id < b.id)
}

/// The pairs arranged in folder order.
fn sort_hits(entries: &Vec<EntryRow>, links: &Vec<FolderEntryRow>, ps: &Vec<(usize, usize)>) -> (out:
    Vec<(usize, usize)>)
    requires
        forall|k: int|
            0 <= k < ps@.len() ==> ps@[k].0 < entries@.len() && ps@[k].1 < links@.len(),
    ensures
        forall|k: int|
            0 <= k < out@.len() ==> out@[k].0 < entries@.len() && out@[k].1 < links@.len(),
        hits_at(entries_view(entries@), links_view(links@), out@) == order_by(
            hits_at(entries_view(entries@), links_view(links@), ps@),
            |a: FolderHit, b: FolderHit| hit_before(a, b),
        ),
{
    let ghost es = entries_view(entries@);
    let ghost ls = links_view(links@);
    let ghost before = |a: FolderHit, b: FolderHit| hit_before(a, b);
    let ghost items = hits_at(es, ls, ps@);
    let n = ps.len();
    let mut out: Vec<(usize, usize)> = Vec::new();
    let mut i: usize = 0;
    proof {
        assert(items.take(0) =~= Seq::<FolderHit>::empty());
        assert(hits_at(es, ls, out@) =~= Seq::<FolderHit>::empty());
    }
    while i < n
        invariant
            n == ps@.len(),
            i <= n,
            es == entries_view(entries@),
            ls == links_view(links@),
            before == (|a: FolderHit, b: FolderHit| hit_before(a, b)),
            items == hits_at(es, ls, ps@),
            forall|k: int|
                0 <= k < ps@.len() ==> ps@[k].0 < entries@.len() && ps@[k].1 < links@.len(),
            forall|k: int|
                0 <= k < out@.len() ==> out@[k].0 < entries@.len() && out@[k].1 < links@.len(),
            hits_at(es, ls, out@) == order_by(items.take(i as int), before),
        decreases n - i,
    {
        let x = ps[i];
        let ghost hx = FolderHit { entry: es[x.0 as int], added_at: ls[x.1 as int].added_at };
        let mut p: usize = 0;
        let m = out.len();
        let mut done = false;
        while p < m && !done
            invariant
                m == out@.len(),
                p <= m,
                x.0 < entries@.len(),
                x.1 < links@.len(),
                es == entries_view(entries@),
                ls == links_view(links@),
                hx == (FolderHit { entry: es[x.0 as int], added_at: ls[x.1 as int].added_at }),
                before == (|a: FolderHit, b: FolderHit| hit_before(a, b)),
                forall|k: int|
                    0 <= k < out@.len() ==> out@[k].0 < entries@.len() && out@[k].1
                        < links@.len(),
                done ==> p < m && before(hx, hits_at(es, ls, out@)[p as int]),
                forall|j: int| 0 <= j < p ==> !before(hx, #[trigger] hits_at(es, ls, out@)[j]),
            decreases m - p + (if done {
                0int
            } else {
                1int
            }),
        {
            let y = out[p];
            proof {
                assert(hits_at(es, ls, out@)[p as int] == FolderHit {
                    entry: es[y.0 as int],
                    added_at: ls[y.1 as int].added_at,
                });
            }
            if hit_before_exec(&entries[x.0], &links[x.1], &entries[y.0], &links[y.1]) {
                done = true;
            } else {
                p = p + 1;
            }
        }
        proof {
            lemma_insert_in_order_at(hits_at(es, ls, out@), hx, before, p as int);
            lemma_order_by_step(items, i as int, before);
        }
        let ghost old_out = out@;
        out.insert(p, x);
        proof {
            assert(hits_at(es, ls, out@) =~= hits_at(es, ls, old_out).insert(p as int, hx));
            assert(items[i as int] == hx);
        }
        i = i + 1;
    }
    proof {
        assert(items.take(n as int) =~= items);
    }
    out
}

/// The folder positions arranged in list order.
fn sort_folders(folders: &Vec<Folder>) -> (out: Vec<usize>)
    ensures
        forall|k: int| 0 <= k < out@.len() ==> out@[k] < folders@.len(),
        folders_at(folders_view(folders@), out@) == order_by(
            folders_view(folders@),
            |a: FolderView, b: FolderView| folder_before(a, b),
        ),
{
    let ghost fs = folders_view(folders@);
    let ghost before = |a: FolderView, b: FolderView| folder_before(a, b);
    let n = folders.len();
    let mut out: Vec<usize> = Vec::new();
    let mut i: usize = 0;
    proof {
        assert(fs.take(0) =~= Seq::<FolderView>::empty());
        assert(folders_at(fs, out@) =~= Seq::<FolderView>::empty());
    }
    while i < n
        invariant
            n == folders@.len(),
            i <= n,
            fs == folders_view(folders@),
            before == (|a: FolderView, b: FolderView| folder_before(a, b)),
            forall|k: int| 0 <= k < out@.len() ==> out@[k] < folders@.len(),
            folders_at(fs, out@) == order_by(fs.take(i as int), before),
        decreases n - i,
    {
        let mut p: usize = 0;
        let m = out.len();
        let mut done = false;
        while p < m && !done
            invariant
                m == out@.len(),
                p <= m,
                i < folders@.len(),
                fs == folders_view(folders@),
                before == (|a: FolderView, b: FolderView| folder_before(a, b)),
                forall|k: int| 0 <= k < out@.len() ==> out@[k] < folders@.len(),
                done ==> p < m && before(fs[i as int], folders_at(fs, out@)[p as int]),
                forall|j: int| 0 <= j < p ==> !before(fs[i as int], #[trigger] folders_at(fs, out@)[j]),
            decreases m - p + (if done {
                0int
            } else {
                1int
            }),
        {
            proof {
                assert(folders_at(fs, out@)[p as int] == fs[out@[p as int] as int]);
            }
            if folder_before_exec(&folders[i], &folders[out[p]]) {
                done = true;
            } else {
                p = p + 1;
            }
        }
        proof {
            lemma_insert_in_order_at(folders_at(fs, out@), fs[i as int], before, p as int);
            lemma_order_by_step(fs, i as int, before);
        }
        let ghost old_out = out@;
        out.insert(p, i);
        proof {
            assert(folders_at(fs, out@) =~= folders_at(fs, old_out).insert(p as int, fs[i as int]));
        }
        i = i + 1;
    }
    proof {
        assert(fs.take(n as int) =~= fs);
    }
    out
}

impl Database {
    /// The (entry position, link position) pairs of the live entries of
    /// folder `folder_id`, in link order.
    fn folder_pairs(&self, folder_id: i64) -> (ps: Vec<(usize, usize)>)
        requires
            self.wf(),
        ensures
            forall|k: int|
                0 <= k < ps@.len() ==> ps@[k].0 < self.entries@.len() && ps@[k].1
                    < self.links@.len(),
            hits_at(entries_view(self.entries@), links_view(self.links@), ps@) == folder_hits(
                self@,
                folder_id,
            ),
    {
        let ghost v = self@;
        let ghost es = entries_view(self.entries@);
        let ghost ls = links_view(self.links@);
        let ghost p = |l: LinkView| link_in_folder(v, folder_id, l);
        let ghost h = |l: LinkView| hit_of(v, l);
        let n = self.links.len();
        let mut ps: Vec<(usize, usize)> = Vec::new();
        let mut i: usize = 0;
        proof {
            assert(hits_at(es, ls, ps@) =~= ls.take(0).filter(p).map_values(h)) by {
                reveal(Seq::filter);
            }
        }
        while i < n
            invariant
                n == self.links@.len(),
                self@ == v,
                db_wf(v),
                es == v.entries,
                ls == v.links,
                es == entries_view(self.entries@),
                ls == links_view(self.links@),
                i <= n,
                p == (|l: LinkView| link_in_folder(v, folder_id, l)),
                h == (|l: LinkView| hit_of(v, l)),
                forall|k: int|
                    0 <= k < ps@.len() ==> ps@[k].0 < self.entries@.len() && ps@[k].1 < i,
                hits_at(es, ls, ps@) == ls.take(i as int).filter(p).map_values(h),
            decreases n - i,
        {
            proof {
                lemma_filter_step(ls, p, i as int);
                lemma_live_id(es, ls[i as int].entry_id);
            }
            if self.links[i].folder_id == folder_id {
                match find_entry(&self.entries, self.links[i].entry_id) {
                    Some(k) => {
                        if !self.entries[k].is_deleted {
                            let ghost old_ps = ps@;
                            ps.push((k, i));
                            proof {
                                assert(hits_at(es, ls, ps@) =~= hits_at(es, ls, old_ps).push(
                                    h(ls[i as int]),
                                ));
                                assert(ls.take(i as int).filter(p).push(ls[i as int]).map_values(
                                    h,
                                ) =~= ls.take(i as int).filter(p).map_values(h).push(
                                    h(ls[i as int]),
                                ));
                            }
                        }
                    },
                    None => {},
                }
            }
            i = i + 1;
        }
        proof {
            assert(ls.take(n as int) =~= ls);
        }
        ps
    }

    /// A page of the live entries of folder `folder_id`, latest put in first.
    pub fn get_folder_entries(&self, folder_id: i64, limit: i64, offset: i64) -> (r: Vec<
        ClipboardEntry,
    >)
        requires
            self.wf(),
        ensures
            r@.map_values(|e: ClipboardEntry| e@) == spec_get_folder_entries(
                self@,
                folder_id,
                limit,
                offset,
            ),
    {
        let ghost es = entries_view(self.entries@);
        let ghost ls = links_view(self.links@);
        let ghost before = |a: FolderHit, b: FolderHit| hit_before(a, b);
        let ps = self.folder_pairs(folder_id);
        let sorted = sort_hits(&self.entries, &self.links, &ps);
        proof {
            lemma_order_by_len(hits_at(es, ls, ps@), before);
        }
        let n = sorted.len();
        let start: usize = if offset < 0 {
            0
        } else if offset as u64 > n as u64 {
            n
        } else {
            offset as usize
        };
        let end: usize = if limit < 0 || limit as u64 > (n - start) as u64 {
            n
        } else {
            start + limit as usize
        };
        let ghost ord = hits_at(es, ls, sorted@);
        proof {
            assert(window(ord, limit, offset) =~= ord.subrange(start as int, end as int));
        }
        let mut out: Vec<ClipboardEntry> = Vec::new();
        let mut k = start;
        while k < end
            invariant
                start <= k <= end,
                end <= sorted@.len(),
                es == entries_view(self.entries@),
                ls == links_view(self.links@),
                ord == hits_at(es, ls, sorted@),
                forall|j: int|
                    0 <= j < sorted@.len() ==> sorted@[j].0 < self.entries@.len() && sorted@[j].1
                        < self.links@.len(),
                out@.map_values(|e: ClipboardEntry| e@) == ord.subrange(
                    start as int,
                    k as int,
                ).map_values(|h: FolderHit| public_entry(h.entry)),
            decreases end - k,
        {
            let ghost before_out = out@;
            let c = public_copy(&self.entries[sorted[k].0]);
            out.push(c);
            proof {
                assert(ord[k as int].entry == es[sorted@[k as int].0 as int]);
                assert(out@ == before_out.push(c));
                assert(out@.map_values(|e: ClipboardEntry| e@) =~= before_out.map_values(
                    |e: ClipboardEntry| e@,
                ).push(c@));
                assert(ord.subrange(start as int, k + 1) =~= ord.subrange(
                    start as int,
                    k as int,
                ).push(ord[k as int]));
                assert(out@.map_values(|e: ClipboardEntry| e@) =~= ord.subrange(
                    start as int,
                    k + 1,
                ).map_values(|h: FolderHit| public_entry(h.entry)));
            }
            k = k + 1;
        }
        out
    }

    /// The number of live entries in folder `folder_id`.
    fn count_folder_entries(&self, folder_id: i64) -> (c: usize)
        requires
            self.wf(),
        ensures
            c == entry_count(self@, folder_id),
    {
        let ghost v = self@;
        let ghost ls = links_view(self.links@);
        let ghost p = |l: LinkView| link_in_folder(v, folder_id, l);
        let n = self.links.len();
        let mut c: usize = 0;
        let mut i: usize = 0;
        proof {
            assert(ls.take(0).filter(p).len() == 0) by {
                reveal(Seq::filter);
            }
        }
        while i < n
            invariant
                n == self.links@.len(),
                self@ == v,
                db_wf(v),
                ls == v.links,
                ls == links_view(self.links@),
                i <= n,
                c <= i,
                p == (|l: LinkView| link_in_folder(v, folder_id, l)),
                c == ls.take(i as int).filter(p).len(),
            decreases n - i,
        {
            proof {
                lemma_filter_step(ls, p, i as int);
                lemma_live_id(v.entries, ls[i as int].entry_id);
            }
            if self.links[i].folder_id == folder_id {
                match find_entry(&self.entries, self.links[i].entry_id) {
                    Some(k) => {
                        if !self.entries[k].is_deleted {
                            c = c + 1;
                        }
                    },
                    None => {},
                }
            }
            i = i + 1;
        }
        proof {
            assert(ls.take(n as int) =~= ls);
        }
        c
    }

    /// All folders in list order, each with the number of live entries in it.
    pub fn list_folders(&self) -> (r: Vec<FolderWithEntryCount>)
        requires
            self.wf(),
        ensures
            r@.map_values(|f: FolderWithEntryCount| f@) == spec_list_folders(self@),
    {
        let ghost v = self@;
        let ghost fs = folders_view(self.folders@);
        let ghost before = |a: FolderView, b: FolderView| folder_before(a, b);
        let ghost cf = |f: FolderView| with_count(f, entry_count(v, f.id) as i64);
        let sorted = sort_folders(&self.folders);
        proof {
            lemma_order_by_len(fs, before);
        }
        let n = sorted.len();
        let mut out: Vec<FolderWithEntryCount> = Vec::new();
        let mut k: usize = 0;
        while k < n
            invariant
                n == sorted@.len(),
                k <= n,
                self@ == v,
                db_wf(v),
                fs == folders_view(self.folders@),
                fs == v.folders,
                cf == (|f: FolderView| with_count(f, entry_count(v, f.id) as i64)),
                forall|j: int| 0 <= j < sorted@.len() ==> sorted@[j] < self.folders@.len(),
                out@.map_values(|f: FolderWithEntryCount| f@) == folders_at(fs, sorted@).take(
                    k as int,
                ).map_values(cf),
            decreases n - k,
        {
            let f = &self.folders[sorted[k]];
            let c = self.count_folder_entries(f.id);
            let row = FolderWithEntryCount {
                id: f.id,
                name: f.name.clone(),
                is_default: f.is_default,
                sort_order: f.sort_order,
                created_at: f.created_at.clone(),
                updated_at: f.updated_at.clone(),
                entry_count: c as i64,
            };
            let ghost before_out = out@;
            out.push(row);
            proof {
                assert(folders_at(fs, sorted@)[k as int] == fs[sorted@[k as int] as int]);
                assert(row@ == cf(fs[sorted@[k as int] as int]));
                assert(out@ == before_out.push(row));
                assert(out@.map_values(|f: FolderWithEntryCount| f@) =~= before_out.map_values(
                    |f: FolderWithEntryCount| f@,
                ).push(row@));
                assert(folders_at(fs, sorted@).take(k + 1) =~= folders_at(fs, sorted@).take(
                    k as int,
                ).push(folders_at(fs, sorted@)[k as int]));
                assert(out@.map_values(|f: FolderWithEntryCount| f@) =~= folders_at(
                    fs,
                    sorted@,
                ).take(k + 1).map_values(cf));
            }
            k = k + 1;
        }
        proof {
            assert(folders_at(fs, sorted@).take(n as int) =~= folders_at(fs, sorted@));
        }
        out
    }
}

} // verus!
