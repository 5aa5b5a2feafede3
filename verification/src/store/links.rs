//! The folder link table: adding links and deleting the links that a rule
//! selects.
use vstd::prelude::*;

use super::seqs::{lemma_filter_pairwise, lemma_filter_step};
use super::{Database, DbView, FolderEntryRow, LinkView, db_wf, links_view};

verus! {

/// Which folder links a deletion selects.
pub enum LinkSel {
    /// The link of one folder and one entry.
    Pair(i64, i64),
    /// Every link of one entry.
    OfEntry(i64),
    /// Every link of one folder.
    OfFolder(i64),
    /// Every link of any of these entries.
    OfEntries(Seq<i64>),
}

pub open spec fn link_selected(sel: LinkSel, l: LinkView) -> bool {
    match sel {
        LinkSel::Pair(f, e) => l.folder_id == f && l.entry_id == e,
        LinkSel::OfEntry(e) => l.entry_id == e,
        LinkSel::OfFolder(f) => l.folder_id == f,
        LinkSel::OfEntries(ids) => ids.contains(l.entry_id),
    }
}

/// The links that a deletion keeps.
pub open spec fn link_kept(sel: LinkSel) -> spec_fn(LinkView) -> bool {
    |l: LinkView| !link_selected(sel, l)
}

/// The database after deleting the selected folder links.
pub open spec fn remove_links(v: DbView, sel: LinkSel) -> DbView {
    DbView { links: v.links.filter(link_kept(sel)), ..v }
}

/// Whether the link of folder `f` and entry `e` is stored.
pub open spec fn has_link(ls: Seq<LinkView>, f: i64, e: i64) -> bool {
    exists|i: int| 0 <= i < ls.len() && ls[i].folder_id == f && ls[i].entry_id == e
}

/// Putting entry `e` into folder `f` at time `now`; an existing link is left
/// as it is.
pub open spec fn add_link(v: DbView, now: Seq<char>, f: i64, e: i64) -> DbView {
    if has_link(v.links, f, e) {
        v
    } else {
        DbView { links: v.links.push(LinkView { folder_id: f, entry_id: e, added_at: now }), ..v }
    }
}

/// The link filter that exec code runs.
pub enum LinkFilter {
    Pair(i64, i64),
    OfEntry(i64),
    OfFolder(i64),
    OfEntries(Vec<i64>),
}

impl LinkFilter {
    pub open spec fn sel(&self) -> LinkSel {
        match self {
            LinkFilter::Pair(f, e) => LinkSel::Pair(*f, *e),
            LinkFilter::OfEntry(e) => LinkSel::OfEntry(*e),
            LinkFilter::OfFolder(f) => LinkSel::OfFolder(*f),
            LinkFilter::OfEntries(ids) => LinkSel::OfEntries(ids@),
        }
    }

    fn selects(&self, l: &FolderEntryRow) -> (b: bool)
        ensures
            b == link_selected(self.sel(), l@),
    {
        match self {
            LinkFilter::Pair(f, e) => l.folder_id == *f && l.entry_id == *e,
            LinkFilter::OfEntry(e) => l.entry_id == *e,
            LinkFilter::OfFolder(f) => l.folder_id == *f,
            LinkFilter::OfEntries(ids) => id_in(ids, l.entry_id),
        }
    }
}

/// Whether `id` is one of `ids`.
pub fn id_in(ids: &Vec<i64>, id: i64) -> (b: bool)
    ensures
        b == ids@.contains(id),
{
    let n = ids.len();
    let mut i: usize = 0;
    while i < n
        invariant
            n == ids@.len(),
            i <= n,
            forall|j: int| 0 <= j < i ==> ids@[j] != id,
        decreases n - i,
    {
        if ids[i] == id {
            assert(ids@[i as int] == id);
            return true;
        }
        i = i + 1;
    }
    false
}

pub fn copy_link(l: &FolderEntryRow) -> (r: FolderEntryRow)
    ensures
        r@ == l@,
{
    FolderEntryRow { folder_id: l.folder_id, entry_id: l.entry_id, added_at: l.added_at.clone() }
}

/// Links stay unique when some of them are deleted.
pub proof fn lemma_remove_links_wf(v: DbView, sel: LinkSel)
    requires
        db_wf(v),
    ensures
        db_wf(remove_links(v, sel)),
{
    let r = |a: LinkView, b: LinkView| !(a.folder_id == b.folder_id && a.entry_id == b.entry_id);
    assert forall|i: int, j: int| 0 <= i < j < v.links.len() implies r(v.links[i], v.links[j]) by {}
    lemma_filter_pairwise(v.links, link_kept(sel), r);
}

impl Database {
    /// Deletes the selected folder links; returns how many were deleted.
    pub(crate) fn delete_links(&mut self, flt: &LinkFilter) -> (removed: usize)
        requires
            old(self).wf(),
        ensures
            final(self).wf(),
            final(self)@ == remove_links(old(self)@, flt.sel()),
            removed == old(self)@.links.len() - final(self)@.links.len(),
    {
        let ghost v = self@;
        let ghost keep = link_kept(flt.sel());
        let n = self.links.len();
        let mut kept: Vec<FolderEntryRow> = Vec::new();
        let mut i: usize = 0;
        proof {
            assert(links_view(kept@) =~= v.links.take(0).filter(keep)) by {
                reveal(Seq::filter);
            }
        }
        while i < n
            invariant
                n == self.links@.len(),
                self@ == v,
                i <= n,
                keep == link_kept(flt.sel()),
                links_view(kept@) == v.links.take(i as int).filter(keep),
            decreases n - i,
        {
            let sel = flt.selects(&self.links[i]);
            proof {
                lemma_filter_step(v.links, keep, i as int);
            }
            if !sel {
                let c = copy_link(&self.links[i]);
                kept.push(c);
                proof {
                    assert(links_view(kept@) =~= v.links.take(i as int).filter(keep).push(
                        v.links[i as int],
                    ));
                }
            }
            i = i + 1;
        }
        proof {
            assert(v.links.take(n as int) =~= v.links);
            v.links.lemma_filter_len(keep);
        }
        self.links = kept;
        proof {
            lemma_remove_links_wf(v, flt.sel());
            assert(self@.links =~= remove_links(v, flt.sel()).links);
        }
        (n - self.links.len()) as usize
    }

    /// Adds the link of folder `f` and entry `e` unless it is stored already.
    pub(crate) fn insert_link(&mut self, now: &str, f: i64, e: i64)
        requires
            old(self).wf(),
        ensures
            final(self).wf(),
            final(self)@ == add_link(old(self)@, now@, f, e),
    {
        let ghost v = self@;
        let n = self.links.len();
        let mut i: usize = 0;
        while i < n
            invariant
                n == self.links@.len(),
                self@ == v,
                db_wf(v),
                i <= n,
                forall|j: int| 0 <= j < i ==> !(v.links[j].folder_id == f && v.links[j].entry_id == e),
            decreases n - i,
        {
            if self.links[i].folder_id == f && self.links[i].entry_id == e {
                assert(v.links[i as int].folder_id == f && v.links[i as int].entry_id == e);
                return;
            }
            i = i + 1;
        }
        self.links.push(FolderEntryRow { folder_id: f, entry_id: e, added_at: String::from_str(now) });
        proof {
            let nl = LinkView { folder_id: f, entry_id: e, added_at: now@ };
            assert(self@.links =~= v.links.push(nl));
            assert(self@.folders == v.folders);
            assert(self@.settings == v.settings);
            assert(self@.entries == v.entries);
            assert forall|a: int, b: int| 0 <= a < b < self@.links.len() implies !(
            self@.links[a].folder_id == self@.links[b].folder_id && self@.links[a].entry_id
                == self@.links[b].entry_id) by {
                if b == n {
                    assert(self@.links[a] == v.links[a]);
                    assert(!(v.links[a].folder_id == f && v.links[a].entry_id == e));
                }
            }
        }
    }
}

} // verus!
