//! Changes to the pin and deletion marks of entries, and the folder links
//! that go with them: pinning, deleting, clearing the history, emptying a
//! folder.
use vstd::prelude::*;

use super::links::{LinkFilter, LinkSel, add_link, link_kept, remove_links, id_in};
use super::queries::{find_entry, has_id, pos_of_id};
use super::seqs::{lemma_filter_complement_len, lemma_filter_step};
use super::{Database, DbView, EntryView, FolderView, LinkView, db_wf};

verus! {

/// A change made to every entry row that it applies to.
pub enum EntryChange {
    /// Flip the pin of the entry with this id.
    FlipPin(i64),
    /// Mark the entry with this id deleted.
    Delete(i64),
    /// Mark every live entry that is not pinned deleted.
    DeleteUnpinned,
    /// Unpin every pinned entry among these ids.
    UnpinAmong(Seq<i64>),
}

pub open spec fn change_applies(c: EntryChange, e: EntryView) -> bool {
    match c {
        EntryChange::FlipPin(id) => e.id == id,
        EntryChange::Delete(id) => e.id == id,
        EntryChange::DeleteUnpinned => !e.is_deleted && !e.is_pinned,
        EntryChange::UnpinAmong(ids) => ids.contains(e.id) && e.is_pinned,
    }
}

pub open spec fn changed(c: EntryChange, e: EntryView) -> EntryView {
    if !change_applies(c, e) {
        e
    } else {
        match c {
            EntryChange::FlipPin(_) => EntryView { is_pinned: !e.is_pinned, ..e },
            EntryChange::Delete(_) => EntryView { is_deleted: true, ..e },
            EntryChange::DeleteUnpinned => EntryView { is_deleted: true, ..e },
            EntryChange::UnpinAmong(_) => EntryView { is_pinned: false, ..e },
        }
    }
}

/// The database after the change.
pub open spec fn change_entries(v: DbView, c: EntryChange) -> DbView {
    DbView { entries: v.entries.map_values(|e: EntryView| changed(c, e)), ..v }
}

/// The ids of the entries that the change applies to, in table order.
pub open spec fn changed_ids(v: DbView, c: EntryChange) -> Seq<i64> {
    v.entries.filter(|e: EntryView| change_applies(c, e)).map_values(|e: EntryView| e.id)
}

pub enum EntryChangeExec {
    FlipPin(i64),
    Delete(i64),
    DeleteUnpinned,
    UnpinAmong(Vec<i64>),
}

impl EntryChangeExec {
    pub open spec fn spec_change(&self) -> EntryChange {
        match self {
            EntryChangeExec::FlipPin(id) => EntryChange::FlipPin(*id),
            EntryChangeExec::Delete(id) => EntryChange::Delete(*id),
            EntryChangeExec::DeleteUnpinned => EntryChange::DeleteUnpinned,
            EntryChangeExec::UnpinAmong(ids) => EntryChange::UnpinAmong(ids@),
        }
    }
}

/// Whether the database holds a default folder.
pub open spec fn has_default_folder(fs: Seq<FolderView>) -> bool {
    exists|i: int| 0 <= i < fs.len() && fs[i].is_default
}

/// The id of the default folder (there is at most one).
pub open spec fn default_folder_id(fs: Seq<FolderView>) -> i64 {
    fs[choose|i: int| 0 <= i < fs.len() && fs[i].is_default].id
}

/// Bringing the default folder in line with the pin of one entry: a pinned
/// entry is put into it, an unpinned one taken out of it. Without a default
/// folder nothing changes.
pub open spec fn spec_sync_pinned_to_default_folder(
    v: DbView,
    now: Seq<char>,
    entry_id: i64,
    is_pinned: bool,
) -> DbView {
    if !has_default_folder(v.folders) {
        v
    } else if is_pinned {
        add_link(v, now, default_folder_id(v.folders), entry_id)
    } else {
        remove_links(v, LinkSel::Pair(default_folder_id(v.folders), entry_id))
    }
}

/// Flipping the pin of entry `id` (deleted or not) and bringing the default
/// folder in line with it. The result is the new pin, `false` when no entry
/// has that id.
pub open spec fn spec_toggle_pin(v: DbView, now: Seq<char>, id: i64) -> (DbView, bool) {
    let pinned = has_id(v.entries, id) && !v.entries[pos_of_id(v.entries, id)].is_pinned;
    let v1 = change_entries(v, EntryChange::FlipPin(id));
    (spec_sync_pinned_to_default_folder(v1, now, id, pinned), pinned)
}

/// Marking entry `id` deleted and taking it out of every folder.
pub open spec fn spec_soft_delete_entry(v: DbView, id: i64) -> DbView {
    remove_links(change_entries(v, EntryChange::Delete(id)), LinkSel::OfEntry(id))
}

/// Marking every live entry that is not pinned deleted and taking those
/// entries out of every folder; the result is how many were marked.
pub open spec fn spec_clear_unpinned(v: DbView) -> (DbView, usize) {
    let ids = changed_ids(v, EntryChange::DeleteUnpinned);
    let v1 = change_entries(v, EntryChange::DeleteUnpinned);
    (if ids.len() > 0 {
        remove_links(v1, LinkSel::OfEntries(ids))
    } else {
        v1
    }, ids.len() as usize)
}

pub open spec fn has_folder(fs: Seq<FolderView>, id: i64) -> bool {
    exists|i: int| 0 <= i < fs.len() && fs[i].id == id
}

pub open spec fn folder_pos(fs: Seq<FolderView>, id: i64) -> int {
    choose|i: int| 0 <= i < fs.len() && fs[i].id == id
}

/// Whether folder `id` exists and is the default folder.
pub open spec fn is_default_folder(fs: Seq<FolderView>, id: i64) -> bool {
    has_folder(fs, id) && fs[folder_pos(fs, id)].is_default
}

/// The entry ids linked to folder `id`, in link order.
pub open spec fn folder_entry_ids(ls: Seq<LinkView>, id: i64) -> Seq<i64> {
    ls.filter(|l: LinkView| l.folder_id == id).map_values(|l: LinkView| l.entry_id)
}

/// Emptying folder `folder_id`: all its links are deleted, and when it is the
/// default folder, the entries that were in it are unpinned. The result is
/// the number of links deleted.
pub open spec fn spec_clear_folder_entries(v: DbView, folder_id: i64) -> (DbView, usize) {
    let is_default = is_default_folder(v.folders, folder_id);
    let ids = folder_entry_ids(v.links, folder_id);
    let v1 = remove_links(v, LinkSel::OfFolder(folder_id));
    let v2 = if is_default && ids.len() > 0 {
        change_entries(v1, EntryChange::UnpinAmong(ids))
    } else {
        v1
    };
    (v2, v.links.filter(|l: LinkView| l.folder_id == folder_id).len() as usize)
}

pub proof fn lemma_change_entries_wf(v: DbView, c: EntryChange)
    requires
        db_wf(v),
    ensures
        db_wf(change_entries(v, c)),
{
    let w = change_entries(v, c);
    assert forall|j: int| 0 <= j < v.entries.len() implies w.entries[j].id == v.entries[j].id
        && w.entries[j].content_hash == v.entries[j].content_hash && w.entries[j].content_type
        == v.entries[j].content_type by {}
}

pub proof fn lemma_map_filter_step<T>(
    s: Seq<T>,
    p: spec_fn(T) -> bool,
    f: spec_fn(T) -> i64,
    i: int,
)
    requires
        0 <= i < s.len(),
    ensures
        s.take(i + 1).filter(p).map_values(f) == (if p(s[i]) {
            s.take(i).filter(p).map_values(f).push(f(s[i]))
        } else {
            s.take(i).filter(p).map_values(f)
        }),
{
    lemma_filter_step(s, p, i);
    if p(s[i]) {
        assert(s.take(i).filter(p).push(s[i]).map_values(f) =~= s.take(i).filter(p).map_values(
            f,
        ).push(f(s[i])));
    }
}

impl Database {
    /// Applies a change to the entry rows; returns the ids it applied to.
    pub(crate) fn change_entry_rows(&mut self, c: &EntryChangeExec) -> (ids: Vec<i64>)
        requires
            old(self).wf(),
        ensures
            final(self).wf(),
            final(self)@ == change_entries(old(self)@, c.spec_change()),
            ids@ == changed_ids(old(self)@, c.spec_change()),
    {
        let ghost v = self@;
        let ghost ch = c.spec_change();
        let ghost p = |e: EntryView| change_applies(ch, e);
        let ghost fid = |e: EntryView| e.id;
        let n = self.entries.len();
        let mut ids: Vec<i64> = Vec::new();
        let mut i: usize = 0;
        proof {
            assert(ids@ =~= v.entries.take(0).filter(p).map_values(fid)) by {
                reveal(Seq::filter);
            }
        }
        while i < n
            invariant
                n == self.entries@.len(),
                n == v.entries.len(),
                i <= n,
                ch == c.spec_change(),
                p == (|e: EntryView| change_applies(ch, e)),
                fid == (|e: EntryView| e.id),
                self@.folders == v.folders,
                self@.links == v.links,
                self@.settings == v.settings,
                self@.entry_seq == v.entry_seq,
                self@.folder_seq == v.folder_seq,
                forall|j: int| 0 <= j < i ==> self@.entries[j] == changed(ch, v.entries[j]),
                forall|j: int| i <= j < n ==> self@.entries[j] == v.entries[j],
                ids@ == v.entries.take(i as int).filter(p).map_values(fid),
            decreases n - i,
        {
            let ghost prev = self.entries@;
            let ghost prev_view = self@.entries;
            let applies = match c {
                EntryChangeExec::FlipPin(id) => self.entries[i].id == *id,
                EntryChangeExec::Delete(id) => self.entries[i].id == *id,
                EntryChangeExec::DeleteUnpinned => !self.entries[i].is_deleted
                    && !self.entries[i].is_pinned,
                EntryChangeExec::UnpinAmong(among) => self.entries[i].is_pinned && id_in(
                    among,
                    self.entries[i].id,
                ),
            };
            proof {
                assert(self@.entries[i as int] == v.entries[i as int]);
                assert(applies == change_applies(ch, v.entries[i as int]));
                lemma_map_filter_step(v.entries, p, fid, i as int);
            }
            if applies {
                let id = self.entries[i].id;
                ids.push(id);
                match c {
                    EntryChangeExec::FlipPin(_) => {
                        let b = self.entries[i].is_pinned;
                        self.entries[i].is_pinned = !b;
                    },
                    EntryChangeExec::Delete(_) => {
                        self.entries[i].is_deleted = true;
                    },
                    EntryChangeExec::DeleteUnpinned => {
                        self.entries[i].is_deleted = true;
                    },
                    EntryChangeExec::UnpinAmong(_) => {
                        self.entries[i].is_pinned = false;
                    },
                }
            }
            proof {
                assert(self@.entries[i as int] == changed(ch, v.entries[i as int]));
                assert forall|j: int| 0 <= j < n && j != i implies self.entries@[j] == prev[j] by {}
                assert forall|j: int| 0 <= j < i + 1 implies self@.entries[j] == changed(
                    ch,
                    v.entries[j],
                ) by {
                    if j < i {
                        assert(self.entries@[j] == prev[j]);
                        assert(self@.entries[j] == self.entries@[j]@);
                        assert(prev_view[j] == prev[j]@);
                    }
                }
            }
            i = i + 1;
        }
        proof {
            assert(v.entries.take(n as int) =~= v.entries);
            assert(self@.entries =~= v.entries.map_values(|e: EntryView| changed(ch, e)));
            lemma_change_entries_wf(v, ch);
        }
        ids
    }
}

/// Finds the default folder.
pub(crate) fn find_default_folder(fs: &Vec<crate::models::Folder>) -> (r: Option<usize>)
    requires
        forall|i: int, j: int|
            0 <= i < j < fs@.len() ==> !(super::folders_view(fs@)[i].is_default
                && super::folders_view(fs@)[j].is_default),
    ensures
        match r {
            Some(k) => k < fs@.len() && has_default_folder(super::folders_view(fs@))
                && default_folder_id(super::folders_view(fs@)) == fs@[k as int].id,
            None => !has_default_folder(super::folders_view(fs@)),
        },
{
    let ghost fv = super::folders_view(fs@);
    let n = fs.len();
    let mut i: usize = 0;
    while i < n
        invariant
            n == fs@.len(),
            fv == super::folders_view(fs@),
            i <= n,
            forall|j: int| 0 <= j < i ==> !fv[j].is_default,
            forall|a: int, b: int| 0 <= a < b < fv.len() ==> !(fv[a].is_default && fv[b].is_default),
        decreases n - i,
    {
        if fs[i].is_default {
            proof {
                assert(fv[i as int].is_default);
                let k = choose|k: int| 0 <= k < fv.len() && fv[k].is_default;
                if k < i {
                    assert(!fv[k].is_default);
                } else if k > i {
                    assert(!(fv[i as int].is_default && fv[k].is_default));
                }
            }
            return Some(i);
        }
        i = i + 1;
    }
    None
}

/// Finds the folder with id `id`.
pub(crate) fn find_folder(fs: &Vec<crate::models::Folder>, id: i64) -> (r: Option<usize>)
    requires
        forall|i: int, j: int|
            0 <= i < j < fs@.len() ==> super::folders_view(fs@)[i].id < super::folders_view(
                fs@,
            )[j].id,
    ensures
        match r {
            Some(k) => k < fs@.len() && has_folder(super::folders_view(fs@), id) && folder_pos(
                super::folders_view(fs@),
                id,
            ) == k && fs@[k as int].id == id,
            None => !has_folder(super::folders_view(fs@), id),
        },
{
    let ghost fv = super::folders_view(fs@);
    let n = fs.len();
    let mut i: usize = 0;
    while i < n
        invariant
            n == fs@.len(),
            fv == super::folders_view(fs@),
            i <= n,
            forall|j: int| 0 <= j < i ==> fv[j].id != id,
            forall|a: int, b: int| 0 <= a < b < fv.len() ==> fv[a].id < fv[b].id,
        decreases n - i,
    {
        if fs[i].id == id {
            proof {
                assert(fv[i as int].id == id);
                let k = folder_pos(fv, id);
                assert(0 <= k < fv.len() && fv[k].id == id);
                if k < i {
                    assert(fv[k].id != id);
                } else if k > i {
                    assert(fv[i as int].id < fv[k].id);
                }
            }
            return Some(i);
        }
        i = i + 1;
    }
    None
}

impl Database {
    /// Brings the default folder in line with the pin of one entry.
    fn sync_pinned_to_default_folder(&mut self, now: &str, entry_id: i64, is_pinned: bool)
        requires
            old(self).wf(),
        ensures
            final(self).wf(),
            final(self)@ == spec_sync_pinned_to_default_folder(
                old(self)@,
                now@,
                entry_id,
                is_pinned,
            ),
    {
        match find_default_folder(&self.folders) {
            None => {},
            Some(k) => {
                let folder_id = self.folders[k].id;
                if is_pinned {
                    self.insert_link(now, folder_id, entry_id);
                } else {
                    self.delete_links(&LinkFilter::Pair(folder_id, entry_id));
                }
            },
        }
    }

    /// Flips the pin of entry `id` and brings the default folder in line with
    /// it; returns the new pin.
    pub fn toggle_pin(&mut self, now: &str, id: i64) -> (pinned: bool)
        requires
            old(self).wf(),
        ensures
            final(self).wf(),
            (final(self)@, pinned) == spec_toggle_pin(old(self)@, now@, id),
    {
        let pinned = match find_entry(&self.entries, id) {
            Some(k) => !self.entries[k].is_pinned,
            None => false,
        };
        self.change_entry_rows(&EntryChangeExec::FlipPin(id));
        self.sync_pinned_to_default_folder(now, id, pinned);
        pinned
    }

    /// Marks entry `id` deleted and takes it out of every folder.
    pub fn soft_delete_entry(&mut self, id: i64)
        requires
            old(self).wf(),
        ensures
            final(self).wf(),
            final(self)@ == spec_soft_delete_entry(old(self)@, id),
    {
        self.change_entry_rows(&EntryChangeExec::Delete(id));
        self.delete_links(&LinkFilter::OfEntry(id));
    }

    /// Marks every live entry that is not pinned deleted and takes those
    /// entries out of every folder; returns how many were marked.
    pub fn clear_unpinned(&mut self) -> (count: usize)
        requires
            old(self).wf(),
        ensures
            final(self).wf(),
            (final(self)@, count) == spec_clear_unpinned(old(self)@),
    {
        let ids = self.change_entry_rows(&EntryChangeExec::DeleteUnpinned);
        let count = ids.len();
        if count > 0 {
            self.delete_links(&LinkFilter::OfEntries(ids));
        }
        count
    }

    /// Empties folder `folder_id` (see `spec_clear_folder_entries`); returns
    /// the number of links deleted.
    pub fn clear_folder_entries(&mut self, folder_id: i64) -> (count: usize)
        requires
            old(self).wf(),
        ensures
            final(self).wf(),
            (final(self)@, count) == spec_clear_folder_entries(old(self)@, folder_id),
    {
        let ghost v = self@;
        assert(v.folders == super::folders_view(self.folders@));
        let is_default = match find_folder(&self.folders, folder_id) {
            Some(k) => self.folders[k].is_default,
            None => false,
        };
        let mut entry_ids: Vec<i64> = Vec::new();
        if is_default {
            let ghost p = |l: LinkView| l.folder_id == folder_id;
            let ghost fe = |l: LinkView| l.entry_id;
            let n = self.links.len();
            let mut i: usize = 0;
            proof {
                assert(entry_ids@ =~= v.links.take(0).filter(p).map_values(fe)) by {
                    reveal(Seq::filter);
                }
            }
            while i < n
                invariant
                    n == self.links@.len(),
                    self@ == v,
                    i <= n,
                    p == (|l: LinkView| l.folder_id == folder_id),
                    fe == (|l: LinkView| l.entry_id),
                    entry_ids@ == v.links.take(i as int).filter(p).map_values(fe),
                decreases n - i,
            {
                proof {
                    super::changes::lemma_map_filter_step(v.links, p, fe, i as int);
                }
                if self.links[i].folder_id == folder_id {
                    entry_ids.push(self.links[i].entry_id);
                }
                i = i + 1;
            }
            proof {
                assert(v.links.take(n as int) =~= v.links);
            }
        }
        let removed = self.delete_links(&LinkFilter::OfFolder(folder_id));
        if is_default && entry_ids.len() > 0 {
            self.change_entry_rows(&EntryChangeExec::UnpinAmong(entry_ids));
        }
        proof {
            let sel = LinkSel::OfFolder(folder_id);
            let p = |l: LinkView| l.folder_id == folder_id;
            lemma_filter_complement_len(v.links, p);
            assert(link_kept(sel) =~= (|x: LinkView| !p(x)));
        }
        removed
    }
}

} // verus!
