//! Creating, renaming and deleting folders, and putting entries in and out
//! of them.
use vstd::prelude::*;

use super::changes::{find_folder, has_folder, is_default_folder, lemma_map_filter_step};
use super::links::{LinkFilter, LinkSel, add_link, remove_links};
use super::seqs::{lemma_filter_members, lemma_filter_pairwise, lemma_filter_step};
use super::{Database, DbError, DbView, FolderView, LinkView, folders_view};
use crate::models::Folder;

verus! {

/// The largest sort order of the folders, -1 when there are none.
pub open spec fn max_sort_order(fs: Seq<FolderView>) -> int
    decreases fs.len(),
{
    if fs.len() == 0 {
        -1
    } else {
        let m = max_sort_order(fs.drop_last());
        if fs.last().sort_order > m {
            fs.last().sort_order as int
        } else {
            m
        }
    }
}

/// The sort order of a new folder: one past the largest. Past the largest
/// integer the database computes a real number, which does not read back as an
/// integer, and zero is taken instead.
pub open spec fn next_sort_order(fs: Seq<FolderView>) -> i64 {
    let m = max_sort_order(fs);
    if m == i64::MAX {
        0
    } else {
        (m + 1) as i64
    }
}

/// Creating a folder named `name` at time `now`, last in the sort order.
pub open spec fn spec_create_folder(v: DbView, now: Seq<char>, name: Seq<char>) -> (
    DbView,
    Result<FolderView, DbError>,
) {
    if v.folder_seq == i64::MAX {
        (v, Err(DbError::DatabaseFull))
    } else {
        let f = FolderView {
            id: (v.folder_seq + 1) as i64,
            name,
            is_default: false,
            sort_order: next_sort_order(v.folders),
            created_at: now,
            updated_at: now,
        };
        (DbView { folders: v.folders.push(f), folder_seq: f.id, ..v }, Ok(f))
    }
}

pub open spec fn renamed(f: FolderView, id: i64, name: Seq<char>, now: Seq<char>) -> FolderView {
    if f.id == id {
        FolderView { name, updated_at: now, ..f }
    } else {
        f
    }
}

/// Renaming folder `id` at time `now`; nothing changes when there is no such
/// folder.
pub open spec fn spec_rename_folder(v: DbView, now: Seq<char>, id: i64, name: Seq<char>) -> DbView {
    DbView { folders: v.folders.map_values(|f: FolderView| renamed(f, id, name, now)), ..v }
}

/// Deleting folder `id`: the default folder is never deleted; when a folder
/// is deleted, its links go with it.
pub open spec fn spec_delete_folder(v: DbView, id: i64) -> DbView {
    let v1 = DbView { folders: v.folders.filter(|f: FolderView| !(f.id == id && !f.is_default)), ..v };
    if has_folder(v.folders, id) && !is_default_folder(v.folders, id) {
        remove_links(v1, LinkSel::OfFolder(id))
    } else {
        v1
    }
}

/// The ids of the folders that entry `entry_id` is in, in link order.
pub open spec fn spec_get_entry_folders(v: DbView, entry_id: i64) -> Seq<i64> {
    v.links.filter(|l: LinkView| l.entry_id == entry_id).map_values(|l: LinkView| l.folder_id)
}

pub fn copy_folder(f: &Folder) -> (r: Folder)
    ensures
        r@ == f@,
{
    Folder {
        id: f.id,
        name: f.name.clone(),
        is_default: f.is_default,
        sort_order: f.sort_order,
        created_at: f.created_at.clone(),
        updated_at: f.updated_at.clone(),
    }
}

impl Database {
    /// Creates a folder named `name`, last in the sort order.
    pub fn create_folder(&mut self, now: &str, name: &str) -> (r: Result<Folder, DbError>)
        requires
            old(self).wf(),
        ensures
            final(self).wf(),
            final(self)@ == spec_create_folder(old(self)@, now@, name@).0,
            match r {
                Ok(f) => spec_create_folder(old(self)@, now@, name@).1 == Ok::<FolderView, DbError>(
                    f@,
                ),
                Err(e) => spec_create_folder(old(self)@, now@, name@).1 == Err::<FolderView, DbError>(
                    e,
                ),
            },
    {
        let ghost v = self@;
        let n = self.folders.len();
        let mut m: i64 = -1;
        let mut i: usize = 0;
        while i < n
            invariant
                n == self.folders@.len(),
                self@ == v,
                i <= n,
                m == max_sort_order(v.folders.take(i as int)),
            decreases n - i,
        {
            proof {
                assert(v.folders.take(i + 1).drop_last() =~= v.folders.take(i as int));
            }
            if self.folders[i].sort_order > m {
                m = self.folders[i].sort_order;
            }
            i = i + 1;
        }
        proof {
            assert(v.folders.take(n as int) =~= v.folders);
        }
        let order: i64 = if m == i64::MAX {
            0
        } else {
            m + 1
        };
        if self.folder_seq == i64::MAX {
            return Err(DbError::DatabaseFull);
        }
        let id = self.folder_seq + 1;
        let f = Folder {
            id,
            name: String::from_str(name),
            is_default: false,
            sort_order: order,
            created_at: String::from_str(now),
            updated_at: String::from_str(now),
        };
        let out = copy_folder(&f);
        self.folders.push(f);
        self.folder_seq = id;
        proof {
            assert(self@.folders =~= v.folders.push(out@));
            assert(self@.entries == v.entries);
            assert(self@.links == v.links);
            assert(self@.settings == v.settings);
        }
        Ok(out)
    }

    /// Renames folder `id`.
    pub fn rename_folder(&mut self, now: &str, id: i64, new_name: &str)
        requires
            old(self).wf(),
        ensures
            final(self).wf(),
            final(self)@ == spec_rename_folder(old(self)@, now@, id, new_name@),
    {
        let ghost v = self@;
        let n = self.folders.len();
        let mut i: usize = 0;
        while i < n
            invariant
                n == self.folders@.len(),
                n == v.folders.len(),
                i <= n,
                self@.entries == v.entries,
                self@.links == v.links,
                self@.settings == v.settings,
                self@.entry_seq == v.entry_seq,
                self@.folder_seq == v.folder_seq,
                forall|j: int| 0 <= j < i ==> self@.folders[j] == renamed(v.folders[j], id, new_name@, now@),
                forall|j: int| i <= j < n ==> self@.folders[j] == v.folders[j],
            decreases n - i,
        {
            let ghost prev = self.folders@;
            let ghost prev_view = self@.folders;
            if self.folders[i].id == id {
                self.folders[i].name = String::from_str(new_name);
                self.folders[i].updated_at = String::from_str(now);
            }
            proof {
                assert(self@.folders[i as int] == renamed(v.folders[i as int], id, new_name@, now@));
                assert forall|j: int| 0 <= j < n && j != i implies self.folders@[j] == prev[j] by {}
                assert forall|j: int| 0 <= j < i + 1 implies self@.folders[j] == renamed(
                    v.folders[j],
                    id,
                    new_name@,
                    now@,
                ) by {
                    if j < i {
                        assert(self.folders@[j] == prev[j]);
                        assert(self@.folders[j] == self.folders@[j]@);
                        assert(prev_view[j] == prev[j]@);
                    }
                }
            }
            i = i + 1;
        }
        proof {
            assert(self@.folders =~= v.folders.map_values(
                |f: FolderView| renamed(f, id, new_name@, now@),
            ));
        }
    }

    /// Deletes folder `id` unless it is the default folder.
    pub fn delete_folder(&mut self, id: i64)
        requires
            old(self).wf(),
        ensures
            final(self).wf(),
            final(self)@ == spec_delete_folder(old(self)@, id),
    {
        let ghost v = self@;
        let ghost keep = |f: FolderView| !(f.id == id && !f.is_default);
        let cascade = match find_folder(&self.folders, id) {
            Some(k) => !self.folders[k].is_default,
            None => false,
        };
        let n = self.folders.len();
        let mut kept: Vec<Folder> = Vec::new();
        let mut i: usize = 0;
        proof {
            assert(folders_view(kept@) =~= v.folders.take(0).filter(keep)) by {
                reveal(Seq::filter);
            }
        }
        while i < n
            invariant
                n == self.folders@.len(),
                self@ == v,
                i <= n,
                keep == (|f: FolderView| !(f.id == id && !f.is_default)),
                folders_view(kept@) == v.folders.take(i as int).filter(keep),
            decreases n - i,
        {
            proof {
                lemma_filter_step(v.folders, keep, i as int);
            }
            if !(self.folders[i].id == id && !self.folders[i].is_default) {
                let c = copy_folder(&self.folders[i]);
                kept.push(c);
                proof {
                    assert(folders_view(kept@) =~= v.folders.take(i as int).filter(keep).push(
                        v.folders[i as int],
                    ));
                }
            }
            i = i + 1;
        }
        proof {
            assert(v.folders.take(n as int) =~= v.folders);
        }
        self.folders = kept;
        proof {
            let fs = v.folders.filter(keep);
            lemma_filter_pairwise(v.folders, keep, |a: FolderView, b: FolderView| a.id < b.id);
            lemma_filter_pairwise(
                v.folders,
                keep,
                |a: FolderView, b: FolderView| !(a.is_default && b.is_default),
            );
            lemma_filter_members(v.folders, keep);
            assert forall|k: int| 0 <= k < fs.len() implies fs[k].id <= v.folder_seq by {
                let j = choose|j: int| 0 <= j < v.folders.len() && #[trigger] v.folders[j] == fs[k];
            }
            assert(self@.folders == fs);
            assert(self@.entries == v.entries);
            assert(self@.links == v.links);
            assert(self@.settings == v.settings);
        }
        if cascade {
            self.delete_links(&LinkFilter::OfFolder(id));
        }
    }

    /// Puts entry `entry_id` into folder `folder_id` unless it is in it.
    pub fn add_entry_to_folder(&mut self, now: &str, folder_id: i64, entry_id: i64)
        requires
            old(self).wf(),
        ensures
            final(self).wf(),
            final(self)@ == add_link(old(self)@, now@, folder_id, entry_id),
    {
        self.insert_link(now, folder_id, entry_id);
    }

    /// Takes entry `entry_id` out of folder `folder_id`.
    pub fn remove_entry_from_folder(&mut self, folder_id: i64, entry_id: i64)
        requires
            old(self).wf(),
        ensures
            final(self).wf(),
            final(self)@ == remove_links(old(self)@, LinkSel::Pair(folder_id, entry_id)),
    {
        self.delete_links(&LinkFilter::Pair(folder_id, entry_id));
    }

    /// The ids of the folders that entry `entry_id` is in.
    pub fn get_entry_folders(&self, entry_id: i64) -> (ids: Vec<i64>)
        requires
            self.wf(),
        ensures
            ids@ == spec_get_entry_folders(self@, entry_id),
    {
        let ghost v = self@;
        let ghost p = |l: LinkView| l.entry_id == entry_id;
        let ghost ff = |l: LinkView| l.folder_id;
        let n = self.links.len();
        let mut ids: Vec<i64> = Vec::new();
        let mut i: usize = 0;
        proof {
            assert(ids@ =~= v.links.take(0).filter(p).map_values(ff)) by {
                reveal(Seq::filter);
            }
        }
        while i < n
            invariant
                n == self.links@.len(),
                self@ == v,
                i <= n,
                p == (|l: LinkView| l.entry_id == entry_id),
                ff == (|l: LinkView| l.folder_id),
                ids@ == v.links.take(i as int).filter(p).map_values(ff),
            decreases n - i,
        {
            proof {
                lemma_map_filter_step(v.links, p, ff, i as int);
            }
            if self.links[i].entry_id == entry_id {
                ids.push(self.links[i].folder_id);
            }
            i = i + 1;
        }
        proof {
            assert(v.links.take(n as int) =~= v.links);
        }
        ids
    }
}

} // verus!
