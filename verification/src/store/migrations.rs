//! The data steps of opening the history: the default folder, pinned
//! entries put into it, and the default settings.
use vstd::prelude::*;

use super::changes::{default_folder_id, find_default_folder, has_default_folder};
use super::links::add_link;
use super::settings::spec_insert_setting_if_absent;
use super::{Database, DbError, DbView, EntryView, FolderView, folders_view};
use crate::models::Folder;

verus! {

/// The name of the default folder.
pub open spec fn default_folder_name() -> Seq<char> {
    "收藏夹"@
}

/// Making sure a default folder exists: when there is none, one is created
/// first in the sort order.
pub open spec fn spec_ensure_default_folder(v: DbView, now: Seq<char>) -> Result<DbView, DbError> {
    if has_default_folder(v.folders) {
        Ok(v)
    } else if v.folder_seq == i64::MAX {
        Err(DbError::DatabaseFull)
    } else {
        let f = FolderView {
            id: (v.folder_seq + 1) as i64,
            name: default_folder_name(),
            is_default: true,
            sort_order: 0,
            created_at: now,
            updated_at: now,
        };
        Ok(DbView { folders: v.folders.push(f), folder_seq: f.id, ..v })
    }
}

/// Putting every live pinned entry of `es` into folder `folder_id`, dated by
/// its capture time; links already there are kept.
pub open spec fn backfill_pins(v: DbView, folder_id: i64, es: Seq<EntryView>) -> DbView
    decreases es.len(),
{
    if es.len() == 0 {
        v
    } else {
        let w = backfill_pins(v, folder_id, es.drop_last());
        let e = es.last();
        if e.is_pinned && !e.is_deleted {
            add_link(w, e.captured_at, folder_id, e.id)
        } else {
            w
        }
    }
}

/// The default settings, each added unless its key is stored already.
pub open spec fn spec_seed_settings(v: DbView, now: Seq<char>) -> DbView {
    let v1 = spec_insert_setting_if_absent(v, now, "hotkey_modifiers"@, "Ctrl+Shift"@);
    let v2 = spec_insert_setting_if_absent(v1, now, "hotkey_key"@, "V"@);
    let v3 = spec_insert_setting_if_absent(v2, now, "max_history"@, "500"@);
    let v4 = spec_insert_setting_if_absent(v3, now, "theme"@, "system"@);
    let v5 = spec_insert_setting_if_absent(v4, now, "autostart"@, "false"@);
    let v6 = spec_insert_setting_if_absent(v5, now, "clear_on_exit"@, "false"@);
    spec_insert_setting_if_absent(v6, now, "max_item_size_mb"@, "10"@)
}

/// The data steps of opening the history: a default folder is made sure of,
/// every live pinned entry is put into it, and the default settings are added.
pub open spec fn spec_run_migrations(v: DbView, now: Seq<char>) -> Result<DbView, DbError> {
    match spec_ensure_default_folder(v, now) {
        Err(e) => Err(e),
        Ok(v1) => {
            let v2 = backfill_pins(v1, default_folder_id(v1.folders), v1.entries);
            Ok(spec_seed_settings(v2, now))
        },
    }
}

impl Database {
    /// Creates the default folder when there is none; returns its id.
    fn ensure_default_folder(&mut self, now: &str) -> (r: Result<i64, DbError>)
        requires
            old(self).wf(),
        ensures
            final(self).wf(),
            match r {
                Ok(id) => spec_ensure_default_folder(old(self)@, now@) == Ok::<DbView, DbError>(
                    final(self)@,
                ) && has_default_folder(final(self)@.folders) && default_folder_id(
                    final(self)@.folders,
                ) == id,
                Err(e) => spec_ensure_default_folder(old(self)@, now@) == Err::<DbView, DbError>(
                    e,
                ) && final(self)@ == old(self)@,
            },
    {
        let ghost v = self@;
        assert(v.folders == folders_view(self.folders@));
        match find_default_folder(&self.folders) {
            Some(k) => Ok(self.folders[k].id),
            None => {
                if self.folder_seq == i64::MAX {
                    return Err(DbError::DatabaseFull);
                }
                let id = self.folder_seq + 1;
                self.folders.push(
                    Folder {
                        id,
                        name: String::from_str("收藏夹"),
                        is_default: true,
                        sort_order: 0,
                        created_at: String::from_str(now),
                        updated_at: String::from_str(now),
                    },
                );
                self.folder_seq = id;
                proof {
                    let f = FolderView {
                        id,
                        name: default_folder_name(),
                        is_default: true,
                        sort_order: 0,
                        created_at: now@,
                        updated_at: now@,
                    };
                    assert(self@.folders =~= v.folders.push(f));
                    assert(self@.entries == v.entries);
                    assert(self@.links == v.links);
                    assert(self@.settings == v.settings);
                    let n = v.folders.len();
                    assert(self@.folders[n as int].is_default);
                    let k = choose|i: int|
                        0 <= i < self@.folders.len() && self@.folders[i].is_default;
                    if k < n {
                        assert(self@.folders[k] == v.folders[k]);
                        assert(has_default_folder(v.folders));
                    }
                }
                Ok(id)
            },
        }
    }

    /// The data steps of opening the history (see `spec_run_migrations`).
    pub fn run_migrations(&mut self, now: &str) -> (r: Result<(), DbError>)
        requires
            old(self).wf(),
        ensures
            final(self).wf(),
            match r {
                Ok(()) => spec_run_migrations(old(self)@, now@) == Ok::<DbView, DbError>(
                    final(self)@,
                ),
                Err(e) => spec_run_migrations(old(self)@, now@) == Err::<DbView, DbError>(e),
            },
    {
        let fid = match self.ensure_default_folder(now) {
            Ok(id) => id,
            Err(e) => {
                return Err(e);
            },
        };
        let ghost v1 = self@;
        let n = self.entries.len();
        let mut i: usize = 0;
        while i < n
            invariant
                n == self.entries@.len(),
                n == v1.entries.len(),
                i <= n,
                self.wf(),
                self@.entries == v1.entries,
                self@ == backfill_pins(v1, fid, v1.entries.take(i as int)),
            decreases n - i,
        {
            proof {
                assert(v1.entries.take(i + 1).drop_last() =~= v1.entries.take(i as int));
                assert(v1.entries[i as int] == self.entries@[i as int]@);
            }
            if self.entries[i].is_pinned && !self.entries[i].is_deleted {
                let at = self.entries[i].captured_at.clone();
                let id = self.entries[i].id;
                self.insert_link(at.as_str(), fid, id);
            }
            i = i + 1;
        }
        proof {
            assert(v1.entries.take(n as int) =~= v1.entries);
        }
        self.insert_setting_if_absent(now, "hotkey_modifiers", "Ctrl+Shift");
        self.insert_setting_if_absent(now, "hotkey_key", "V");
        self.insert_setting_if_absent(now, "max_history", "500");
        self.insert_setting_if_absent(now, "theme", "system");
        self.insert_setting_if_absent(now, "autostart", "false");
        self.insert_setting_if_absent(now, "clear_on_exit", "false");
        self.insert_setting_if_absent(now, "max_item_size_mb", "10");
        Ok(())
    }
}

} // verus!
