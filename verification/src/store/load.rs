//! Building the database from rows read back from storage, once they are
//! found consistent.
use vstd::prelude::*;

use super::{Database, DbError, EntryRow, FolderEntryRow, SettingRow, db_wf, entries_view, folders_view, is_content_type_name, links_view, settings_view};
use crate::models::{ContentType, Folder, content_type_name, str_equal, lemma_content_type_name_round_trip};

verus! {

/// Whether a stored name is the name of a content type.
pub fn is_content_type_name_exec(s: &str) -> (b: bool)
    ensures
        b == is_content_type_name(s@),
{
    let t = ContentType::from_str(s);
    let b = str_equal(t.as_str(), s);
    proof {
        if !b && is_content_type_name(s@) {
            let t2 = choose|t2: ContentType| content_type_name(t2) == s@;
            lemma_content_type_name_round_trip(t2);
        }
    }
    b
}

fn entries_ok(es: &Vec<EntryRow>, seq: i64) -> (b: bool)
    ensures
        b == {
            let v = entries_view(es@);
            &&& forall|i: int, j: int| 0 <= i < j < v.len() ==> v[i].id < v[j].id
            &&& forall|i: int| 0 <= i < v.len() ==> v[i].id <= seq
            &&& forall|i: int, j: int|
                0 <= i < j < v.len() ==> v[i].content_hash != v[j].content_hash
            &&& forall|i: int| 0 <= i < v.len() ==> is_content_type_name(v[i].content_type)
        },
{
    let ghost v = entries_view(es@);
    let n = es.len();
    let mut i: usize = 0;
    while i < n
        invariant
            n == es@.len(),
            v == entries_view(es@),
            i <= n,
            forall|a: int, b: int| 0 <= a < b < i ==> v[a].id < v[b].id,
            forall|a: int| 0 <= a < i ==> v[a].id <= seq,
            forall|a: int, b: int| 0 <= a < b < i ==> v[a].content_hash != v[b].content_hash,
            forall|a: int| 0 <= a < i ==> is_content_type_name(v[a].content_type),
        decreases n - i,
    {
        if es[i].id > seq {
            assert(v[i as int].id > seq);
            return false;
        }
        if i > 0 && es[i - 1].id >= es[i].id {
            assert(v[i - 1].id >= v[i as int].id);
            return false;
        }
        if !is_content_type_name_exec(es[i].content_type.as_str()) {
            assert(!is_content_type_name(v[i as int].content_type));
            return false;
        }
        let mut j: usize = 0;
        while j < i
            invariant
                n == es@.len(),
                v == entries_view(es@),
                j <= i,
                i < n,
                forall|a: int| 0 <= a < j ==> v[a].content_hash != v[i as int].content_hash,
            decreases i - j,
        {
            if es[j].content_hash == es[i].content_hash {
                assert(v[j as int].content_hash == v[i as int].content_hash);
                return false;
            }
            j = j + 1;
        }
        proof {
            assert forall|a: int, b: int| 0 <= a < b < i + 1 implies v[a].id < v[b].id by {
                if b == i && a < i - 1 {
                    assert(v[a].id < v[i - 1].id);
                }
            }
        }
        i = i + 1;
    }
    true
}

fn folders_ok(fs: &Vec<Folder>, seq: i64) -> (b: bool)
    ensures
        b == {
            let v = folders_view(fs@);
            &&& forall|i: int, j: int| 0 <= i < j < v.len() ==> v[i].id < v[j].id
            &&& forall|i: int| 0 <= i < v.len() ==> v[i].id <= seq
            &&& forall|i: int, j: int|
                0 <= i < j < v.len() ==> !(v[i].is_default && v[j].is_default)
        },
{
    let ghost v = folders_view(fs@);
    let n = fs.len();
    let mut seen_default = false;
    let mut i: usize = 0;
    while i < n
        invariant
            n == fs@.len(),
            v == folders_view(fs@),
            i <= n,
            forall|a: int, b: int| 0 <= a < b < i ==> v[a].id < v[b].id,
            forall|a: int| 0 <= a < i ==> v[a].id <= seq,
            forall|a: int, b: int| 0 <= a < b < i ==> !(v[a].is_default && v[b].is_default),
            seen_default == (exists|a: int| 0 <= a < i && v[a].is_default),
        decreases n - i,
    {
        if fs[i].id > seq {
            assert(v[i as int].id > seq);
            return false;
        }
        if i > 0 && fs[i - 1].id >= fs[i].id {
            assert(v[i - 1].id >= v[i as int].id);
            return false;
        }
        if fs[i].is_default {
            if seen_default {
                proof {
                    let a = choose|a: int| 0 <= a < i && v[a].is_default;
                    assert(!(v[a].is_default && v[i as int].is_default) == false);
                }
                return false;
            }
            seen_default = true;
        }
        proof {
            assert forall|a: int, b: int| 0 <= a < b < i + 1 implies v[a].id < v[b].id by {
                if b == i && a < i - 1 {
                    assert(v[a].id < v[i - 1].id);
                }
            }
            assert(v[i as int].is_default ==> seen_default);
        }
        i = i + 1;
    }
    true
}

fn links_ok(ls: &Vec<FolderEntryRow>) -> (b: bool)
    ensures
        b == {
            let v = links_view(ls@);
            forall|i: int, j: int|
                0 <= i < j < v.len() ==> !(v[i].folder_id == v[j].folder_id && v[i].entry_id
                    == v[j].entry_id)
        },
{
    let ghost v = links_view(ls@);
    let n = ls.len();
    let mut i: usize = 0;
    while i < n
        invariant
            n == ls@.len(),
            v == links_view(ls@),
            i <= n,
            forall|a: int, b: int|
                0 <= a < b < i ==> !(v[a].folder_id == v[b].folder_id && v[a].entry_id
                    == v[b].entry_id),
        decreases n - i,
    {
        let mut j: usize = 0;
        while j < i
            invariant
                n == ls@.len(),
                v == links_view(ls@),
                j <= i,
                i < n,
                forall|a: int|
                    0 <= a < j ==> !(v[a].folder_id == v[i as int].folder_id && v[a].entry_id
                        == v[i as int].entry_id),
            decreases i - j,
        {
            if ls[j].folder_id == ls[i].folder_id && ls[j].entry_id == ls[i].entry_id {
                assert(v[j as int].folder_id == v[i as int].folder_id && v[j as int].entry_id
                    == v[i as int].entry_id);
                return false;
            }
            j = j + 1;
        }
        i = i + 1;
    }
    true
}

fn settings_ok(ss: &Vec<SettingRow>) -> (b: bool)
    ensures
        b == {
            let v = settings_view(ss@);
            forall|i: int, j: int| 0 <= i < j < v.len() ==> v[i].key != v[j].key
        },
{
    let ghost v = settings_view(ss@);
    let n = ss.len();
    let mut i: usize = 0;
    while i < n
        invariant
            n == ss@.len(),
            v == settings_view(ss@),
            i <= n,
            forall|a: int, b: int| 0 <= a < b < i ==> v[a].key != v[b].key,
        decreases n - i,
    {
        let mut j: usize = 0;
        while j < i
            invariant
                n == ss@.len(),
                v == settings_view(ss@),
                j <= i,
                i < n,
                forall|a: int| 0 <= a < j ==> v[a].key != v[i as int].key,
            decreases i - j,
        {
            if ss[j].key == ss[i].key {
                assert(v[j as int].key == v[i as int].key);
                return false;
            }
            j = j + 1;
        }
        i = i + 1;
    }
    true
}

impl Database {
    /// A database made of rows read back from storage, when they are
    /// consistent (see `db_wf`); `InvalidData` otherwise.
    pub fn from_rows(
        entries: Vec<EntryRow>,
        folders: Vec<Folder>,
        links: Vec<FolderEntryRow>,
        settings: Vec<SettingRow>,
        entry_seq: i64,
        folder_seq: i64,
    ) -> (r: Result<Database, DbError>)
        ensures
            match r {
                Ok(db) => {
                    &&& db.wf()
                    &&& db@.entries == entries_view(entries@)
                    &&& db@.folders == folders_view(folders@)
                    &&& db@.links == links_view(links@)
                    &&& db@.settings == settings_view(settings@)
                    &&& db@.entry_seq == entry_seq
                    &&& db@.folder_seq == folder_seq
                },
                Err(e) => e == DbError::InvalidData && !db_wf(
                    super::DbView {
                        entries: entries_view(entries@),
                        folders: folders_view(folders@),
                        links: links_view(links@),
                        settings: settings_view(settings@),
                        entry_seq,
                        folder_seq,
                    },
                ),
            },
    {
        let ghost dv = super::DbView {
            entries: entries_view(entries@),
            folders: folders_view(folders@),
            links: links_view(links@),
            settings: settings_view(settings@),
            entry_seq,
            folder_seq,
        };
        let e_ok = entries_ok(&entries, entry_seq);
        let f_ok = folders_ok(&folders, folder_seq);
        let l_ok = links_ok(&links);
        let s_ok = settings_ok(&settings);
        if !(e_ok && f_ok && l_ok && s_ok) {
            proof {
                if db_wf(dv) {
                    let ev = entries_view(entries@);
                    let fv = folders_view(folders@);
                    let lv = links_view(links@);
                    let sv = settings_view(settings@);
                    assert forall|i: int, j: int| 0 <= i < j < ev.len() implies ev[i].id < ev[j].id
                        && ev[i].content_hash != ev[j].content_hash by {
                        assert(dv.entries[i].id < dv.entries[j].id);
                        assert(dv.entries[i].content_hash != dv.entries[j].content_hash);
                    }
                    assert forall|i: int| 0 <= i < ev.len() implies ev[i].id <= entry_seq
                        && is_content_type_name(ev[i].content_type) by {
                        assert(dv.entries[i].id <= entry_seq);
                        assert(is_content_type_name(dv.entries[i].content_type));
                    }
                    assert forall|i: int, j: int| 0 <= i < j < fv.len() implies fv[i].id < fv[j].id
                        && !(fv[i].is_default && fv[j].is_default) by {
                        assert(dv.folders[i].id < dv.folders[j].id);
                        assert(!(dv.folders[i].is_default && dv.folders[j].is_default));
                    }
                    assert forall|i: int| 0 <= i < fv.len() implies fv[i].id <= folder_seq by {
                        assert(dv.folders[i].id <= folder_seq);
                    }
                    assert forall|i: int, j: int| 0 <= i < j < lv.len() implies !(lv[i].folder_id
                        == lv[j].folder_id && lv[i].entry_id == lv[j].entry_id) by {
                        assert(!(dv.links[i].folder_id == dv.links[j].folder_id
                            && dv.links[i].entry_id == dv.links[j].entry_id));
                    }
                    assert forall|i: int, j: int| 0 <= i < j < sv.len() implies sv[i].key
                        != sv[j].key by {
                        assert(dv.settings[i].key != dv.settings[j].key);
                    }
                    assert(e_ok);
                    assert(f_ok);
                    assert(l_ok);
                    assert(s_ok);
                }
            }
            return Err(DbError::InvalidData);
        }
        Ok(Database { entries, folders, links, settings, entry_seq, folder_seq })
    }
}

} // verus!
