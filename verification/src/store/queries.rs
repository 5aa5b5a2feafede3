//! Storing captured contents and reading single entries back.
use vstd::prelude::*;

use super::{Database, DbError, DbView, EntryRow, EntryView, bytes_view, entries_view, is_content_type_name};
use crate::models::{ClipboardEntry, ClipboardEntryView, ContentType, content_type_name, str_equal};

verus! {

/// An entry with id `id` of the table, deleted or not.
pub open spec fn has_id(es: Seq<EntryView>, id: i64) -> bool {
    exists|i: int| 0 <= i < es.len() && es[i].id == id
}

/// The position of the entry with id `id` (ids are unique).
pub open spec fn pos_of_id(es: Seq<EntryView>, id: i64) -> int {
    choose|i: int| 0 <= i < es.len() && es[i].id == id
}

/// Whether the table holds a live entry with this content hash.
pub open spec fn has_live_hash(es: Seq<EntryView>, hash: Seq<char>) -> bool {
    exists|i: int| 0 <= i < es.len() && es[i].content_hash == hash && !es[i].is_deleted
}

pub open spec fn pos_of_live_hash(es: Seq<EntryView>, hash: Seq<char>) -> int {
    choose|i: int| 0 <= i < es.len() && es[i].content_hash == hash && !es[i].is_deleted
}

pub open spec fn has_hash(es: Seq<EntryView>, hash: Seq<char>) -> bool {
    exists|i: int| 0 <= i < es.len() && es[i].content_hash == hash
}

/// The entry `e` with its last access set to `now` when it has id `id`.
pub open spec fn touch(e: EntryView, id: i64, now: Seq<char>) -> EntryView {
    if e.id == id {
        EntryView { last_accessed: now, ..e }
    } else {
        e
    }
}

/// A freshly captured entry: not pinned, not deleted, captured and last
/// accessed `now`.
pub open spec fn new_entry(
    id: i64,
    hash: Seq<char>,
    text_preview: Seq<char>,
    content_type: ContentType,
    raw_content: Option<Seq<u8>>,
    content_size: i64,
    source_app: Seq<char>,
    source_class: Seq<char>,
    now: Seq<char>,
) -> EntryView {
    EntryView {
        id,
        content_hash: hash,
        text_preview,
        content_type: content_type_name(content_type),
        raw_content,
        content_size,
        source_app,
        source_class,
        captured_at: now,
        last_accessed: now,
        is_pinned: false,
        is_deleted: false,
    }
}

pub open spec fn pos_of_hash(es: Seq<EntryView>, hash: Seq<char>) -> int {
    choose|i: int| 0 <= i < es.len() && es[i].content_hash == hash
}

/// Storing one captured content. On a hash conflict only the last access of
/// the entry with that hash (the hash is unique in the table) is set to
/// `now`, and no new id is reported: a live entry is so moved to the top, a
/// deleted one stays deleted. Otherwise a new entry gets the next row id.
pub open spec fn spec_insert_or_update_entry(
    v: DbView,
    now: Seq<char>,
    hash: Seq<char>,
    text_preview: Seq<char>,
    content_type: ContentType,
    raw_content: Option<Seq<u8>>,
    content_size: i64,
    source_app: Seq<char>,
    source_class: Seq<char>,
) -> (DbView, Result<Option<i64>, DbError>) {
    if has_live_hash(v.entries, hash) {
        let id = v.entries[pos_of_live_hash(v.entries, hash)].id;
        (DbView { entries: v.entries.map_values(|e: EntryView| touch(e, id, now)), ..v }, Ok(None))
    } else if has_hash(v.entries, hash) {
        let id = v.entries[pos_of_hash(v.entries, hash)].id;
        (DbView { entries: v.entries.map_values(|e: EntryView| touch(e, id, now)), ..v }, Ok(None))
    } else if v.entry_seq == i64::MAX {
        (v, Err(DbError::DatabaseFull))
    } else {
        let id = (v.entry_seq + 1) as i64;
        (
            DbView {
                entries: v.entries.push(
                    new_entry(
                        id,
                        hash,
                        text_preview,
                        content_type,
                        raw_content,
                        content_size,
                        source_app,
                        source_class,
                        now,
                    ),
                ),
                entry_seq: id,
                ..v
            },
            Ok(Some(id)),
        )
    }
}

/// The public form of a stored entry (its raw content left out).
pub open spec fn public_entry(e: EntryView) -> ClipboardEntryView {
    ClipboardEntryView {
        id: e.id,
        content_hash: e.content_hash,
        text_preview: e.text_preview,
        content_type: e.content_type,
        content_size: e.content_size,
        source_app: e.source_app,
        source_class: e.source_class,
        captured_at: e.captured_at,
        last_accessed: e.last_accessed,
        is_pinned: e.is_pinned,
        is_deleted: e.is_deleted,
    }
}

pub open spec fn has_live_id(es: Seq<EntryView>, id: i64) -> bool {
    exists|i: int| 0 <= i < es.len() && es[i].id == id && !es[i].is_deleted
}

/// The live entry with id `id`, if there is one.
pub open spec fn spec_get_entry_by_id(v: DbView, id: i64) -> Option<ClipboardEntryView> {
    if has_live_id(v.entries, id) {
        Some(public_entry(v.entries[pos_of_id(v.entries, id)]))
    } else {
        None
    }
}

/// The raw content of the live entry with id `id`; `None` also when that
/// entry has no raw content.
pub open spec fn spec_get_entry_raw_content(v: DbView, id: i64) -> Option<Seq<u8>> {
    if has_live_id(v.entries, id) {
        v.entries[pos_of_id(v.entries, id)].raw_content
    } else {
        None
    }
}

pub proof fn lemma_pos_of_id(es: Seq<EntryView>, id: i64, k: int)
    requires
        forall|i: int, j: int| 0 <= i < j < es.len() ==> es[i].id < es[j].id,
        0 <= k < es.len(),
        es[k].id == id,
    ensures
        has_id(es, id),
        pos_of_id(es, id) == k,
{
    let p = pos_of_id(es, id);
    assert(0 <= k < es.len() && es[k].id == id);
    assert(0 <= p < es.len() && es[p].id == id);
    if p < k {
        assert(es[p].id < es[k].id);
    } else if p > k {
        assert(es[k].id < es[p].id);
    }
}

/// Finds the position of the entry with id `id`.
pub(crate) fn find_entry(entries: &Vec<EntryRow>, id: i64) -> (r: Option<usize>)
    requires
        forall|i: int, j: int|
            0 <= i < j < entries@.len() ==> entries_view(entries@)[i].id < entries_view(
                entries@,
            )[j].id,
    ensures
        match r {
            Some(k) => k < entries@.len() && entries@[k as int].id == id && pos_of_id(
                entries_view(entries@),
                id,
            ) == k,
            None => !has_id(entries_view(entries@), id),
        },
{
    let n = entries.len();
    let mut i: usize = 0;
    while i < n
        invariant
            n == entries@.len(),
            i <= n,
            forall|j: int| 0 <= j < i ==> entries_view(entries@)[j].id != id,
            forall|a: int, b: int|
                0 <= a < b < entries@.len() ==> entries_view(entries@)[a].id < entries_view(
                    entries@,
                )[b].id,
        decreases n - i,
    {
        if entries[i].id == id {
            proof {
                lemma_pos_of_id(entries_view(entries@), id, i as int);
            }
            return Some(i);
        }
        i = i + 1;
    }
    None
}

/// Finds the position of the entry with this content hash.
fn find_hash(entries: &Vec<EntryRow>, hash: &str) -> (r: Option<usize>)
    ensures
        match r {
            Some(k) => k < entries@.len() && entries_view(entries@)[k as int].content_hash
                == hash@,
            None => !has_hash(entries_view(entries@), hash@),
        },
{
    let n = entries.len();
    let mut i: usize = 0;
    while i < n
        invariant
            n == entries@.len(),
            i <= n,
            forall|j: int| 0 <= j < i ==> entries_view(entries@)[j].content_hash != hash@,
        decreases n - i,
    {
        if str_equal(entries[i].content_hash.as_str(), hash) {
            return Some(i);
        }
        i = i + 1;
    }
    None
}

/// A copy of the public part of a stored entry.
pub(crate) fn public_copy(e: &EntryRow) -> (r: ClipboardEntry)
    ensures
        r@ == public_entry(e@),
{
    ClipboardEntry {
        id: e.id,
        content_hash: e.content_hash.clone(),
        text_preview: e.text_preview.clone(),
        content_type: e.content_type.clone(),
        content_size: e.content_size,
        source_app: e.source_app.clone(),
        source_class: e.source_class.clone(),
        captured_at: e.captured_at.clone(),
        last_accessed: e.last_accessed.clone(),
        is_pinned: e.is_pinned,
        is_deleted: e.is_deleted,
    }
}

impl Database {
    /// Stores one captured content (see `spec_insert_or_update_entry`).
    pub fn insert_or_update_entry(
        &mut self,
        now: &str,
        hash: &str,
        text_preview: &str,
        content_type: &ContentType,
        raw_content: Option<&[u8]>,
        content_size: i64,
        source_app: &str,
        source_class: &str,
    ) -> (r: Result<Option<i64>, DbError>)
        requires
            old(self).wf(),
        ensures
            final(self).wf(),
            (final(self)@, r) == spec_insert_or_update_entry(
                old(self)@,
                now@,
                hash@,
                text_preview@,
                *content_type,
                match raw_content {
                    Some(s) => Some(s@),
                    None => None,
                },
                content_size,
                source_app@,
                source_class@,
            ),
    {
        let ghost v = self@;
        let found = find_hash(&self.entries, hash);
        if let Some(i) = found {
            assert(v.entries[i as int].content_hash == hash@);
            if !self.entries[i].is_deleted {
                let id = self.entries[i].id;
                proof {
                    let k = pos_of_live_hash(v.entries, hash@);
                    assert(has_live_hash(v.entries, hash@));
                    assert(v.entries[k].content_hash == hash@);
                    if k < i {
                        assert(v.entries[k].content_hash != v.entries[i as int].content_hash);
                    } else if k > i {
                        assert(v.entries[i as int].content_hash != v.entries[k].content_hash);
                    }
                }
                self.entries[i].last_accessed = String::from_str(now);
                proof {
                    let f = |e: EntryView| touch(e, id, now@);
                    assert forall|j: int| 0 <= j < v.entries.len() implies self@.entries[j].id
                        == v.entries[j].id && self@.entries[j].content_hash
                        == v.entries[j].content_hash && self@.entries[j].content_type
                        == v.entries[j].content_type by {}
                    assert(self@.entries =~= v.entries.map_values(f)) by {
                        assert forall|j: int| 0 <= j < v.entries.len() implies self@.entries[j]
                            == v.entries.map_values(f)[j] by {
                            if j < i {
                                assert(v.entries[j].id < v.entries[i as int].id);
                            } else if j > i {
                                assert(v.entries[i as int].id < v.entries[j].id);
                            }
                        }
                    }
                }
                return Ok(None);
            } else {
                let id = self.entries[i].id;
                proof {
                    if has_live_hash(v.entries, hash@) {
                        let k = pos_of_live_hash(v.entries, hash@);
                        if k < i {
                            assert(v.entries[k].content_hash != v.entries[i as int].content_hash);
                        } else if k > i {
                            assert(v.entries[i as int].content_hash != v.entries[k].content_hash);
                        }
                    }
                    let k = pos_of_hash(v.entries, hash@);
                    assert(has_hash(v.entries, hash@));
                    assert(v.entries[k].content_hash == hash@);
                    if k < i {
                        assert(v.entries[k].content_hash != v.entries[i as int].content_hash);
                    } else if k > i {
                        assert(v.entries[i as int].content_hash != v.entries[k].content_hash);
                    }
                }
                self.entries[i].last_accessed = String::from_str(now);
                proof {
                    let f = |e: EntryView| touch(e, id, now@);
                    assert forall|j: int| 0 <= j < v.entries.len() implies self@.entries[j].id
                        == v.entries[j].id && self@.entries[j].content_hash
                        == v.entries[j].content_hash && self@.entries[j].content_type
                        == v.entries[j].content_type by {}
                    assert(self@.entries =~= v.entries.map_values(f)) by {
                        assert forall|j: int| 0 <= j < v.entries.len() implies self@.entries[j]
                            == v.entries.map_values(f)[j] by {
                            if j < i {
                                assert(v.entries[j].id < v.entries[i as int].id);
                            } else if j > i {
                                assert(v.entries[i as int].id < v.entries[j].id);
                            }
                        }
                    }
                }
                return Ok(None);
            }
        }
        if self.entry_seq == i64::MAX {
            return Err(DbError::DatabaseFull);
        }
        let id = self.entry_seq + 1;
        let row = EntryRow {
            id,
            content_hash: String::from_str(hash),
            text_preview: String::from_str(text_preview),
            content_type: String::from_str(content_type.as_str()),
            raw_content: match raw_content {
                Some(s) => Some(vstd::slice::slice_to_vec(s)),
                None => None,
            },
            content_size,
            source_app: String::from_str(source_app),
            source_class: String::from_str(source_class),
            captured_at: String::from_str(now),
            last_accessed: String::from_str(now),
            is_pinned: false,
            is_deleted: false,
        };
        self.entries.push(row);
        self.entry_seq = id;
        proof {
            assert(self@.entries =~= v.entries.push(
                new_entry(
                    id,
                    hash@,
                    text_preview@,
                    *content_type,
                    match raw_content {
                        Some(s) => Some(s@),
                        None => None,
                    },
                    content_size,
                    source_app@,
                    source_class@,
                    now@,
                ),
            ));
            assert(is_content_type_name(content_type_name(*content_type)));
        }
        Ok(Some(id))
    }

    /// The live entry with id `id`, without its raw content.
    pub fn get_entry_by_id(&self, id: i64) -> (r: Option<ClipboardEntry>)
        requires
            self.wf(),
        ensures
            match r {
                Some(e) => spec_get_entry_by_id(self@, id) == Some(e@),
                None => spec_get_entry_by_id(self@, id) is None,
            },
    {
        match find_entry(&self.entries, id) {
            Some(k) => {
                if self.entries[k].is_deleted {
                    None
                } else {
                    Some(public_copy(&self.entries[k]))
                }
            },
            None => None,
        }
    }

    /// The raw content of the live entry with id `id`.
    pub fn get_entry_raw_content(&self, id: i64) -> (r: Option<Vec<u8>>)
        requires
            self.wf(),
        ensures
            bytes_view(r) == spec_get_entry_raw_content(self@, id),
    {
        match find_entry(&self.entries, id) {
            Some(k) => {
                if self.entries[k].is_deleted {
                    None
                } else {
                    match &self.entries[k].raw_content {
                        Some(v) => Some(v.clone()),
                        None => None,
                    }
                }
            },
            None => None,
        }
    }
}

} // verus!
