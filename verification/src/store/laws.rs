//! Properties of the history that span several operations.
use vstd::prelude::*;

use super::changes::{EntryChange, change_entries, changed, default_folder_id, folder_entry_ids, has_default_folder, is_default_folder, spec_clear_folder_entries, spec_clear_unpinned, spec_soft_delete_entry, spec_toggle_pin, folder_pos, has_folder};
use super::folders::{max_sort_order, spec_create_folder, spec_delete_folder, spec_get_entry_folders};
use super::links::{LinkSel, add_link, has_link, link_kept, link_selected, remove_links};
use super::listing::{doomed_ids, listed, recent_before, spec_cleanup_old_entries, unpinned_entries};
use super::order::{insert_in_order, lemma_order_by_len, order_by, window};
use super::listing::{spec_get_entries};
use super::search::{like_match, search_pattern, spec_search_entries};
use super::queries::{has_hash, has_id, has_live_hash, has_live_id, lemma_pos_of_id, new_entry, pos_of_hash, pos_of_id, pos_of_live_hash, public_entry, spec_get_entry_by_id, spec_get_entry_raw_content, spec_insert_or_update_entry, touch};
use super::seqs::{lemma_filter_keeps, lemma_filter_members, lemma_filter_none, lemma_filter_pairwise};
use vstd::set_lib::lemma_len_subset;
use super::settings::{has_setting, setting_pos, spec_get_setting, spec_insert_setting_if_absent, spec_set_setting, updated_setting};
use super::migrations::{backfill_pins, spec_ensure_default_folder, spec_run_migrations, spec_seed_settings};
use super::{DbError, DbView, EntryView, FolderView, LinkView, SettingView, db_wf};
use crate::models::ContentType;

verus! {

/// A setting reads back as the value last stored under its key, and storing
/// it leaves the value of every other key as it was.
pub proof fn lemma_setting_read_after_write(
    v: DbView,
    now: Seq<char>,
    key: Seq<char>,
    value: Seq<char>,
    other: Seq<char>,
)
    requires
        db_wf(v),
    ensures
        spec_get_setting(spec_set_setting(v, now, key, value), key) == Some(value),
        other != key ==> spec_get_setting(spec_set_setting(v, now, key, value), other)
            == spec_get_setting(v, other),
{
    let v1 = spec_set_setting(v, now, key, value);
    let ss = v.settings;
    let ns = v1.settings;
    if has_setting(ss, key) {
        let p = setting_pos(ss, key);
        assert(ns[p].key == key);
        assert(has_setting(ns, key));
        let q = setting_pos(ns, key);
        assert(ns[q] == updated_setting(ss[q], key, value, now));
    } else {
        assert(ns[ss.len() as int].key == key);
        assert(has_setting(ns, key));
        let q = setting_pos(ns, key);
        if q < ss.len() {
            assert(ns[q] == ss[q]);
            assert(false);
        }
    }
    if other != key {
        if has_setting(ss, other) {
            let p = setting_pos(ss, other);
            assert(ns[p].key == other);
            assert(has_setting(ns, other));
            let q = setting_pos(ns, other);
            assert(q < ss.len());
            assert(ns[q].key == ss[q].key);
            if p < q {
                assert(ss[p].key != ss[q].key);
            } else if q < p {
                assert(ss[q].key != ss[p].key);
            }
        } else if has_setting(ns, other) {
            let q = setting_pos(ns, other);
            if q < ss.len() {
                assert(ns[q].key == ss[q].key);
            }
            assert(false);
        }
    }
}

/// The outcome of storing a captured content.
pub open spec fn inserted(
    v: DbView,
    now: Seq<char>,
    hash: Seq<char>,
    text_preview: Seq<char>,
    content_type: ContentType,
    raw_content: Option<Seq<u8>>,
    content_size: i64,
    source_app: Seq<char>,
    source_class: Seq<char>,
) -> (DbView, Result<Option<i64>, DbError>) {
    spec_insert_or_update_entry(
        v,
        now,
        hash,
        text_preview,
        content_type,
        raw_content,
        content_size,
        source_app,
        source_class,
    )
}

/// A newly stored content (its hash not in the table yet) reads back by its
/// new id: the entry with its
/// fields as captured, and its raw content.
pub proof fn lemma_inserted_entry_reads_back(
    v: DbView,
    now: Seq<char>,
    hash: Seq<char>,
    text_preview: Seq<char>,
    content_type: ContentType,
    raw_content: Option<Seq<u8>>,
    content_size: i64,
    source_app: Seq<char>,
    source_class: Seq<char>,
)
    requires
        db_wf(v),
    ensures
        ({
            let (v1, r) = inserted(
                v,
                now,
                hash,
                text_preview,
                content_type,
                raw_content,
                content_size,
                source_app,
                source_class,
            );
            !has_hash(v.entries, hash) ==> (r matches Ok(Some(id)) ==> {
                &&& spec_get_entry_by_id(v1, id) == Some(
                    public_entry(
                        new_entry(
                            id,
                            hash,
                            text_preview,
                            content_type,
                            raw_content,
                            content_size,
                            source_app,
                            source_class,
                            now,
                        ),
                    ),
                )
                &&& spec_get_entry_raw_content(v1, id) == raw_content
            })
        }),
{
    let (v1, r) = inserted(
        v,
        now,
        hash,
        text_preview,
        content_type,
        raw_content,
        content_size,
        source_app,
        source_class,
    );
    if r matches Ok(Some(_)) && !has_hash(v.entries, hash) {
        let id = r->Ok_0->Some_0;
        let es = v1.entries;
        let k = v.entries.len() as int;
        assert(es[k].id == id);
        assert forall|i: int, j: int| 0 <= i < j < es.len() implies es[i].id < es[j].id by {
            if j == k {
                assert(es[i] == v.entries[i]);
            }
        }
        lemma_pos_of_id(es, id, k);
        assert(has_live_id(es, id));
    }
}

/// Storing the same content a second time adds no entry: the answer is that
/// no new id was made, and the table keeps its length.
pub proof fn lemma_same_content_stored_once(
    v: DbView,
    now: Seq<char>,
    now2: Seq<char>,
    hash: Seq<char>,
    text_preview: Seq<char>,
    content_type: ContentType,
    raw_content: Option<Seq<u8>>,
    content_size: i64,
    source_app: Seq<char>,
    source_class: Seq<char>,
)
    requires
        db_wf(v),
        inserted(
            v,
            now,
            hash,
            text_preview,
            content_type,
            raw_content,
            content_size,
            source_app,
            source_class,
        ).1 is Ok,
    ensures
        ({
            let v1 = inserted(
                v,
                now,
                hash,
                text_preview,
                content_type,
                raw_content,
                content_size,
                source_app,
                source_class,
            ).0;
            let (v2, r2) = inserted(
                v1,
                now2,
                hash,
                text_preview,
                content_type,
                raw_content,
                content_size,
                source_app,
                source_class,
            );
            &&& r2 == Ok::<Option<i64>, DbError>(None)
            &&& v2.entries.len() == v1.entries.len()
        }),
{
    let v1 = inserted(
        v,
        now,
        hash,
        text_preview,
        content_type,
        raw_content,
        content_size,
        source_app,
        source_class,
    ).0;
    if has_live_hash(v.entries, hash) {
        let p = pos_of_live_hash(v.entries, hash);
        let id = v.entries[p].id;
        assert(v1.entries[p] == touch(v.entries[p], id, now));
        assert(has_live_hash(v1.entries, hash));
    } else if has_hash(v.entries, hash) {
        let p = pos_of_hash(v.entries, hash);
        let id = v.entries[p].id;
        assert(v1.entries[p] == touch(v.entries[p], id, now));
        assert(v1.entries.len() == v.entries.len());
    } else {
        let k = v.entries.len() as int;
        assert(v1.entries[k].content_hash == hash && !v1.entries[k].is_deleted);
        assert(has_live_hash(v1.entries, hash));
    }
}

/// Capturing content whose hash belongs to a deleted entry only sets that
/// entry's last access: no new id is reported, the entry stays deleted, and
/// the table keeps its length.
pub proof fn lemma_deleted_content_conflict(
    v: DbView,
    now: Seq<char>,
    hash: Seq<char>,
    text_preview: Seq<char>,
    content_type: ContentType,
    raw_content: Option<Seq<u8>>,
    content_size: i64,
    source_app: Seq<char>,
    source_class: Seq<char>,
    k: int,
)
    requires
        db_wf(v),
        0 <= k < v.entries.len(),
        v.entries[k].content_hash == hash,
        v.entries[k].is_deleted,
    ensures
        ({
            let (v1, r) = inserted(
                v,
                now,
                hash,
                text_preview,
                content_type,
                raw_content,
                content_size,
                source_app,
                source_class,
            );
            let e = v.entries[k];
            &&& r == Ok::<Option<i64>, DbError>(None)
            &&& v1.entries[k] == EntryView { last_accessed: now, ..e }
            &&& spec_get_entry_by_id(v1, e.id) is None
            &&& v1.entries.len() == v.entries.len()
        }),
{
    let e = v.entries[k];
    if has_live_hash(v.entries, hash) {
        let q = pos_of_live_hash(v.entries, hash);
        if q < k {
            assert(v.entries[q].content_hash != v.entries[k].content_hash);
        } else if k < q {
            assert(v.entries[k].content_hash != v.entries[q].content_hash);
        }
    }
    assert(has_hash(v.entries, hash));
    let p = pos_of_hash(v.entries, hash);
    if p < k {
        assert(v.entries[p].content_hash != v.entries[k].content_hash);
    } else if k < p {
        assert(v.entries[k].content_hash != v.entries[p].content_hash);
    }
    let v1 = inserted(
        v,
        now,
        hash,
        text_preview,
        content_type,
        raw_content,
        content_size,
        source_app,
        source_class,
    ).0;
    let es = v1.entries;
    assert forall|i: int, j: int| 0 <= i < j < es.len() implies es[i].id < es[j].id by {
        assert(es[i].id == v.entries[i].id);
        assert(es[j].id == v.entries[j].id);
    }
    assert(es[k] == touch(e, e.id, now));
    lemma_pos_of_id(es, e.id, k);
    if has_live_id(es, e.id) {
        let q = choose|q: int| 0 <= q < es.len() && es[q].id == e.id && !es[q].is_deleted;
        if q < k {
            assert(es[q].id < es[k].id);
        } else if k < q {
            assert(es[k].id < es[q].id);
        }
    }
}

proof fn lemma_flip_keeps_ids(v: DbView, id: i64)
    requires
        db_wf(v),
        has_id(v.entries, id),
    ensures
        ({
            let es = change_entries(v, EntryChange::FlipPin(id)).entries;
            &&& es.len() == v.entries.len()
            &&& has_id(es, id)
            &&& pos_of_id(es, id) == pos_of_id(v.entries, id)
            &&& es[pos_of_id(v.entries, id)].is_pinned == !v.entries[pos_of_id(
                v.entries,
                id,
            )].is_pinned
            &&& forall|i: int, j: int| 0 <= i < j < es.len() ==> es[i].id < es[j].id
        }),
{
    let es = change_entries(v, EntryChange::FlipPin(id)).entries;
    let k = pos_of_id(v.entries, id);
    assert forall|i: int, j: int| 0 <= i < j < es.len() implies es[i].id < es[j].id by {
        assert(es[i].id == v.entries[i].id);
        assert(es[j].id == v.entries[j].id);
    }
    assert(es[k].id == id);
    lemma_pos_of_id(es, id, k);
}

/// Pinning goes with the default folder: after a toggle, the entry is
/// pinned exactly when it is in the default folder, and the answer is its
/// new pin.
pub proof fn lemma_toggle_pin_syncs_default_folder(v: DbView, now: Seq<char>, id: i64)
    requires
        db_wf(v),
        has_id(v.entries, id),
        has_default_folder(v.folders),
    ensures
        ({
            let (v1, p) = spec_toggle_pin(v, now, id);
            &&& v1.entries[pos_of_id(v1.entries, id)].is_pinned == p
            &&& has_link(v1.links, default_folder_id(v1.folders), id) == p
        }),
{
    lemma_flip_keeps_ids(v, id);
    let (v1, p) = spec_toggle_pin(v, now, id);
    let w = change_entries(v, EntryChange::FlipPin(id));
    let d = default_folder_id(w.folders);
    if p {
        if !has_link(w.links, d, id) {
            assert(v1.links[w.links.len() as int].folder_id == d);
        }
    } else {
        let sel = LinkSel::Pair(d, id);
        let kept = w.links.filter(link_kept(sel));
        lemma_filter_members(w.links, link_kept(sel));
        if has_link(kept, d, id) {
            let i = choose|i: int| 0 <= i < kept.len() && kept[i].folder_id == d && kept[i].entry_id == id;
            assert(link_kept(sel)(kept[i]));
            assert(false);
        }
    }
}

/// Toggling the pin twice gives every entry back its pin, and the two
/// answers are opposite.
pub proof fn lemma_toggle_pin_twice(v: DbView, now1: Seq<char>, now2: Seq<char>, id: i64)
    requires
        db_wf(v),
        has_id(v.entries, id),
    ensures
        ({
            let (v1, p1) = spec_toggle_pin(v, now1, id);
            let (v2, p2) = spec_toggle_pin(v1, now2, id);
            &&& p2 == !p1
            &&& v2.entries == v.entries
        }),
{
    lemma_flip_keeps_ids(v, id);
    let (v1, p1) = spec_toggle_pin(v, now1, id);
    let w = change_entries(v, EntryChange::FlipPin(id));
    assert(v1.entries == w.entries);
    let (v2, p2) = spec_toggle_pin(v1, now2, id);
    let w2 = change_entries(v1, EntryChange::FlipPin(id));
    assert(v2.entries == w2.entries);
    assert forall|i: int| 0 <= i < v.entries.len() implies w2.entries[i] == v.entries[i] by {
        assert(w.entries[i] == changed(EntryChange::FlipPin(id), v.entries[i]));
        assert(w2.entries[i] == changed(EntryChange::FlipPin(id), w.entries[i]));
    }
    assert(w2.entries =~= v.entries);
}

/// The default folder is never deleted, and the deleted folder is gone.
pub proof fn lemma_delete_folder_keeps_default(v: DbView, id: i64)
    ensures
        forall|i: int|
            0 <= i < v.folders.len() && v.folders[i].is_default ==> spec_delete_folder(
                v,
                id,
            ).folders.contains(v.folders[i]),
        forall|f: FolderView|
            spec_delete_folder(v, id).folders.contains(f) ==> !(f.id == id && !f.is_default),
{
    let p = |f: FolderView| !(f.id == id && !f.is_default);
    let nf = v.folders.filter(p);
    assert(spec_delete_folder(v, id).folders == nf);
    assert forall|i: int| 0 <= i < v.folders.len() && v.folders[i].is_default implies nf.contains(
        v.folders[i],
    ) by {
        lemma_filter_keeps(v.folders, p, i);
    }
    lemma_filter_members(v.folders, p);
    assert forall|f: FolderView| nf.contains(f) implies !(f.id == id && !f.is_default) by {
        let j = choose|j: int| 0 <= j < nf.len() && nf[j] == f;
        assert(p(nf[j]));
    }
}

/// Clearing the history leaves only pinned entries live, and leaves every
/// pinned entry as it was.
pub proof fn lemma_clear_unpinned_keeps_pinned(v: DbView)
    ensures
        ({
            let v1 = spec_clear_unpinned(v).0;
            &&& v1.entries.len() == v.entries.len()
            &&& forall|i: int|
                0 <= i < v1.entries.len() && !v1.entries[i].is_deleted ==> v1.entries[i].is_pinned
            &&& forall|i: int|
                0 <= i < v.entries.len() && v.entries[i].is_pinned ==> v1.entries[i]
                    == v.entries[i]
        }),
{
    let v1 = spec_clear_unpinned(v).0;
    assert forall|i: int| 0 <= i < v1.entries.len() implies v1.entries[i] == changed(
        EntryChange::DeleteUnpinned,
        v.entries[i],
    ) by {}
}

/// A deleted entry no longer reads back and is in no folder.
pub proof fn lemma_deleted_entry_is_gone(v: DbView, id: i64)
    requires
        db_wf(v),
    ensures
        spec_get_entry_by_id(spec_soft_delete_entry(v, id), id) is None,
        spec_get_entry_raw_content(spec_soft_delete_entry(v, id), id) is None,
        spec_get_entry_folders(spec_soft_delete_entry(v, id), id).len() == 0,
{
    let v1 = spec_soft_delete_entry(v, id);
    let w = change_entries(v, EntryChange::Delete(id));
    assert(v1.entries == w.entries);
    if has_live_id(v1.entries, id) {
        let i = choose|i: int|
            0 <= i < v1.entries.len() && v1.entries[i].id == id && !v1.entries[i].is_deleted;
        assert(v1.entries[i] == changed(EntryChange::Delete(id), v.entries[i]));
        assert(false);
    }
    let sel = LinkSel::OfEntry(id);
    lemma_filter_members(w.links, link_kept(sel));
    assert forall|i: int| 0 <= i < v1.links.len() implies !((|l: LinkView| l.entry_id == id)(
        v1.links[i],
    )) by {
        assert(link_kept(sel)(v1.links[i]));
    }
    lemma_filter_none(v1.links, |l: LinkView| l.entry_id == id);
}

/// Emptying the default folder unpins the entries that were in it, and
/// leaves the folder without links.
pub proof fn lemma_clear_default_folder_unpins(v: DbView, folder_id: i64)
    requires
        is_default_folder(v.folders, folder_id),
    ensures
        ({
            let v1 = spec_clear_folder_entries(v, folder_id).0;
            &&& forall|i: int|
                0 <= i < v1.entries.len() && folder_entry_ids(v.links, folder_id).contains(
                    v1.entries[i].id,
                ) ==> !v1.entries[i].is_pinned
            &&& forall|i: int| 0 <= i < v1.links.len() ==> v1.links[i].folder_id != folder_id
        }),
{
    let v1 = spec_clear_folder_entries(v, folder_id).0;
    let ids = folder_entry_ids(v.links, folder_id);
    let sel = LinkSel::OfFolder(folder_id);
    let r = remove_links(v, sel);
    lemma_filter_members(v.links, link_kept(sel));
    assert forall|i: int| 0 <= i < v1.links.len() implies v1.links[i].folder_id != folder_id by {
        assert(v1.links == r.links);
        assert(link_kept(sel)(r.links[i]));
    }
    if ids.len() > 0 {
        assert forall|i: int|
            0 <= i < v1.entries.len() && ids.contains(v1.entries[i].id) implies !v1.entries[i].is_pinned by {
            assert(v1.entries[i] == changed(EntryChange::UnpinAmong(ids), v.entries[i]));
        }
    }
}

proof fn lemma_insert_in_order_members<T>(s: Seq<T>, x: T, before: spec_fn(T, T) -> bool, y: T)
    ensures
        insert_in_order(s, x, before).contains(y) ==> (y == x || s.contains(y)),
    decreases s.len(),
{
    let r = insert_in_order(s, x, before);
    if s.len() == 0 {
        if r.contains(y) {
            let i = choose|i: int| 0 <= i < r.len() && r[i] == y;
        }
    } else if before(x, s[0]) {
        if r.contains(y) && y != x {
            let i = choose|i: int| 0 <= i < r.len() && r[i] == y;
            assert(s[i - 1] == y);
        }
    } else {
        let t = s.drop_first();
        lemma_insert_in_order_members(t, x, before, y);
        if r.contains(y) && y != x {
            let i = choose|i: int| 0 <= i < r.len() && r[i] == y;
            if i == 0 {
                assert(s[0] == y);
            } else {
                assert(insert_in_order(t, x, before)[i - 1] == y);
                if t.contains(y) {
                    let j = choose|j: int| 0 <= j < t.len() && t[j] == y;
                    assert(s[j + 1] == y);
                }
            }
        }
    }
}

proof fn lemma_order_by_members<T>(s: Seq<T>, before: spec_fn(T, T) -> bool, y: T)
    ensures
        order_by(s, before).contains(y) ==> s.contains(y),
    decreases s.len(),
{
    if s.len() > 0 {
        let d = s.drop_last();
        lemma_order_by_members(d, before, y);
        lemma_insert_in_order_members(order_by(d, before), s.last(), before, y);
        if order_by(s, before).contains(y) {
            if y == s.last() {
                assert(s[s.len() - 1] == y);
            } else {
                let j = choose|j: int| 0 <= j < d.len() && d[j] == y;
                assert(s[j] == y);
            }
        }
    }
}

proof fn lemma_insert_in_order_keeps_all<T>(s: Seq<T>, x: T, before: spec_fn(T, T) -> bool, y: T)
    ensures
        (y == x || s.contains(y)) ==> insert_in_order(s, x, before).contains(y),
    decreases s.len(),
{
    let r = insert_in_order(s, x, before);
    if s.len() == 0 {
        if y == x {
            assert(r[0] == x);
        }
    } else if before(x, s[0]) {
        if y == x {
            assert(r[0] == x);
        } else if s.contains(y) {
            let i = choose|i: int| 0 <= i < s.len() && s[i] == y;
            assert(r[i + 1] == y);
        }
    } else {
        let t = s.drop_first();
        lemma_insert_in_order_keeps_all(t, x, before, y);
        if y == x || s.contains(y) {
            if y != x && s[0] == y {
                assert(r[0] == y);
            } else {
                if y != x {
                    let i = choose|i: int| 0 <= i < s.len() && s[i] == y;
                    assert(t[i - 1] == y);
                }
                let j = choose|j: int|
                    0 <= j < insert_in_order(t, x, before).len() && insert_in_order(t, x, before)[j]
                        == y;
                assert(r[j + 1] == y);
            }
        }
    }
}

proof fn lemma_order_by_keeps_all<T>(s: Seq<T>, before: spec_fn(T, T) -> bool, y: T)
    ensures
        s.contains(y) ==> order_by(s, before).contains(y),
    decreases s.len(),
{
    if s.len() > 0 {
        let d = s.drop_last();
        lemma_order_by_keeps_all(d, before, y);
        if s.contains(y) && y != s.last() {
            let i = choose|i: int| 0 <= i < s.len() && s[i] == y;
            assert(d[i] == y);
        }
        lemma_insert_in_order_keeps_all(order_by(d, before), s.last(), before, y);
    }
}

/// Whether the entry ids rise along the table.
pub open spec fn ids_rising(es: Seq<EntryView>) -> bool {
    forall|i: int, j: int| 0 <= i < j < es.len() ==> es[i].id < es[j].id
}

/// Storing a captured content keeps the entry ids rising.
pub proof fn lemma_insert_keeps_ids_rising(
    v: DbView,
    now: Seq<char>,
    hash: Seq<char>,
    text_preview: Seq<char>,
    content_type: ContentType,
    raw_content: Option<Seq<u8>>,
    content_size: i64,
    source_app: Seq<char>,
    source_class: Seq<char>,
)
    requires
        db_wf(v),
    ensures
        ids_rising(
            inserted(
                v,
                now,
                hash,
                text_preview,
                content_type,
                raw_content,
                content_size,
                source_app,
                source_class,
            ).0.entries,
        ),
{
    let v1 = inserted(
        v,
        now,
        hash,
        text_preview,
        content_type,
        raw_content,
        content_size,
        source_app,
        source_class,
    ).0;
    let es = v1.entries;
    assert forall|i: int, j: int| 0 <= i < j < es.len() implies es[i].id < es[j].id by {
        if j < v.entries.len() {
            assert(es[i].id == v.entries[i].id);
            assert(es[j].id == v.entries[j].id);
        } else {
            assert(es[i].id == v.entries[i].id);
        }
    }
}

/// After cleaning up to `max_count`, at most `max_count` live unpinned
/// entries remain (none when it is negative).
pub proof fn lemma_cleanup_limit(v: DbView, max_count: i64)
    requires
        ids_rising(v.entries),
    ensures
        unpinned_entries(spec_cleanup_old_entries(v, max_count).0).len() <= (if max_count < 0 {
            0
        } else {
            max_count as int
        }),
{
    let count = unpinned_entries(v).len();
    if count > max_count {
        let doomed = doomed_ids(v, max_count);
        let keep: int = if max_count < 0 {
            0
        } else {
            max_count as int
        };
        let before = |a: EntryView, b: EntryView| recent_before(a, b);
        let ord = order_by(unpinned_entries(v), before);
        lemma_order_by_len(unpinned_entries(v), before);
        let p = |e: EntryView| !doomed.contains(e.id);
        let q = |e: EntryView| listed(e, true);
        let idr = |a: EntryView, b: EntryView| a.id < b.id;
        let es1 = v.entries.filter(p);
        assert(spec_cleanup_old_entries(v, max_count).0.entries == es1);
        let u1 = es1.filter(q);
        assert(unpinned_entries(spec_cleanup_old_entries(v, max_count).0) == u1);
        lemma_filter_pairwise(v.entries, p, idr);
        lemma_filter_pairwise(es1, q, idr);
        assert(u1.no_duplicates()) by {
            assert forall|i: int, j: int| 0 <= i < u1.len() && 0 <= j < u1.len() && i != j implies u1[i]
                != u1[j] by {
                if i < j {
                    assert(idr(u1[i], u1[j]));
                } else {
                    assert(idr(u1[j], u1[i]));
                }
            }
        }
        let top = ord.take(keep);
        lemma_filter_members(es1, q);
        lemma_filter_members(v.entries, p);
        assert forall|e: EntryView| u1.to_set().contains(e) implies top.to_set().contains(e) by {
            let i = choose|i: int| 0 <= i < u1.len() && u1[i] == e;
            assert(q(u1[i]));
            let k1 = choose|k: int| 0 <= k < es1.len() && #[trigger] es1[k] == u1[i];
            assert(p(es1[k1]));
            let k = choose|k: int| 0 <= k < v.entries.len() && #[trigger] v.entries[k] == es1[k1];
            lemma_filter_keeps(v.entries, q, k);
            lemma_order_by_keeps_all(unpinned_entries(v), before, e);
            let j = choose|j: int| 0 <= j < ord.len() && ord[j] == e;
            if j >= keep {
                assert(doomed[j - keep] == e.id);
                assert(doomed.contains(e.id));
                assert(false);
            }
            assert(top[j] == e);
        }
        u1.unique_seq_to_set();
        top.lemma_cardinality_of_set();
        lemma_len_subset(u1.to_set(), top.to_set());
    }
}

/// Cleaning up old entries never removes a pinned entry or a deleted one:
/// only live unpinned entries are dropped.
pub proof fn lemma_cleanup_keeps_pinned(v: DbView, max_count: i64)
    requires
        ids_rising(v.entries),
    ensures
        forall|k: int|
            0 <= k < v.entries.len() && (v.entries[k].is_pinned || v.entries[k].is_deleted)
                ==> spec_cleanup_old_entries(v, max_count).0.entries.contains(v.entries[k]),
{
    let count = unpinned_entries(v).len();
    if count > max_count {
        let doomed = doomed_ids(v, max_count);
        let keep: int = if max_count < 0 {
            0
        } else {
            max_count as int
        };
        let before = |a: EntryView, b: EntryView| recent_before(a, b);
        let ord = order_by(unpinned_entries(v), before);
        let p = |e: EntryView| !doomed.contains(e.id);
        assert(doomed == ord.skip(keep).map_values(|e: EntryView| e.id));
        lemma_order_by_len(unpinned_entries(v), before);
        assert(0 <= keep <= ord.len());
        lemma_filter_members(v.entries, |e: EntryView| listed(e, true));
        assert forall|k: int|
            0 <= k < v.entries.len() && (v.entries[k].is_pinned
                || v.entries[k].is_deleted) implies spec_cleanup_old_entries(
            v,
            max_count,
        ).0.entries.contains(v.entries[k]) by {
            let e = v.entries[k];
            if doomed.contains(e.id) {
                let j = choose|j: int| 0 <= j < doomed.len() && doomed[j] == e.id;
                let x = ord.skip(keep)[j];
                assert(x.id == e.id);
                assert(ord.contains(x)) by {
                    assert(ord[j + keep] == x);
                }
                lemma_order_by_members(unpinned_entries(v), before, x);
                let u = choose|u: int|
                    0 <= u < unpinned_entries(v).len() && unpinned_entries(v)[u] == x;
                assert(listed(x, true));
                let m = choose|m: int| 0 <= m < v.entries.len() && #[trigger] v.entries[m]
                    == unpinned_entries(v)[u];
                if m < k {
                    assert(v.entries[m].id < v.entries[k].id);
                } else if k < m {
                    assert(v.entries[k].id < v.entries[m].id);
                }
                assert(false);
            }
            lemma_filter_keeps(v.entries, p, k);
        }
    }
}

proof fn lemma_add_link_keeps(v: DbView, now: Seq<char>, f: i64, e: i64, f2: i64, e2: i64)
    ensures
        has_link(add_link(v, now, f, e).links, f, e),
        has_link(v.links, f2, e2) ==> has_link(add_link(v, now, f, e).links, f2, e2),
        add_link(v, now, f, e).entries == v.entries,
        add_link(v, now, f, e).folders == v.folders,
        add_link(v, now, f, e).settings == v.settings,
{
    let w = add_link(v, now, f, e);
    if !has_link(v.links, f, e) {
        assert(w.links[v.links.len() as int].folder_id == f);
        if has_link(v.links, f2, e2) {
            let i = choose|i: int|
                0 <= i < v.links.len() && v.links[i].folder_id == f2 && v.links[i].entry_id == e2;
            assert(w.links[i] == v.links[i]);
        }
    }
}

proof fn lemma_backfill_links(v: DbView, f: i64, es: Seq<EntryView>)
    ensures
        backfill_pins(v, f, es).entries == v.entries,
        backfill_pins(v, f, es).folders == v.folders,
        backfill_pins(v, f, es).settings == v.settings,
        forall|i: int|
            0 <= i < es.len() && es[i].is_pinned && !es[i].is_deleted ==> has_link(
                backfill_pins(v, f, es).links,
                f,
                es[i].id,
            ),
    decreases es.len(),
{
    if es.len() > 0 {
        let d = es.drop_last();
        lemma_backfill_links(v, f, d);
        let w = backfill_pins(v, f, d);
        let e = es.last();
        assert forall|i: int|
            0 <= i < es.len() && es[i].is_pinned && !es[i].is_deleted implies has_link(
            backfill_pins(v, f, es).links,
            f,
            es[i].id,
        ) by {
            if i < d.len() {
                assert(es[i] == d[i]);
                lemma_add_link_keeps(w, e.captured_at, f, e.id, f, es[i].id);
            } else {
                lemma_add_link_keeps(w, e.captured_at, f, e.id, f, e.id);
            }
        }
        if e.is_pinned && !e.is_deleted {
            lemma_add_link_keeps(w, e.captured_at, f, e.id, f, e.id);
        }
    }
}

proof fn lemma_insert_setting_keeps(v: DbView, now: Seq<char>, k: Seq<char>, val: Seq<char>, k2: Seq<char>)
    ensures
        has_setting(spec_insert_setting_if_absent(v, now, k, val).settings, k),
        has_setting(v.settings, k2) ==> has_setting(
            spec_insert_setting_if_absent(v, now, k, val).settings,
            k2,
        ),
        spec_insert_setting_if_absent(v, now, k, val).entries == v.entries,
        spec_insert_setting_if_absent(v, now, k, val).folders == v.folders,
        spec_insert_setting_if_absent(v, now, k, val).links == v.links,
{
    let w = spec_insert_setting_if_absent(v, now, k, val);
    if !has_setting(v.settings, k) {
        assert(w.settings[v.settings.len() as int].key == k);
        if has_setting(v.settings, k2) {
            let i = choose|i: int| 0 <= i < v.settings.len() && v.settings[i].key == k2;
            assert(w.settings[i] == v.settings[i]);
        }
    }
}

/// Opening the history sets it up: there is a default folder, every live
/// pinned entry is in it, and the limit of kept entries is stored among the
/// settings.
pub proof fn lemma_migrations_set_up(v: DbView, now: Seq<char>)
    requires
        spec_run_migrations(v, now) is Ok,
    ensures
        ({
            let v1 = spec_run_migrations(v, now)->Ok_0;
            &&& has_default_folder(v1.folders)
            &&& forall|i: int|
                0 <= i < v1.entries.len() && v1.entries[i].is_pinned && !v1.entries[i].is_deleted
                    ==> has_link(v1.links, default_folder_id(v1.folders), v1.entries[i].id)
            &&& has_setting(v1.settings, "max_history"@)
        }),
{
    let v0 = spec_ensure_default_folder(v, now)->Ok_0;
    if !has_default_folder(v.folders) {
        let n = v.folders.len() as int;
        assert(v0.folders[n].is_default);
    }
    assert(has_default_folder(v0.folders));
    let f = default_folder_id(v0.folders);
    lemma_backfill_links(v0, f, v0.entries);
    let v2 = backfill_pins(v0, f, v0.entries);
    let w1 = spec_insert_setting_if_absent(v2, now, "hotkey_modifiers"@, "Ctrl+Shift"@);
    let w2 = spec_insert_setting_if_absent(w1, now, "hotkey_key"@, "V"@);
    let w3 = spec_insert_setting_if_absent(w2, now, "max_history"@, "500"@);
    let w4 = spec_insert_setting_if_absent(w3, now, "theme"@, "system"@);
    let w5 = spec_insert_setting_if_absent(w4, now, "autostart"@, "false"@);
    let w6 = spec_insert_setting_if_absent(w5, now, "clear_on_exit"@, "false"@);
    let w7 = spec_insert_setting_if_absent(w6, now, "max_item_size_mb"@, "10"@);
    let m = "max_history"@;
    lemma_insert_setting_keeps(v2, now, "hotkey_modifiers"@, "Ctrl+Shift"@, m);
    lemma_insert_setting_keeps(w1, now, "hotkey_key"@, "V"@, m);
    lemma_insert_setting_keeps(w2, now, "max_history"@, "500"@, m);
    lemma_insert_setting_keeps(w3, now, "theme"@, "system"@, m);
    lemma_insert_setting_keeps(w4, now, "autostart"@, "false"@, m);
    lemma_insert_setting_keeps(w5, now, "clear_on_exit"@, "false"@, m);
    lemma_insert_setting_keeps(w6, now, "max_item_size_mb"@, "10"@, m);
    assert(spec_seed_settings(v2, now) == w7);
    assert(spec_run_migrations(v, now)->Ok_0 == w7);
}

/// Whether no two settings share a key.
pub open spec fn keys_unique(ss: Seq<SettingView>) -> bool {
    forall|i: int, j: int| 0 <= i < j < ss.len() ==> ss[i].key != ss[j].key
}

proof fn lemma_setting_at(ss: Seq<SettingView>, k: Seq<char>, p: int)
    requires
        keys_unique(ss),
        0 <= p < ss.len(),
        ss[p].key == k,
    ensures
        has_setting(ss, k),
        setting_pos(ss, k) == p,
{
    let q = setting_pos(ss, k);
    if q < p {
        assert(ss[q].key != ss[p].key);
    } else if p < q {
        assert(ss[p].key != ss[q].key);
    }
}

proof fn lemma_insert_setting_values(v: DbView, now: Seq<char>, k: Seq<char>, val: Seq<char>)
    requires
        keys_unique(v.settings),
    ensures
        ({
            let w = spec_insert_setting_if_absent(v, now, k, val);
            &&& keys_unique(w.settings)
            &&& has_setting(w.settings, k)
            &&& forall|k2: Seq<char>|
                has_setting(v.settings, k2) ==> has_setting(w.settings, k2) && spec_get_setting(w, k2)
                    == spec_get_setting(v, k2)
            &&& w.entries == v.entries
            &&& w.folders == v.folders
            &&& w.links == v.links
        }),
{
    let w = spec_insert_setting_if_absent(v, now, k, val);
    if !has_setting(v.settings, k) {
        let n = v.settings.len() as int;
        assert(w.settings[n].key == k);
        assert forall|i: int, j: int| 0 <= i < j < w.settings.len() implies w.settings[i].key
            != w.settings[j].key by {
            if j == n {
                assert(w.settings[i] == v.settings[i]);
            } else {
                assert(w.settings[i] == v.settings[i]);
                assert(w.settings[j] == v.settings[j]);
            }
        }
        assert forall|k2: Seq<char>| has_setting(v.settings, k2) implies has_setting(w.settings, k2)
            && spec_get_setting(w, k2) == spec_get_setting(v, k2) by {
            let p = setting_pos(v.settings, k2);
            assert(w.settings[p] == v.settings[p]);
            lemma_setting_at(w.settings, k2, p);
        }
    }
}

proof fn lemma_seed_settings(v: DbView, now: Seq<char>)
    requires
        keys_unique(v.settings),
    ensures
        ({
            let w = spec_seed_settings(v, now);
            &&& keys_unique(w.settings)
            &&& has_setting(w.settings, "hotkey_modifiers"@)
            &&& has_setting(w.settings, "hotkey_key"@)
            &&& has_setting(w.settings, "max_history"@)
            &&& has_setting(w.settings, "theme"@)
            &&& has_setting(w.settings, "autostart"@)
            &&& has_setting(w.settings, "clear_on_exit"@)
            &&& has_setting(w.settings, "max_item_size_mb"@)
            &&& forall|k2: Seq<char>|
                has_setting(v.settings, k2) ==> spec_get_setting(w, k2) == spec_get_setting(v, k2)
            &&& w.entries == v.entries
            &&& w.folders == v.folders
            &&& w.links == v.links
        }),
{
    let w1 = spec_insert_setting_if_absent(v, now, "hotkey_modifiers"@, "Ctrl+Shift"@);
    let w2 = spec_insert_setting_if_absent(w1, now, "hotkey_key"@, "V"@);
    let w3 = spec_insert_setting_if_absent(w2, now, "max_history"@, "500"@);
    let w4 = spec_insert_setting_if_absent(w3, now, "theme"@, "system"@);
    let w5 = spec_insert_setting_if_absent(w4, now, "autostart"@, "false"@);
    let w6 = spec_insert_setting_if_absent(w5, now, "clear_on_exit"@, "false"@);
    let w7 = spec_insert_setting_if_absent(w6, now, "max_item_size_mb"@, "10"@);
    lemma_insert_setting_values(v, now, "hotkey_modifiers"@, "Ctrl+Shift"@);
    lemma_insert_setting_values(w1, now, "hotkey_key"@, "V"@);
    lemma_insert_setting_values(w2, now, "max_history"@, "500"@);
    lemma_insert_setting_values(w3, now, "theme"@, "system"@);
    lemma_insert_setting_values(w4, now, "autostart"@, "false"@);
    lemma_insert_setting_values(w5, now, "clear_on_exit"@, "false"@);
    lemma_insert_setting_values(w6, now, "max_item_size_mb"@, "10"@);
    lemma_insert_setting_keeps(w1, now, "hotkey_key"@, "V"@, "hotkey_modifiers"@);
    lemma_insert_setting_keeps(w2, now, "max_history"@, "500"@, "hotkey_modifiers"@);
    lemma_insert_setting_keeps(w3, now, "theme"@, "system"@, "hotkey_modifiers"@);
    lemma_insert_setting_keeps(w4, now, "autostart"@, "false"@, "hotkey_modifiers"@);
    lemma_insert_setting_keeps(w5, now, "clear_on_exit"@, "false"@, "hotkey_modifiers"@);
    lemma_insert_setting_keeps(w6, now, "max_item_size_mb"@, "10"@, "hotkey_modifiers"@);
    lemma_insert_setting_keeps(w2, now, "max_history"@, "500"@, "hotkey_key"@);
    lemma_insert_setting_keeps(w3, now, "theme"@, "system"@, "hotkey_key"@);
    lemma_insert_setting_keeps(w4, now, "autostart"@, "false"@, "hotkey_key"@);
    lemma_insert_setting_keeps(w5, now, "clear_on_exit"@, "false"@, "hotkey_key"@);
    lemma_insert_setting_keeps(w6, now, "max_item_size_mb"@, "10"@, "hotkey_key"@);
    lemma_insert_setting_keeps(w3, now, "theme"@, "system"@, "max_history"@);
    lemma_insert_setting_keeps(w4, now, "autostart"@, "false"@, "max_history"@);
    lemma_insert_setting_keeps(w5, now, "clear_on_exit"@, "false"@, "max_history"@);
    lemma_insert_setting_keeps(w6, now, "max_item_size_mb"@, "10"@, "max_history"@);
    lemma_insert_setting_keeps(w4, now, "autostart"@, "false"@, "theme"@);
    lemma_insert_setting_keeps(w5, now, "clear_on_exit"@, "false"@, "theme"@);
    lemma_insert_setting_keeps(w6, now, "max_item_size_mb"@, "10"@, "theme"@);
    lemma_insert_setting_keeps(w5, now, "clear_on_exit"@, "false"@, "autostart"@);
    lemma_insert_setting_keeps(w6, now, "max_item_size_mb"@, "10"@, "autostart"@);
    lemma_insert_setting_keeps(w6, now, "max_item_size_mb"@, "10"@, "clear_on_exit"@);
    assert(spec_seed_settings(v, now) == w7);
    assert forall|k2: Seq<char>| has_setting(v.settings, k2) implies spec_get_setting(w7, k2)
        == spec_get_setting(v, k2) by {
        assert(has_setting(w1.settings, k2));
        assert(has_setting(w2.settings, k2));
        assert(has_setting(w3.settings, k2));
        assert(has_setting(w4.settings, k2));
        assert(has_setting(w5.settings, k2));
        assert(has_setting(w6.settings, k2));
    }
}

/// Opening the history adds every default setting that is missing and
/// leaves the value of every setting already stored as it was.
pub proof fn lemma_migrations_keep_settings(v: DbView, now: Seq<char>)
    requires
        db_wf(v),
        spec_run_migrations(v, now) is Ok,
    ensures
        ({
            let v1 = spec_run_migrations(v, now)->Ok_0;
            &&& has_setting(v1.settings, "hotkey_modifiers"@)
            &&& has_setting(v1.settings, "hotkey_key"@)
            &&& has_setting(v1.settings, "max_history"@)
            &&& has_setting(v1.settings, "theme"@)
            &&& has_setting(v1.settings, "autostart"@)
            &&& has_setting(v1.settings, "clear_on_exit"@)
            &&& has_setting(v1.settings, "max_item_size_mb"@)
            &&& forall|k: Seq<char>|
                has_setting(v.settings, k) ==> spec_get_setting(v1, k) == spec_get_setting(v, k)
        }),
{
    let v0 = spec_ensure_default_folder(v, now)->Ok_0;
    assert(v0.settings == v.settings);
    let f = default_folder_id(v0.folders);
    lemma_backfill_links(v0, f, v0.entries);
    let v2 = backfill_pins(v0, f, v0.entries);
    lemma_seed_settings(v2, now);
    assert forall|k: Seq<char>| has_setting(v.settings, k) implies spec_get_setting(
        spec_run_migrations(v, now)->Ok_0,
        k,
    ) == spec_get_setting(v, k) by {
        assert(spec_get_setting(v2, k) == spec_get_setting(v, k));
    }
}

proof fn lemma_backfill_nothing_new(v: DbView, f: i64, es: Seq<EntryView>)
    requires
        forall|i: int|
            0 <= i < es.len() && es[i].is_pinned && !es[i].is_deleted ==> has_link(v.links, f, es[i].id),
    ensures
        backfill_pins(v, f, es) == v,
    decreases es.len(),
{
    if es.len() > 0 {
        let d = es.drop_last();
        assert forall|i: int| 0 <= i < d.len() && d[i].is_pinned && !d[i].is_deleted implies has_link(
            v.links,
            f,
            d[i].id,
        ) by {
            assert(d[i] == es[i]);
        }
        lemma_backfill_nothing_new(v, f, d);
        let e = es.last();
        if e.is_pinned && !e.is_deleted {
            assert(es[es.len() - 1] == e);
        }
    }
}

proof fn lemma_seed_when_present(v: DbView, now: Seq<char>)
    requires
        has_setting(v.settings, "hotkey_modifiers"@),
        has_setting(v.settings, "hotkey_key"@),
        has_setting(v.settings, "max_history"@),
        has_setting(v.settings, "theme"@),
        has_setting(v.settings, "autostart"@),
        has_setting(v.settings, "clear_on_exit"@),
        has_setting(v.settings, "max_item_size_mb"@),
    ensures
        spec_seed_settings(v, now) == v,
{
}

/// Opening the history a second time changes nothing.
pub proof fn lemma_migrations_idempotent(v: DbView, now: Seq<char>, now2: Seq<char>)
    requires
        db_wf(v),
        spec_run_migrations(v, now) is Ok,
    ensures
        spec_run_migrations(spec_run_migrations(v, now)->Ok_0, now2) == Ok::<DbView, DbError>(
            spec_run_migrations(v, now)->Ok_0,
        ),
{
    let v1 = spec_run_migrations(v, now)->Ok_0;
    lemma_migrations_set_up(v, now);
    lemma_migrations_keep_settings(v, now);
    let f = default_folder_id(v1.folders);
    assert(spec_ensure_default_folder(v1, now2) == Ok::<DbView, DbError>(v1));
    lemma_backfill_nothing_new(v1, f, v1.entries);
    lemma_seed_when_present(v1, now2);
}

/// The pin of every live entry says whether it is in the default folder.
pub open spec fn pins_match_default(v: DbView) -> bool {
    &&& has_default_folder(v.folders)
    &&& forall|i: int|
        0 <= i < v.entries.len() && !v.entries[i].is_deleted ==> v.entries[i].is_pinned
            == has_link(v.links, default_folder_id(v.folders), v.entries[i].id)
}

proof fn lemma_has_link_filtered(ls: Seq<LinkView>, sel: LinkSel, f: i64, e: i64)
    ensures
        has_link(ls.filter(link_kept(sel)), f, e) == (has_link(ls, f, e) && !link_selected(
            sel,
            LinkView { folder_id: f, entry_id: e, added_at: Seq::empty() },
        )),
{
    let kept = ls.filter(link_kept(sel));
    lemma_filter_members(ls, link_kept(sel));
    let probe = LinkView { folder_id: f, entry_id: e, added_at: Seq::empty() };
    if has_link(kept, f, e) {
        let i = choose|i: int| 0 <= i < kept.len() && kept[i].folder_id == f && kept[i].entry_id == e;
        assert(link_kept(sel)(kept[i]));
        let k = choose|k: int| 0 <= k < ls.len() && #[trigger] ls[k] == kept[i];
        assert(link_selected(sel, kept[i]) == link_selected(sel, probe));
    }
    if has_link(ls, f, e) && !link_selected(sel, probe) {
        let k = choose|k: int| 0 <= k < ls.len() && ls[k].folder_id == f && ls[k].entry_id == e;
        assert(link_selected(sel, ls[k]) == link_selected(sel, probe));
        lemma_filter_keeps(ls, link_kept(sel), k);
        let i = choose|i: int| 0 <= i < kept.len() && kept[i] == ls[k];
    }
}

proof fn lemma_default_folder_is(v: DbView, fid: i64)
    requires
        db_wf(v),
        has_default_folder(v.folders),
    ensures
        is_default_folder(v.folders, fid) == (fid == default_folder_id(v.folders)),
{
    let fs = v.folders;
    let c = choose|i: int| 0 <= i < fs.len() && fs[i].is_default;
    let d = default_folder_id(fs);
    assert(fs[c].id == d);
    if is_default_folder(fs, fid) {
        let p = folder_pos(fs, fid);
        if p < c {
            assert(!(fs[p].is_default && fs[c].is_default));
        } else if c < p {
            assert(!(fs[c].is_default && fs[p].is_default));
        }
    }
    if fid == d {
        assert(has_folder(fs, fid));
        let p = folder_pos(fs, fid);
        if p < c {
            assert(fs[p].id < fs[c].id);
        } else if c < p {
            assert(fs[c].id < fs[p].id);
        }
    }
}

/// Emptying any folder keeps the pins in line with the default folder: a
/// live entry is pinned exactly when it is in the default folder.
pub proof fn lemma_clear_folder_keeps_pins_in_line(v: DbView, folder_id: i64)
    requires
        db_wf(v),
        pins_match_default(v),
    ensures
        pins_match_default(spec_clear_folder_entries(v, folder_id).0),
{
    let v1 = spec_clear_folder_entries(v, folder_id).0;
    let d = default_folder_id(v.folders);
    let sel = LinkSel::OfFolder(folder_id);
    lemma_default_folder_is(v, folder_id);
    let ids = folder_entry_ids(v.links, folder_id);
    assert(v1.folders == v.folders);
    assert(v1.links == v.links.filter(link_kept(sel)));
    assert forall|i: int| 0 <= i < v1.entries.len() && !v1.entries[i].is_deleted implies v1.entries[i].is_pinned
        == has_link(v1.links, d, v1.entries[i].id) by {
        let e = v.entries[i];
        lemma_has_link_filtered(v.links, sel, d, e.id);
        if folder_id == d {
            if ids.len() > 0 {
                assert(v1.entries[i] == changed(EntryChange::UnpinAmong(ids), e));
                if e.is_pinned {
                    assert(has_link(v.links, d, e.id));
                    let k = choose|k: int|
                        0 <= k < v.links.len() && v.links[k].folder_id == d && v.links[k].entry_id == e.id;
                    let p = |l: LinkView| l.folder_id == folder_id;
                    lemma_filter_keeps(v.links, p, k);
                    let j = choose|j: int| 0 <= j < v.links.filter(p).len() && v.links.filter(p)[j] == v.links[k];
                    assert(ids[j] == e.id);
                }
            } else {
                if e.is_pinned {
                    let k = choose|k: int|
                        0 <= k < v.links.len() && v.links[k].folder_id == d && v.links[k].entry_id == e.id;
                    let p = |l: LinkView| l.folder_id == folder_id;
                    lemma_filter_keeps(v.links, p, k);
                    assert(false);
                }
            }
        }
    }
}

proof fn lemma_has_link_added(v: DbView, now: Seq<char>, f: i64, e: i64, f2: i64, e2: i64)
    ensures
        has_link(add_link(v, now, f, e).links, f2, e2) == (has_link(v.links, f2, e2) || (f2 == f
            && e2 == e)),
{
    lemma_add_link_keeps(v, now, f, e, f2, e2);
    let ls = add_link(v, now, f, e).links;
    if has_link(ls, f2, e2) && !has_link(v.links, f2, e2) && !has_link(v.links, f, e) {
        let i = choose|i: int| 0 <= i < ls.len() && ls[i].folder_id == f2 && ls[i].entry_id == e2;
        if i < v.links.len() {
            assert(ls[i] == v.links[i]);
        }
    }
}

/// Toggling a pin twice leaves the same folder links as before (the link of
/// the default folder may come back with a new time), when the pin was in
/// line with the default folder.
pub proof fn lemma_toggle_pin_twice_restores_links(v: DbView, now1: Seq<char>, now2: Seq<char>, id: i64, f: i64, e: i64)
    requires
        db_wf(v),
        has_id(v.entries, id),
        has_default_folder(v.folders),
        v.entries[pos_of_id(v.entries, id)].is_pinned == has_link(v.links, default_folder_id(v.folders), id),
    ensures
        has_link(spec_toggle_pin(spec_toggle_pin(v, now1, id).0, now2, id).0.links, f, e) == has_link(
            v.links,
            f,
            e,
        ),
{
    lemma_flip_keeps_ids(v, id);
    let (v1, p1) = spec_toggle_pin(v, now1, id);
    let w = change_entries(v, EntryChange::FlipPin(id));
    let d = default_folder_id(v.folders);
    let (v2, p2) = spec_toggle_pin(v1, now2, id);
    let w2 = change_entries(v1, EntryChange::FlipPin(id));
    lemma_toggle_pin_twice(v, now1, now2, id);
    assert(v1.folders == v.folders);
    let sel = LinkSel::Pair(d, id);
    if p1 {
        lemma_has_link_added(w, now1, d, id, f, e);
        lemma_has_link_added(w, now1, d, id, d, id);
        lemma_has_link_filtered(w2.links, sel, f, e);
    } else {
        lemma_has_link_filtered(w.links, sel, f, e);
        lemma_has_link_filtered(w.links, sel, d, id);
        lemma_has_link_added(w2, now2, d, id, f, e);
    }
}

proof fn lemma_window_members<T>(s: Seq<T>, limit: i64, offset: i64)
    ensures
        limit >= 0 ==> window(s, limit, offset).len() <= limit,
        forall|i: int|
            0 <= i < window(s, limit, offset).len() ==> s.contains(
                #[trigger] window(s, limit, offset)[i],
            ),
{
    let start: int = if offset < 0 {
        0
    } else if offset > s.len() {
        s.len() as int
    } else {
        offset as int
    };
    let w = window(s, limit, offset);
    assert forall|i: int| 0 <= i < w.len() implies s.contains(#[trigger] w[i]) by {
        assert(s[start + i] == w[i]);
    }
}

proof fn lemma_ordered_filter_members<T>(
    s: Seq<T>,
    p: spec_fn(T) -> bool,
    before: spec_fn(T, T) -> bool,
    x: T,
)
    requires
        order_by(s.filter(p), before).contains(x),
    ensures
        p(x),
        s.contains(x),
{
    lemma_order_by_members(s.filter(p), before, x);
    lemma_filter_members(s, p);
    let i = choose|i: int| 0 <= i < s.filter(p).len() && s.filter(p)[i] == x;
    let k = choose|k: int| 0 <= k < s.len() && #[trigger] s[k] == s.filter(p)[i];
}

/// A page of the history holds only live entries, and no more than the
/// limit asked for.
pub proof fn lemma_history_page_is_live(v: DbView, limit: i64, offset: i64)
    ensures
        limit >= 0 ==> spec_get_entries(v, limit, offset).len() <= limit,
        forall|i: int|
            0 <= i < spec_get_entries(v, limit, offset).len() ==> !(#[trigger] spec_get_entries(
                v,
                limit,
                offset,
            )[i]).is_deleted,
{
    let before = |a: EntryView, b: EntryView| recent_before(a, b);
    let p = |e: EntryView| listed(e, false);
    let ord = order_by(v.entries.filter(p), before);
    lemma_window_members(ord, limit, offset);
    let w = window(ord, limit, offset);
    assert forall|i: int| 0 <= i < spec_get_entries(v, limit, offset).len() implies !(
    #[trigger] spec_get_entries(v, limit, offset)[i]).is_deleted by {
        assert(ord.contains(w[i]));
        lemma_ordered_filter_members(v.entries, p, before, w[i]);
    }
}

/// Every search result is a live entry whose preview contains the query (in
/// the sense of the database's LIKE), and there are no more than the limit.
pub proof fn lemma_search_results_match(v: DbView, query: Seq<char>, limit: i64)
    ensures
        limit >= 0 ==> spec_search_entries(v, query, limit).len() <= limit,
        forall|i: int|
            0 <= i < spec_search_entries(v, query, limit).len() ==> {
                let e = #[trigger] spec_search_entries(v, query, limit)[i];
                !e.is_deleted && like_match(search_pattern(query), e.text_preview)
            },
{
    let before = |a: EntryView, b: EntryView| recent_before(a, b);
    let p = |e: EntryView| listed(e, false) && like_match(search_pattern(query), e.text_preview);
    let ord = order_by(v.entries.filter(p), before);
    lemma_window_members(ord, limit, 0);
    let w = window(ord, limit, 0);
    assert forall|i: int| 0 <= i < spec_search_entries(v, query, limit).len() implies {
        let e = #[trigger] spec_search_entries(v, query, limit)[i];
        !e.is_deleted && like_match(search_pattern(query), e.text_preview)
    } by {
        assert(ord.contains(w[i]));
        lemma_ordered_filter_members(v.entries, p, before, w[i]);
    }
}

/// An entry put into a folder is found among its folders, and one taken
/// out of a folder no longer is.
pub proof fn lemma_folder_membership_reads_back(v: DbView, now: Seq<char>, f: i64, e: i64)
    ensures
        spec_get_entry_folders(add_link(v, now, f, e), e).contains(f),
        !spec_get_entry_folders(remove_links(v, LinkSel::Pair(f, e)), e).contains(f),
{
    let p = |l: LinkView| l.entry_id == e;
    let ls = add_link(v, now, f, e).links;
    lemma_add_link_keeps(v, now, f, e, f, e);
    let i = choose|i: int| 0 <= i < ls.len() && ls[i].folder_id == f && ls[i].entry_id == e;
    lemma_filter_keeps(ls, p, i);
    let j = choose|j: int| 0 <= j < ls.filter(p).len() && ls.filter(p)[j] == ls[i];
    assert(spec_get_entry_folders(add_link(v, now, f, e), e)[j] == f);
    let sel = LinkSel::Pair(f, e);
    let kept = v.links.filter(link_kept(sel));
    let ks = kept.filter(p);
    lemma_filter_members(v.links, link_kept(sel));
    lemma_filter_members(kept, p);
    if spec_get_entry_folders(remove_links(v, sel), e).contains(f) {
        let j = choose|j: int| 0 <= j < ks.len() && ks[j].folder_id == f;
        assert(p(ks[j]));
        let k = choose|k: int| 0 <= k < kept.len() && #[trigger] kept[k] == ks[j];
        assert(link_kept(sel)(kept[k]));
        assert(false);
    }
}

proof fn lemma_max_sort_order_bounds(fs: Seq<FolderView>)
    ensures
        forall|i: int| 0 <= i < fs.len() ==> fs[i].sort_order <= max_sort_order(fs),
        max_sort_order(fs) >= -1,
        max_sort_order(fs) <= i64::MAX,
        (forall|i: int| 0 <= i < fs.len() ==> fs[i].sort_order < i64::MAX) ==> max_sort_order(fs)
            < i64::MAX,
    decreases fs.len(),
{
    if fs.len() > 0 {
        let d = fs.drop_last();
        lemma_max_sort_order_bounds(d);
        assert forall|i: int| 0 <= i < fs.len() implies fs[i].sort_order <= max_sort_order(fs) by {
            if i < d.len() {
                assert(fs[i] == d[i]);
            }
        }
        if forall|i: int| 0 <= i < fs.len() ==> fs[i].sort_order < i64::MAX {
            assert forall|i: int| 0 <= i < d.len() implies d[i].sort_order < i64::MAX by {
                assert(fs[i] == d[i]);
            }
            assert(fs[fs.len() - 1] == fs.last());
        }
    }
}

/// A created folder goes last: its sort order is above that of every
/// folder there was (while none has the largest sort order possible), and
/// its id is above every folder id.
pub proof fn lemma_created_folder_goes_last(v: DbView, now: Seq<char>, name: Seq<char>)
    requires
        db_wf(v),
        forall|i: int| 0 <= i < v.folders.len() ==> v.folders[i].sort_order < i64::MAX,
    ensures
        spec_create_folder(v, now, name).1 matches Ok(f) ==> {
            &&& forall|i: int| 0 <= i < v.folders.len() ==> v.folders[i].sort_order < f.sort_order
            &&& forall|i: int| 0 <= i < v.folders.len() ==> v.folders[i].id < f.id
            &&& f.sort_order >= 0
            &&& f.name == name
            &&& !f.is_default
        },
{
    lemma_max_sort_order_bounds(v.folders);
}

/// Search finds everything it should: when the matches fit the limit (or
/// there is none), every live entry whose preview contains the query (in the
/// sense of LIKE), pinned or not, is among the results.
pub proof fn lemma_search_finds_every_match(v: DbView, query: Seq<char>, limit: i64, k: int)
    requires
        0 <= k < v.entries.len(),
        !v.entries[k].is_deleted,
        like_match(search_pattern(query), v.entries[k].text_preview),
        limit < 0 || v.entries.filter(
            |e: EntryView| !e.is_deleted && like_match(search_pattern(query), e.text_preview),
        ).len() <= limit,
    ensures
        spec_search_entries(v, query, limit).contains(public_entry(v.entries[k])),
{
    let p = |e: EntryView| listed(e, false) && like_match(search_pattern(query), e.text_preview);
    let q = |e: EntryView| !e.is_deleted && like_match(search_pattern(query), e.text_preview);
    assert(v.entries.filter(p) =~= v.entries.filter(q)) by {
        assert(p =~= q);
    }
    let before = |a: EntryView, b: EntryView| recent_before(a, b);
    let ord = order_by(v.entries.filter(p), before);
    lemma_order_by_len(v.entries.filter(p), before);
    lemma_filter_keeps(v.entries, p, k);
    let j = choose|j: int| 0 <= j < v.entries.filter(p).len() && v.entries.filter(p)[j] == v.entries[k];
    lemma_order_by_keeps_all(v.entries.filter(p), before, v.entries[k]);
    let i = choose|i: int| 0 <= i < ord.len() && ord[i] == v.entries[k];
    let w = window(ord, limit, 0);
    assert(ord.skip(0) =~= ord);
    if limit >= 0 && limit <= ord.len() {
        assert(ord.take(limit as int) =~= ord);
    }
    assert(w =~= ord);
    let r = spec_search_entries(v, query, limit);
    assert(r[i] == public_entry(v.entries[k]));
}

} // verus!
