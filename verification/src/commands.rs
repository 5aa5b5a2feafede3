//! The requests that the user interface makes of the history: browsing,
//! searching, pinning and deleting entries, and managing folders. Each
//! answers with a value or with a message for the user.
use vstd::prelude::*;

use vstd::utf8::decode_utf8;
use vstd::utf8::valid_utf8;

use crate::models::summarize;
use crate::models::summary_of;
use crate::models::str_equal;
use crate::models::ClipboardEntry;
use crate::models::ClipboardEntrySummary;
use crate::models::ClipboardEntrySummaryView;
use crate::models::ClipboardEntryView;
use crate::models::Folder;
use crate::models::FolderWithEntryCount;

use crate::store::changes::spec_clear_unpinned;
use crate::store::changes::spec_soft_delete_entry;
use crate::store::changes::spec_toggle_pin;
use crate::store::folder_listing::spec_get_folder_entries;
use crate::store::folder_listing::spec_list_folders;
use crate::store::folders::spec_create_folder;
use crate::store::folders::spec_delete_folder;
use crate::store::folders::spec_get_entry_folders;
use crate::store::folders::spec_rename_folder;
use crate::store::links::add_link;
use crate::store::links::remove_links;
use crate::store::links::LinkSel;
use crate::store::listing::spec_get_entries;
use crate::store::queries::spec_get_entry_by_id;
use crate::store::queries::spec_get_entry_raw_content;
use crate::store::search::spec_search_entries;
use crate::store::Database;
use crate::store::DbError;

verus! {

/// The characters that Unicode calls white space (the `White_Space`
/// property), which trimming removes.
pub open spec fn is_white_space(c: char) -> bool {
    ||| '\u{9}' <= c <= '\u{d}'
    ||| c == ' '
    ||| c == '\u{85}'
    ||| c == '\u{a0}'
    ||| c == '\u{1680}'
    ||| '\u{2000}' <= c <= '\u{200a}'
    ||| c == '\u{2028}'
    ||| c == '\u{2029}'
    ||| c == '\u{202f}'
    ||| c == '\u{205f}'
    ||| c == '\u{3000}'
}

/// A text without its leading and trailing white space.
pub open spec fn trimmed(s: Seq<char>) -> Seq<char>
    decreases s.len(),
{
    if s.len() > 0 && is_white_space(s[0]) {
        trimmed(s.skip(1))
    } else if s.len() > 0 && is_white_space(s.last()) {
        trimmed(s.drop_last())
    } else {
        s
    }
}

/// Calls `str::trim`. The contract claims what the standard library
/// documents: leading and trailing white space (as `char::is_whitespace`
/// defines it) is removed.
#[verifier::external_body]
fn trim(s: &str) -> (r: &str)
    ensures
        r@ == trimmed(s@),
{
    s.trim()
}

pub open spec fn empty_name_message() -> Seq<char> {
    seq!['文', '件', '夹', '名', '称', '不', '能', '为', '空']
}

pub open spec fn long_name_message() -> Seq<char> {
    seq!['文', '件', '夹', '名', '称', '不', '能', '超', '过', ' ', '5', '0', ' ', '个', '字', '符']
}

/// The answer to a folder name: refused when nothing but white space is
/// left after trimming, or when more than 50 characters are left.
pub open spec fn folder_name_check(name: Seq<char>) -> Result<(), Seq<char>> {
    let t = trimmed(name);
    if t.len() == 0 {
        Err(empty_name_message())
    } else if t.len() > 50 {
        Err(long_name_message())
    } else {
        Ok(())
    }
}

pub open spec fn result_view<T>(r: Result<T, String>) -> Result<T, Seq<char>> {
    match r {
        Ok(v) => Ok(v),
        Err(m) => Err(m@),
    }
}

/// Checks a folder name (see `folder_name_check`).
pub fn validate_folder_name(name: &str) -> (r: Result<(), String>)
    ensures
        result_view(r) == folder_name_check(name@),
{
    let t = trim(name);
    let n = t.unicode_len();
    if n == 0 {
        proof {
            reveal_strlit("文件夹名称不能为空");
            assert("文件夹名称不能为空"@ =~= empty_name_message());
        }
        return Err(String::from_str("文件夹名称不能为空"));
    }
    if n > 50 {
        proof {
            reveal_strlit("文件夹名称不能超过 50 个字符");
            assert("文件夹名称不能超过 50 个字符"@ =~= long_name_message());
        }
        return Err(String::from_str("文件夹名称不能超过 50 个字符"));
    }
    Ok(())
}

/// The message that the user sees for a database error: SQLite's own text
/// for the condition.
pub open spec fn db_error_message(e: DbError) -> Seq<char> {
    match e {
        DbError::ConstraintViolation => seq![
            'c', 'o', 'n', 's', 't', 'r', 'a', 'i', 'n', 't', ' ', 'f', 'a', 'i', 'l', 'e', 'd'
        ],
        DbError::DatabaseFull => seq![
            'd', 'a', 't', 'a', 'b', 'a', 's', 'e', ' ', 'o', 'r', ' ', 'd', 'i', 's', 'k', ' ',
            'i', 's', ' ', 'f', 'u', 'l', 'l'
        ],
        DbError::InvalidData => seq![
            'd', 'a', 't', 'a', 'b', 'a', 's', 'e', ' ', 'd', 'i', 's', 'k', ' ', 'i', 'm', 'a',
            'g', 'e', ' ', 'i', 's', ' ', 'm', 'a', 'l', 'f', 'o', 'r', 'm', 'e', 'd'
        ],
    }
}

impl DbError {
    /// The message of this error (see `db_error_message`).
    pub fn message(&self) -> (m: String)
        ensures
            m@ == db_error_message(*self),
    {
        match self {
            DbError::ConstraintViolation => {
                proof {
                    reveal_strlit("constraint failed");
                    assert("constraint failed"@ =~= db_error_message(*self));
                }
                String::from_str("constraint failed")
            },
            DbError::DatabaseFull => {
                proof {
                    reveal_strlit("database or disk is full");
                    assert("database or disk is full"@ =~= db_error_message(*self));
                }
                String::from_str("database or disk is full")
            },
            DbError::InvalidData => {
                proof {
                    reveal_strlit("database disk image is malformed");
                    assert("database disk image is malformed"@ =~= db_error_message(*self));
                }
                String::from_str("database disk image is malformed")
            },
        }
    }
}

pub open spec fn missing_entry_message() -> Seq<char> {
    seq!['条', '目', '不', '存', '在']
}

pub open spec fn missing_image_message() -> Seq<char> {
    seq!['图', '片', '原', '始', '数', '据', '不', '存', '在']
}

pub open spec fn missing_raw_message() -> Seq<char> {
    seq!['条', '目', '不', '存', '在', '或', '无', '原', '始', '内', '容']
}

fn missing_entry() -> (m: String)
    ensures
        m@ == missing_entry_message(),
{
    proof {
        reveal_strlit("条目不存在");
        assert("条目不存在"@ =~= missing_entry_message());
    }
    String::from_str("条目不存在")
}

pub open spec fn summaries_of(es: Seq<ClipboardEntryView>) -> Seq<ClipboardEntrySummaryView> {
    es.map_values(|e: ClipboardEntryView| summary_of(e))
}

fn summaries(entries: Vec<ClipboardEntry>) -> (r: Vec<ClipboardEntrySummary>)
    ensures
        r@.map_values(|s: ClipboardEntrySummary| s@) == summaries_of(
            entries@.map_values(|e: ClipboardEntry| e@),
        ),
{
    let r = summarize(entries);
    proof {
        assert(entries@.map_values(|e: ClipboardEntry| summary_of(e@)) =~= summaries_of(
            entries@.map_values(|e: ClipboardEntry| e@),
        ));
    }
    r
}

/// Calls `String::from_utf8`. The contract claims what the standard library
/// documents: the text that the bytes encode in UTF-8, and an error exactly
/// when they are not valid UTF-8.
#[verifier::external_body]
fn string_from_utf8(bytes: Vec<u8>) -> (r: Option<String>)
    ensures
        match r {
            Some(s) => valid_utf8(bytes@) && s@ == decode_utf8(bytes@),
            None => !valid_utf8(bytes@),
        },
{
    String::from_utf8(bytes).ok()
}

/// The text that copying an entry back writes: the whole text that its
/// stored bytes hold as UTF-8, else (no bytes, or bytes that are not UTF-8)
/// its preview.
pub open spec fn text_to_copy(raw: Option<Seq<u8>>, preview: Seq<char>) -> Seq<char> {
    match raw {
        Some(b) => if valid_utf8(b) {
            decode_utf8(b)
        } else {
            preview
        },
        None => preview,
    }
}

/// What `copy_to_clipboard` puts on the clipboard: the text of a text entry,
/// or the PNG bytes of a picture.
#[derive(Debug, Clone)]
pub enum ClipboardPayload {
    Text(String),
    Image(Vec<u8>),
}

/// One page of the history as summaries (see `spec_get_entries`).
pub fn get_history(db: &Database, limit: i64, offset: i64) -> (r: Result<
    Vec<ClipboardEntrySummary>,
    String,
>)
    requires
        db.wf(),
    ensures
        r matches Ok(v) && v@.map_values(|s: ClipboardEntrySummary| s@) == summaries_of(
            spec_get_entries(db@, limit, offset),
        ),
{
    Ok(summaries(db.get_entries(limit, offset)))
}

/// The entries whose preview matches `query`, as summaries (see
/// `spec_search_entries`).
pub fn search_history(db: &Database, query: &str, limit: i64) -> (r: Result<
    Vec<ClipboardEntrySummary>,
    String,
>)
    requires
        db.wf(),
    ensures
        r matches Ok(v) && v@.map_values(|s: ClipboardEntrySummary| s@) == summaries_of(
            spec_search_entries(db@, query@, limit),
        ),
{
    Ok(summaries(db.search_entries(query, limit)))
}

/// What copying entry `id` back puts on the clipboard: the PNG bytes of a
/// picture; for any other entry its whole text (see `text_to_copy`).
/// Refused when there is no such live entry, or when a picture has no stored
/// bytes.
pub fn clipboard_payload(db: &Database, id: i64) -> (r: Result<ClipboardPayload, String>)
    requires
        db.wf(),
    ensures
        match spec_get_entry_by_id(db@, id) {
            None => r matches Err(m) && m@ == missing_entry_message(),
            Some(e) => if e.content_type == seq!['i', 'm', 'a', 'g', 'e'] {
                match spec_get_entry_raw_content(db@, id) {
                    None => r matches Err(m) && m@ == missing_image_message(),
                    Some(b) => r matches Ok(ClipboardPayload::Image(p)) && p@ == b,
                }
            } else {
                r matches Ok(ClipboardPayload::Text(t)) && t@ == text_to_copy(
                    spec_get_entry_raw_content(db@, id),
                    e.text_preview,
                )
            },
        },
{
    let entry = match db.get_entry_by_id(id) {
        Some(e) => e,
        None => {
            return Err(missing_entry());
        },
    };
    proof {
        reveal_strlit("image");
        assert("image"@ =~= seq!['i', 'm', 'a', 'g', 'e']);
    }
    if str_equal(entry.content_type.as_str(), "image") {
        match db.get_entry_raw_content(id) {
            Some(raw) => Ok(ClipboardPayload::Image(raw)),
            None => {
                proof {
                    reveal_strlit("图片原始数据不存在");
                    assert("图片原始数据不存在"@ =~= missing_image_message());
                }
                Err(String::from_str("图片原始数据不存在"))
            },
        }
    } else {
        match db.get_entry_raw_content(id) {
            Some(raw) => match string_from_utf8(raw) {
                Some(text) => Ok(ClipboardPayload::Text(text)),
                None => Ok(ClipboardPayload::Text(entry.text_preview)),
            },
            None => Ok(ClipboardPayload::Text(entry.text_preview)),
        }
    }
}

/// The stored bytes of entry `id`; refused when there are none.
pub fn get_raw_content(db: &Database, id: i64) -> (r: Result<Vec<u8>, String>)
    requires
        db.wf(),
    ensures
        match spec_get_entry_raw_content(db@, id) {
            None => r matches Err(m) && m@ == missing_raw_message(),
            Some(b) => r matches Ok(v) && v@ == b,
        },
{
    match db.get_entry_raw_content(id) {
        Some(raw) => Ok(raw),
        None => {
            proof {
                reveal_strlit("条目不存在或无原始内容");
                assert("条目不存在或无原始内容"@ =~= missing_raw_message());
            }
            Err(String::from_str("条目不存在或无原始内容"))
        },
    }
}

/// Removes every live entry that is not pinned; the answer is their number.
pub fn clear_history(db: &mut Database) -> (r: Result<usize, String>)
    requires
        old(db).wf(),
    ensures
        final(db).wf(),
        r matches Ok(n) && (final(db)@, n) == spec_clear_unpinned(old(db)@),
{
    Ok(db.clear_unpinned())
}

/// Deletes entry `id` (see `spec_soft_delete_entry`).
pub fn delete_entry(db: &mut Database, id: i64) -> (r: Result<(), String>)
    requires
        old(db).wf(),
    ensures
        final(db).wf(),
        r is Ok,
        final(db)@ == spec_soft_delete_entry(old(db)@, id),
{
    db.soft_delete_entry(id);
    Ok(())
}

/// Pins or unpins entry `id`; the answer is the new state (see
/// `spec_toggle_pin`).
pub fn toggle_pin(db: &mut Database, now: &str, id: i64) -> (r: Result<bool, String>)
    requires
        old(db).wf(),
    ensures
        final(db).wf(),
        r matches Ok(p) && (final(db)@, p) == spec_toggle_pin(old(db)@, now@, id),
{
    Ok(db.toggle_pin(now, id))
}

/// The summary of entry `id`; refused when there is no such live entry.
pub fn get_entry_by_id(db: &Database, id: i64) -> (r: Result<ClipboardEntrySummary, String>)
    requires
        db.wf(),
    ensures
        match spec_get_entry_by_id(db@, id) {
            None => r matches Err(m) && m@ == missing_entry_message(),
            Some(e) => r matches Ok(s) && s@ == summary_of(e),
        },
{
    match db.get_entry_by_id(id) {
        Some(e) => Ok(ClipboardEntrySummary::from(e)),
        None => Err(missing_entry()),
    }
}

/// Every folder with its number of entries (see `spec_list_folders`).
pub fn list_folders(db: &Database) -> (r: Result<Vec<FolderWithEntryCount>, String>)
    requires
        db.wf(),
    ensures
        r matches Ok(v) && v@.map_values(|f: FolderWithEntryCount| f@) == spec_list_folders(db@),
{
    Ok(db.list_folders())
}

/// Creates a folder named by the trimmed `name`, once the name passes the
/// check (see `folder_name_check` and `spec_create_folder`).
pub fn create_folder(db: &mut Database, now: &str, name: &str) -> (r: Result<Folder, String>)
    requires
        old(db).wf(),
    ensures
        final(db).wf(),
        match folder_name_check(name@) {
            Err(m) => r matches Err(e) && e@ == m && final(db)@ == old(db)@,
            Ok(_) => {
                let (v, res) = spec_create_folder(old(db)@, now@, trimmed(name@));
                &&& final(db)@ == v
                &&& match res {
                    Ok(f) => r matches Ok(g) && g@ == f,
                    Err(e) => r matches Err(m) && m@ == db_error_message(e),
                }
            },
        },
{
    match validate_folder_name(name) {
        Err(m) => {
            return Err(m);
        },
        Ok(()) => {},
    }
    let t = trim(name);
    match db.create_folder(now, t) {
        Ok(f) => Ok(f),
        Err(e) => Err(e.message()),
    }
}

/// Renames folder `id` to the trimmed `name`, once the name passes the
/// check (see `folder_name_check` and `spec_rename_folder`).
pub fn rename_folder(db: &mut Database, now: &str, id: i64, name: &str) -> (r: Result<(), String>)
    requires
        old(db).wf(),
    ensures
        final(db).wf(),
        match folder_name_check(name@) {
            Err(m) => r matches Err(e) && e@ == m && final(db)@ == old(db)@,
            Ok(_) => r is Ok && final(db)@ == spec_rename_folder(old(db)@, now@, id, trimmed(name@)),
        },
{
    match validate_folder_name(name) {
        Err(m) => {
            return Err(m);
        },
        Ok(()) => {},
    }
    let t = trim(name);
    db.rename_folder(now, id, t);
    Ok(())
}

/// Deletes folder `id`; the default folder is never deleted (see
/// `spec_delete_folder`).
pub fn delete_folder(db: &mut Database, id: i64) -> (r: Result<(), String>)
    requires
        old(db).wf(),
    ensures
        final(db).wf(),
        r is Ok,
        final(db)@ == spec_delete_folder(old(db)@, id),
{
    db.delete_folder(id);
    Ok(())
}

/// Puts entry `entry_id` into folder `folder_id` (see `add_link`).
pub fn add_to_folder(db: &mut Database, now: &str, folder_id: i64, entry_id: i64) -> (r: Result<
    (),
    String,
>)
    requires
        old(db).wf(),
    ensures
        final(db).wf(),
        r is Ok,
        final(db)@ == add_link(old(db)@, now@, folder_id, entry_id),
{
    db.add_entry_to_folder(now, folder_id, entry_id);
    Ok(())
}

/// Takes entry `entry_id` out of folder `folder_id`.
pub fn remove_from_folder(db: &mut Database, folder_id: i64, entry_id: i64) -> (r: Result<
    (),
    String,
>)
    requires
        old(db).wf(),
    ensures
        final(db).wf(),
        r is Ok,
        final(db)@ == remove_links(old(db)@, LinkSel::Pair(folder_id, entry_id)),
{
    db.remove_entry_from_folder(folder_id, entry_id);
    Ok(())
}

/// One page of the entries of a folder, as summaries (see
/// `spec_get_folder_entries`).
pub fn get_folder_entries(db: &Database, folder_id: i64, limit: i64, offset: i64) -> (r: Result<
    Vec<ClipboardEntrySummary>,
    String,
>)
    requires
        db.wf(),
    ensures
        r matches Ok(v) && v@.map_values(|s: ClipboardEntrySummary| s@) == summaries_of(
            spec_get_folder_entries(db@, folder_id, limit, offset),
        ),
{
    Ok(summaries(db.get_folder_entries(folder_id, limit, offset)))
}

/// The ids of the folders that hold entry `entry_id`.
pub fn get_entry_folders(db: &Database, entry_id: i64) -> (r: Result<Vec<i64>, String>)
    requires
        db.wf(),
    ensures
        r matches Ok(v) && v@ == spec_get_entry_folders(db@, entry_id),
{
    Ok(db.get_entry_folders(entry_id))
}

} // verus!
