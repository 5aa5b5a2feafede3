//! The history database: entries, folders, folder links and settings, held
//! in memory with the consistency rules of their tables.
use vstd::prelude::*;

pub mod order;
pub mod queries;
pub mod links;
pub mod changes;
pub mod folders;
pub mod listing;
pub mod folder_listing;
pub mod search;
pub mod settings;
pub mod laws;
pub mod migrations;
pub mod load;
pub mod seqs;
pub mod repair;

use crate::models::{content_type_name, ContentType, Folder};

verus! {

/// Errors that the history database itself reports.
#[derive(Debug, Clone, Copy, PartialEq, Eq, Structural)]
pub enum DbError {
    /// A row would break a uniqueness rule of its table (the content hash of
    /// the entries, the pair of a folder link, the key of a setting).
    ConstraintViolation,
    /// No row id is left for a new row.
    DatabaseFull,
    /// Rows handed over from storage do not form a consistent database.
    InvalidData,
}

/// One stored row of the clipboard entries table.
pub struct EntryRow {
    pub id: i64,
    pub content_hash: String,
    pub text_preview: String,
    pub content_type: String,
    pub raw_content: Option<Vec<u8>>,
    pub content_size: i64,
    pub source_app: String,
    pub source_class: String,
    pub captured_at: String,
    pub last_accessed: String,
    pub is_pinned: bool,
    pub is_deleted: bool,
}

/// The value of an entry row.
pub struct EntryView {
    pub id: i64,
    pub content_hash: Seq<char>,
    pub text_preview: Seq<char>,
    pub content_type: Seq<char>,
    pub raw_content: Option<Seq<u8>>,
    pub content_size: i64,
    pub source_app: Seq<char>,
    pub source_class: Seq<char>,
    pub captured_at: Seq<char>,
    pub last_accessed: Seq<char>,
    pub is_pinned: bool,
    pub is_deleted: bool,
}

pub open spec fn bytes_view(raw: Option<Vec<u8>>) -> Option<Seq<u8>> {
    match raw {
        Some(v) => Some(v@),
        None => None,
    }
}

impl View for EntryRow {
    type V = EntryView;

    open spec fn view(&self) -> EntryView {
        EntryView {
            id: self.id,
            content_hash: self.content_hash@,
            text_preview: self.text_preview@,
            content_type: self.content_type@,
            raw_content: bytes_view(self.raw_content),
            content_size: self.content_size,
            source_app: self.source_app@,
            source_class: self.source_class@,
            captured_at: self.captured_at@,
            last_accessed: self.last_accessed@,
            is_pinned: self.is_pinned,
            is_deleted: self.is_deleted,
        }
    }
}

/// The value of a folder row.
pub struct FolderView {
    pub id: i64,
    pub name: Seq<char>,
    pub is_default: bool,
    pub sort_order: i64,
    pub created_at: Seq<char>,
    pub updated_at: Seq<char>,
}

impl View for Folder {
    type V = FolderView;

    open spec fn view(&self) -> FolderView {
        FolderView {
            id: self.id,
            name: self.name@,
            is_default: self.is_default,
            sort_order: self.sort_order,
            created_at: self.created_at@,
            updated_at: self.updated_at@,
        }
    }
}

/// One stored row of the folder membership table.
pub struct FolderEntryRow {
    pub folder_id: i64,
    pub entry_id: i64,
    pub added_at: String,
}

pub struct LinkView {
    pub folder_id: i64,
    pub entry_id: i64,
    pub added_at: Seq<char>,
}

impl View for FolderEntryRow {
    type V = LinkView;

    open spec fn view(&self) -> LinkView {
        LinkView { folder_id: self.folder_id, entry_id: self.entry_id, added_at: self.added_at@ }
    }
}

/// One stored row of the settings table.
pub struct SettingRow {
    pub key: String,
    pub value: String,
    pub updated_at: String,
}

pub struct SettingView {
    pub key: Seq<char>,
    pub value: Seq<char>,
    pub updated_at: Seq<char>,
}

impl View for SettingRow {
    type V = SettingView;

    open spec fn view(&self) -> SettingView {
        SettingView { key: self.key@, value: self.value@, updated_at: self.updated_at@ }
    }
}

/// The whole history database: its four tables and the last row ids handed
/// out for entries and for folders.
pub struct Database {
    entries: Vec<EntryRow>,
    folders: Vec<Folder>,
    links: Vec<FolderEntryRow>,
    settings: Vec<SettingRow>,
    entry_seq: i64,
    folder_seq: i64,
}

pub struct DbView {
    pub entries: Seq<EntryView>,
    pub folders: Seq<FolderView>,
    pub links: Seq<LinkView>,
    pub settings: Seq<SettingView>,
    pub entry_seq: i64,
    pub folder_seq: i64,
}

pub open spec fn entries_view(v: Seq<EntryRow>) -> Seq<EntryView> {
    v.map_values(|r: EntryRow| r@)
}

pub open spec fn folders_view(v: Seq<Folder>) -> Seq<FolderView> {
    v.map_values(|r: Folder| r@)
}

pub open spec fn links_view(v: Seq<FolderEntryRow>) -> Seq<LinkView> {
    v.map_values(|r: FolderEntryRow| r@)
}

pub open spec fn settings_view(v: Seq<SettingRow>) -> Seq<SettingView> {
    v.map_values(|r: SettingRow| r@)
}

impl View for Database {
    type V = DbView;

    closed spec fn view(&self) -> DbView {
        DbView {
            entries: entries_view(self.entries@),
            folders: folders_view(self.folders@),
            links: links_view(self.links@),
            settings: settings_view(self.settings@),
            entry_seq: self.entry_seq,
            folder_seq: self.folder_seq,
        }
    }
}

/// Whether a stored name is the name of one of the content types.
pub open spec fn is_content_type_name(s: Seq<char>) -> bool {
    exists|t: ContentType| content_type_name(t) == s
}

/// The consistency rules of the tables: row ids rise with the position of the
/// row and never pass the last id handed out, content hashes, folder links and
/// setting keys are unique, content types are known names, and at most one
/// folder is the default folder.
pub open spec fn db_wf(v: DbView) -> bool {
    &&& forall|i: int, j: int|
        0 <= i < j < v.entries.len() ==> v.entries[i].id < v.entries[j].id
    &&& forall|i: int| 0 <= i < v.entries.len() ==> v.entries[i].id <= v.entry_seq
    &&& forall|i: int, j: int|
        0 <= i < j < v.entries.len() ==> v.entries[i].content_hash != v.entries[j].content_hash
    &&& forall|i: int| 0 <= i < v.entries.len() ==> is_content_type_name(v.entries[i].content_type)
    &&& forall|i: int, j: int|
        0 <= i < j < v.folders.len() ==> v.folders[i].id < v.folders[j].id
    &&& forall|i: int| 0 <= i < v.folders.len() ==> v.folders[i].id <= v.folder_seq
    &&& forall|i: int, j: int|
        0 <= i < j < v.folders.len() ==> !(v.folders[i].is_default && v.folders[j].is_default)
    &&& forall|i: int, j: int|
        0 <= i < j < v.links.len() ==> !(v.links[i].folder_id == v.links[j].folder_id
            && v.links[i].entry_id == v.links[j].entry_id)
    &&& forall|i: int, j: int|
        0 <= i < j < v.settings.len() ==> v.settings[i].key != v.settings[j].key
}

impl Database {
    pub open spec fn wf(&self) -> bool {
        db_wf(self@)
    }

    /// An empty database whose row ids start from the beginning.
    pub fn new() -> (db: Database)
        ensures
            db.wf(),
            db@.entries.len() == 0,
            db@.folders.len() == 0,
            db@.links.len() == 0,
            db@.settings.len() == 0,
            db@.entry_seq == 0,
            db@.folder_seq == 0,
    {
        let db = Database {
            entries: Vec::new(),
            folders: Vec::new(),
            links: Vec::new(),
            settings: Vec::new(),
            entry_seq: 0,
            folder_seq: 0,
        };
        proof {
            assert(db@.entries =~= Seq::empty());
            assert(db@.folders =~= Seq::empty());
            assert(db@.links =~= Seq::empty());
            assert(db@.settings =~= Seq::empty());
        }
        db
    }

    pub fn entry_rows(&self) -> (r: &Vec<EntryRow>)
        ensures
            entries_view(r@) == self@.entries,
    {
        &self.entries
    }

    pub fn folder_rows(&self) -> (r: &Vec<Folder>)
        ensures
            folders_view(r@) == self@.folders,
    {
        &self.folders
    }

    pub fn link_rows(&self) -> (r: &Vec<FolderEntryRow>)
        ensures
            links_view(r@) == self@.links,
    {
        &self.links
    }

    pub fn setting_rows(&self) -> (r: &Vec<SettingRow>)
        ensures
            settings_view(r@) == self@.settings,
    {
        &self.settings
    }

    pub fn last_entry_id(&self) -> (r: i64)
        ensures
            r == self@.entry_seq,
    {
        self.entry_seq
    }

    pub fn last_folder_id(&self) -> (r: i64)
        ensures
            r == self@.folder_seq,
    {
        self.folder_seq
    }
}

} // verus!

