//! The records of the history as the rest of the program sees them.
use vstd::prelude::*;

verus! {

/// The kind of content held by one history entry.
#[derive(Debug, Clone, Copy, PartialEq, Eq, Structural)]
pub enum ContentType {
    Text,
    Image,
    Files,
    Html,
    Rtf,
    Other,
}

/// The stored name of each content type.
pub open spec fn content_type_name(t: ContentType) -> Seq<char> {
    match t {
        ContentType::Text => seq!['t', 'e', 'x', 't'],
        ContentType::Image => seq!['i', 'm', 'a', 'g', 'e'],
        ContentType::Files => seq!['f', 'i', 'l', 'e', 's'],
        ContentType::Html => seq!['h', 't', 'm', 'l'],
        ContentType::Rtf => seq!['r', 't', 'f'],
        ContentType::Other => seq!['o', 't', 'h', 'e', 'r'],
    }
}

/// The content type that a stored name denotes: the type whose name it is,
/// and `Other` for every name that is not one of them.
pub open spec fn content_type_of_name(s: Seq<char>) -> ContentType {
    if s == content_type_name(ContentType::Text) {
        ContentType::Text
    } else if s == content_type_name(ContentType::Image) {
        ContentType::Image
    } else if s == content_type_name(ContentType::Files) {
        ContentType::Files
    } else if s == content_type_name(ContentType::Html) {
        ContentType::Html
    } else if s == content_type_name(ContentType::Rtf) {
        ContentType::Rtf
    } else {
        ContentType::Other
    }
}

/// Whether two string slices hold the same characters.
pub fn str_equal(a: &str, b: &str) -> (res: bool)
    ensures
        res == (a@ == b@),
{
    let ab = a.as_bytes();
    let bb = b.as_bytes();
    proof {
        vstd::utf8::encode_utf8_decode_utf8(a@);
        vstd::utf8::encode_utf8_decode_utf8(b@);
    }
    if ab.len() != bb.len() {
        return false;
    }
    let n = ab.len();
    let mut i: usize = 0;
    while i < n
        invariant
            n == ab@.len(),
            n == bb@.len(),
            i <= n,
            ab@ == vstd::utf8::encode_utf8(a@),
            bb@ == vstd::utf8::encode_utf8(b@),
            forall|j: int| 0 <= j < i ==> ab@[j] == bb@[j],
        decreases n - i,
    {
        if ab[i] != bb[i] {
            return false;
        }
        i = i + 1;
    }
    assert(ab@ =~= bb@);
    true
}

impl ContentType {
    /// The name under which this content type is stored.
    pub fn as_str(&self) -> (s: &'static str)
        ensures
            s@ == content_type_name(*self),
    {
        match self {
            ContentType::Text => {
                proof {
                    reveal_strlit("text");
                }
                "text"
            },
            ContentType::Image => {
                proof {
                    reveal_strlit("image");
                }
                "image"
            },
            ContentType::Files => {
                proof {
                    reveal_strlit("files");
                }
                "files"
            },
            ContentType::Html => {
                proof {
                    reveal_strlit("html");
                }
                "html"
            },
            ContentType::Rtf => {
                proof {
                    reveal_strlit("rtf");
                }
                "rtf"
            },
            ContentType::Other => {
                proof {
                    reveal_strlit("other");
                }
                "other"
            },
        }
    }

    /// The content type that a stored name denotes; unknown names give `Other`.
    pub fn from_str(s: &str) -> (t: ContentType)
        ensures
            t == content_type_of_name(s@),
    {
        proof {
            reveal_strlit("text");
            reveal_strlit("image");
            reveal_strlit("files");
            reveal_strlit("html");
            reveal_strlit("rtf");
            assert("text"@ =~= content_type_name(ContentType::Text));
            assert("image"@ =~= content_type_name(ContentType::Image));
            assert("files"@ =~= content_type_name(ContentType::Files));
            assert("html"@ =~= content_type_name(ContentType::Html));
            assert("rtf"@ =~= content_type_name(ContentType::Rtf));
        }
        if str_equal(s, "text") {
            ContentType::Text
        } else if str_equal(s, "image") {
            ContentType::Image
        } else if str_equal(s, "files") {
            ContentType::Files
        } else if str_equal(s, "html") {
            ContentType::Html
        } else if str_equal(s, "rtf") {
            ContentType::Rtf
        } else {
            ContentType::Other
        }
    }
}

/// One entry of the clipboard history, without its raw content.
#[derive(Debug, Clone)]
pub struct ClipboardEntry {
    pub id: i64,
    pub content_hash: String,
    pub text_preview: String,
    pub content_type: String,
    pub content_size: i64,
    pub source_app: String,
    pub source_class: String,
    pub captured_at: String,
    pub last_accessed: String,
    pub is_pinned: bool,
    pub is_deleted: bool,
}

/// The value of a history entry.
pub struct ClipboardEntryView {
    pub id: i64,
    pub content_hash: Seq<char>,
    pub text_preview: Seq<char>,
    pub content_type: Seq<char>,
    pub content_size: i64,
    pub source_app: Seq<char>,
    pub source_class: Seq<char>,
    pub captured_at: Seq<char>,
    pub last_accessed: Seq<char>,
    pub is_pinned: bool,
    pub is_deleted: bool,
}

impl View for ClipboardEntry {
    type V = ClipboardEntryView;

    open spec fn view(&self) -> ClipboardEntryView {
        ClipboardEntryView {
            id: self.id,
            content_hash: self.content_hash@,
            text_preview: self.text_preview@,
            content_type: self.content_type@,
            content_size: self.content_size,
            source_app: self.source_app@,
            source_class: self.source_class@,
            captured_at: self.captured_at@,
            last_accessed: self.last_accessed@,
            is_pinned: self.is_pinned,
            is_deleted: self.is_deleted,
        }
    }
}

/// The light form of an entry that the user interface receives.
#[derive(Debug, Clone)]
pub struct ClipboardEntrySummary {
    pub id: i64,
    pub content_hash: String,
    pub text_preview: String,
    pub content_type: String,
    pub content_size: i64,
    pub source_app: String,
    pub captured_at: String,
    pub last_accessed: String,
    pub is_pinned: bool,
}

impl ClipboardEntrySummary {
    /// The summary of an entry: every field but the source class and the
    /// deletion mark, moved over unchanged.
    pub fn from(e: ClipboardEntry) -> (s: ClipboardEntrySummary)
        ensures
            s.id == e.id,
            s.content_hash == e.content_hash,
            s.text_preview == e.text_preview,
            s.content_type == e.content_type,
            s.content_size == e.content_size,
            s.source_app == e.source_app,
            s.captured_at == e.captured_at,
            s.last_accessed == e.last_accessed,
            s.is_pinned == e.is_pinned,
    {
        ClipboardEntrySummary {
            id: e.id,
            content_hash: e.content_hash,
            text_preview: e.text_preview,
            content_type: e.content_type,
            content_size: e.content_size,
            source_app: e.source_app,
            captured_at: e.captured_at,
            last_accessed: e.last_accessed,
            is_pinned: e.is_pinned,
        }
    }
}

/// The value of an entry summary.
pub struct ClipboardEntrySummaryView {
    pub id: i64,
    pub content_hash: Seq<char>,
    pub text_preview: Seq<char>,
    pub content_type: Seq<char>,
    pub content_size: i64,
    pub source_app: Seq<char>,
    pub captured_at: Seq<char>,
    pub last_accessed: Seq<char>,
    pub is_pinned: bool,
}

impl View for ClipboardEntrySummary {
    type V = ClipboardEntrySummaryView;

    open spec fn view(&self) -> ClipboardEntrySummaryView {
        ClipboardEntrySummaryView {
            id: self.id,
            content_hash: self.content_hash@,
            text_preview: self.text_preview@,
            content_type: self.content_type@,
            content_size: self.content_size,
            source_app: self.source_app@,
            captured_at: self.captured_at@,
            last_accessed: self.last_accessed@,
            is_pinned: self.is_pinned,
        }
    }
}

/// The summary of an entry: every field but the source class and the
/// deletion mark.
pub open spec fn summary_of(e: ClipboardEntryView) -> ClipboardEntrySummaryView {
    ClipboardEntrySummaryView {
        id: e.id,
        content_hash: e.content_hash,
        text_preview: e.text_preview,
        content_type: e.content_type,
        content_size: e.content_size,
        source_app: e.source_app,
        captured_at: e.captured_at,
        last_accessed: e.last_accessed,
        is_pinned: e.is_pinned,
    }
}

/// The summaries of a list of entries, in the same order.
pub fn summarize(entries: Vec<ClipboardEntry>) -> (r: Vec<ClipboardEntrySummary>)
    ensures
        r@.map_values(|s: ClipboardEntrySummary| s@) == entries@.map_values(
            |e: ClipboardEntry| summary_of(e@),
        ),
{
    let n = entries.len();
    let mut out: Vec<ClipboardEntrySummary> = Vec::new();
    let mut i: usize = 0;
    while i < n
        invariant
            n == entries@.len(),
            i <= n,
            out@.map_values(|s: ClipboardEntrySummary| s@) == entries@.take(i as int).map_values(
                |e: ClipboardEntry| summary_of(e@),
            ),
        decreases n - i,
    {
        let e = &entries[i];
        let s = ClipboardEntrySummary {
            id: e.id,
            content_hash: e.content_hash.clone(),
            text_preview: e.text_preview.clone(),
            content_type: e.content_type.clone(),
            content_size: e.content_size,
            source_app: e.source_app.clone(),
            captured_at: e.captured_at.clone(),
            last_accessed: e.last_accessed.clone(),
            is_pinned: e.is_pinned,
        };
        let ghost before = out@;
        out.push(s);
        proof {
            assert(entries@.take(i + 1) =~= entries@.take(i as int).push(entries@[i as int]));
            assert(out@.map_values(|s: ClipboardEntrySummary| s@) =~= before.map_values(
                |s: ClipboardEntrySummary| s@,
            ).push(s@));
            assert(entries@.take(i + 1).map_values(|e: ClipboardEntry| summary_of(e@))
                =~= entries@.take(i as int).map_values(|e: ClipboardEntry| summary_of(e@)).push(
                summary_of(entries@[i as int]@),
            ));
        }
        i = i + 1;
    }
    proof {
        assert(entries@.take(n as int) =~= entries@);
    }
    out
}

/// A folder of saved entries.
#[derive(Debug, Clone)]
pub struct Folder {
    pub id: i64,
    pub name: String,
    pub is_default: bool,
    pub sort_order: i64,
    pub created_at: String,
    pub updated_at: String,
}

/// A folder together with the number of live entries in it.
#[derive(Debug, Clone)]
pub struct FolderWithEntryCount {
    pub id: i64,
    pub name: String,
    pub is_default: bool,
    pub sort_order: i64,
    pub created_at: String,
    pub updated_at: String,
    pub entry_count: i64,
}

/// The value of a folder with its entry count.
pub struct FolderWithEntryCountView {
    pub id: i64,
    pub name: Seq<char>,
    pub is_default: bool,
    pub sort_order: i64,
    pub created_at: Seq<char>,
    pub updated_at: Seq<char>,
    pub entry_count: i64,
}

impl View for FolderWithEntryCount {
    type V = FolderWithEntryCountView;

    open spec fn view(&self) -> FolderWithEntryCountView {
        FolderWithEntryCountView {
            id: self.id,
            name: self.name@,
            is_default: self.is_default,
            sort_order: self.sort_order,
            created_at: self.created_at@,
            updated_at: self.updated_at@,
            entry_count: self.entry_count,
        }
    }
}

/// One key and value of the settings.
#[derive(Debug, Clone)]
pub struct SettingsEntry {
    pub key: String,
    pub value: String,
}

/// Reading back the stored name of a content type gives that content type.
pub proof fn lemma_content_type_name_round_trip(t: ContentType)
    ensures
        content_type_of_name(content_type_name(t)) == t,
{
}

} // verus!
