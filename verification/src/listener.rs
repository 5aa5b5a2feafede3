//! The decisions of the clipboard watcher. The watcher polls the clipboard's
//! sequence number; on each change it skips the program's own writes and the
//! debounce window, reads the new content, and reports it unless its hash is
//! that of the program's last write. Polling, reading and sending are done
//! by the program around the library; the steps here decide.
use vstd::prelude::*;

use vstd::utf8::encode_utf8;
use vstd::slice::slice_to_vec;

use crate::dedup::content_hash;
use crate::dedup::duplicate_hash;
use crate::dedup::elapsed_since;
use crate::dedup::in_debounce;
use crate::dedup::own_write;
use crate::dedup::DedupEngine;
use crate::models::content_type_of_name;
use crate::models::ContentType;
use crate::settings::max_history_key;
use crate::settings::max_history_of;
use crate::settings::SettingsManager;
use crate::store::bytes_view;
use crate::store::listing::spec_cleanup_old_entries;
use crate::store::listing::unpinned_entries;
use crate::store::queries::spec_insert_or_update_entry;
use crate::store::seqs::lemma_filter_members;
use crate::store::laws::lemma_cleanup_keeps_pinned;
use crate::store::laws::lemma_cleanup_limit;
use crate::store::laws::lemma_insert_keeps_ids_rising;
use crate::store::settings::spec_get_setting;
use crate::store::Database;
use crate::store::DbView;
use crate::store::EntryView;

verus! {

/// A new clipboard content, sent from the watcher to the history.
#[derive(Debug, Clone)]
pub struct ClipboardEvent {
    pub text_preview: String,
    pub content_hash: String,
    pub content_type: String,
    pub raw_content: Option<Vec<u8>>,
    pub content_size: i64,
    pub source_app: String,
    pub source_class: String,
}

/// The content that an event's hash is taken of: the raw bytes when there
/// are any, else the UTF-8 bytes of the preview.
pub open spec fn hashed_content(raw: Option<Seq<u8>>, preview: Seq<char>) -> Seq<u8> {
    match raw {
        Some(b) => b,
        None => encode_utf8(preview),
    }
}

/// What the watcher does about the current sequence number.
#[derive(Debug, Clone, Copy, PartialEq, Eq, Structural)]
pub enum SeqCheck {
    /// Nothing changed (or the system reports no number): wait.
    Unchanged,
    /// The change is the program's own write: it is consumed and skipped.
    OwnWrite,
    /// The change falls into the debounce window: wait and look again.
    Debounce,
    /// A change to read.
    Changed,
    /// A change whose content asks not to be recorded: it is skipped, and
    /// looked at again later.
    Excluded,
}

/// The decision on a sequence number, given the milliseconds since the last
/// own write.
pub open spec fn seq_decision(last_seq: u64, dedup: crate::dedup::DedupView, current_seq: u64, elapsed_ms: u64) -> SeqCheck {
    if current_seq == 0 || current_seq == last_seq {
        SeqCheck::Unchanged
    } else if own_write(dedup, current_seq) {
        SeqCheck::OwnWrite
    } else if in_debounce(dedup, elapsed_ms) {
        SeqCheck::Debounce
    } else {
        SeqCheck::Changed
    }
}

/// The decision of one poll: as `seq_decision`, except that a change whose
/// clipboard carries a format asking not to be recorded is not read.
pub open spec fn poll_decision_of(
    last_seq: u64,
    dedup: crate::dedup::DedupView,
    current_seq: u64,
    elapsed_ms: u64,
    excluded: bool,
) -> SeqCheck {
    let d = seq_decision(last_seq, dedup, current_seq, elapsed_ms);
    if d == SeqCheck::Changed && excluded {
        SeqCheck::Excluded
    } else {
        d
    }
}

/// The watcher's memory: the last sequence number it has dealt with.
pub struct ListenerState {
    last_seq: u64,
}

impl ListenerState {
    /// A watcher that has dealt with no change yet.
    pub fn new() -> (s: ListenerState)
        ensures
            s.last_seq() == 0,
    {
        ListenerState { last_seq: 0 }
    }

    pub closed spec fn last_seq(&self) -> u64 {
        self.last_seq
    }

    /// The last sequence number dealt with.
    pub fn last_sequence(&self) -> (n: u64)
        ensures
            n == self.last_seq(),
    {
        self.last_seq
    }

    /// The decision on `current_seq` when `elapsed_ms` milliseconds have
    /// passed since the last own write. An own write is consumed: its number
    /// becomes the last one dealt with.
    pub fn check_sequence_at(&mut self, dedup: &DedupEngine, current_seq: u64, elapsed_ms: u64) -> (r: SeqCheck)
        ensures
            r == seq_decision(old(self).last_seq(), dedup@, current_seq, elapsed_ms),
            final(self).last_seq() == (if r == SeqCheck::OwnWrite {
                current_seq
            } else {
                old(self).last_seq()
            }),
    {
        if current_seq == 0 || current_seq == self.last_seq {
            return SeqCheck::Unchanged;
        }
        if dedup.is_own_write_by_seq(current_seq) {
            self.last_seq = current_seq;
            return SeqCheck::OwnWrite;
        }
        if dedup.within_debounce(elapsed_ms) {
            return SeqCheck::Debounce;
        }
        SeqCheck::Changed
    }

    /// The decision on `current_seq` against the engine's clock (see
    /// `check_sequence_at`), with the time counted from the engine's last
    /// write. Only the clock's reading is not known.
    pub fn check_sequence(&mut self, dedup: &DedupEngine, current_seq: u64) -> (r: SeqCheck)
        ensures
            exists|now_ms: u64|
                r == seq_decision(
                    old(self).last_seq(),
                    dedup@,
                    current_seq,
                    elapsed_since(dedup@, now_ms),
                ),
            final(self).last_seq() == (if r == SeqCheck::OwnWrite {
                current_seq
            } else {
                old(self).last_seq()
            }),
    {
        let t = dedup.now_ms();
        let elapsed = dedup.elapsed_at(t);
        self.check_sequence_at(dedup, current_seq, elapsed)
    }

    /// The decision of one poll of `current_seq` when `elapsed_ms`
    /// milliseconds have passed since the last own write and `excluded` says
    /// whether the clipboard carries a format that asks not to be recorded
    /// (see `poll_decision_of`). An own write is consumed; an excluded
    /// change is not.
    pub fn poll_decision_at(
        &mut self,
        dedup: &DedupEngine,
        current_seq: u64,
        elapsed_ms: u64,
        excluded: bool,
    ) -> (r: SeqCheck)
        ensures
            r == poll_decision_of(old(self).last_seq(), dedup@, current_seq, elapsed_ms, excluded),
            final(self).last_seq() == (if r == SeqCheck::OwnWrite {
                current_seq
            } else {
                old(self).last_seq()
            }),
    {
        let c = self.check_sequence_at(dedup, current_seq, elapsed_ms);
        if c == SeqCheck::Changed && excluded {
            SeqCheck::Excluded
        } else {
            c
        }
    }

    /// The decision of one poll against the engine's clock (see
    /// `poll_decision_at`), with the time counted from the engine's last
    /// write. Only the clock's reading is not known.
    pub fn poll_decision(&mut self, dedup: &DedupEngine, current_seq: u64, excluded: bool) -> (r: SeqCheck)
        ensures
            exists|now_ms: u64|
                r == poll_decision_of(
                    old(self).last_seq(),
                    dedup@,
                    current_seq,
                    elapsed_since(dedup@, now_ms),
                    excluded,
                ),
            excluded ==> r != SeqCheck::Changed,
            final(self).last_seq() == (if r == SeqCheck::OwnWrite {
                current_seq
            } else {
                old(self).last_seq()
            }),
    {
        let t = dedup.now_ms();
        let elapsed = dedup.elapsed_at(t);
        self.poll_decision_at(dedup, current_seq, elapsed, excluded)
    }

    /// What a read of the clipboard does to the watcher's memory: a
    /// successful read marks `seq` as dealt with; after a failed one the
    /// number is tried again at the next poll.
    pub fn after_read(&mut self, seq: u64, read_ok: bool)
        ensures
            final(self).last_seq() == (if read_ok {
                seq
            } else {
                old(self).last_seq()
            }),
    {
        if read_ok {
            self.last_seq = seq;
        }
    }

    /// Marks `seq` as dealt with, once its content was read.
    pub fn mark_read(&mut self, seq: u64)
        ensures
            final(self).last_seq() == seq,
    {
        self.last_seq = seq;
    }
}

/// The event for content that was read from the clipboard, with its hash
/// (see `hashed_content`); `None` when the hash is that of the program's
/// last write.
pub fn build_event(
    dedup: &DedupEngine,
    text_preview: String,
    content_type: String,
    raw_content: Option<Vec<u8>>,
    content_size: i64,
    source_app: String,
    source_class: String,
) -> (r: Option<ClipboardEvent>)
    ensures
        ({
            let h = content_hash(hashed_content(bytes_view(raw_content), text_preview@));
            &&& r is None <==> duplicate_hash(dedup@, h)
            &&& r matches Some(e) ==> {
                &&& e.content_hash@ == h
                &&& e.text_preview@ == text_preview@
                &&& e.content_type@ == content_type@
                &&& bytes_view(e.raw_content) == bytes_view(raw_content)
                &&& e.content_size == content_size
                &&& e.source_app@ == source_app@
                &&& e.source_class@ == source_class@
            }
        }),
{
    let hash = match &raw_content {
        Some(b) => DedupEngine::compute_hash(b.as_slice()),
        None => {
            let bytes = slice_to_vec(text_preview.as_str().as_bytes());
            DedupEngine::compute_hash(bytes.as_slice())
        },
    };
    if dedup.is_duplicate_hash(hash.as_str()) {
        return None;
    }
    Some(
        ClipboardEvent {
            text_preview,
            content_hash: hash,
            content_type,
            raw_content,
            content_size,
            source_app,
            source_class,
        },
    )
}

/// The pause before the next try to open the clipboard, after try
/// `attempt` (counted from 1) of `max_retries` failed: 10 ms times the
/// attempt, or `None` after the last try.
pub fn open_retry_delay_ms(attempt: u32, max_retries: u32) -> (d: Option<u64>)
    ensures
        attempt < max_retries ==> d == Some((10 * attempt) as u64),
        attempt >= max_retries ==> d is None,
{
    if attempt < max_retries {
        Some(10 * (attempt as u64))
    } else {
        None
    }
}

/// The history after storing an event at time `now`, and what it answers
/// (see `spec_insert_or_update_entry`).
pub open spec fn event_insertion(v: DbView, now: Seq<char>, e: ClipboardEvent) -> (DbView, Result<Option<i64>, crate::store::DbError>) {
    spec_insert_or_update_entry(
        v,
        now,
        e.content_hash@,
        e.text_preview@,
        content_type_of_name(e.content_type@),
        bytes_view(e.raw_content),
        e.content_size,
        e.source_app@,
        e.source_class@,
    )
}

/// Files an event in the history: the content is stored; when that made a
/// new entry, the unpinned entries are cut down to the "max_history"
/// setting, and the new id is the answer. An event whose content is already
/// in the history, or that cannot be stored, changes at most the last access
/// and gives `None`. When cutting runs, the count of live unpinned entries
/// minus the limit must fit in 64 bits, as the database computes it.
pub fn store_event(db: &mut Database, now: &str, event: &ClipboardEvent) -> (r: Option<i64>)
    requires
        old(db).wf(),
        ({
            let (v1, ins) = event_insertion(old(db)@, now@, *event);
            ins matches Ok(Some(_)) ==> {
                &&& unpinned_entries(v1).len() <= i64::MAX
                &&& unpinned_entries(v1).len() - max_history_of(
                    spec_get_setting(old(db)@, max_history_key()),
                ) <= i64::MAX
            }
        }),
    ensures
        final(db).wf(),
        ({
            let (v1, ins) = event_insertion(old(db)@, now@, *event);
            match ins {
                Ok(Some(id)) => r == Some(id) && final(db)@ == spec_cleanup_old_entries(
                    v1,
                    max_history_of(spec_get_setting(old(db)@, max_history_key())),
                ).0,
                _ => r is None && final(db)@ == v1,
            }
        }),
{
    let ghost v0 = db@;
    let content_type = ContentType::from_str(event.content_type.as_str());
    let raw: Option<&[u8]> = match &event.raw_content {
        Some(b) => Some(b.as_slice()),
        None => None,
    };
    let inserted = db.insert_or_update_entry(
        now,
        event.content_hash.as_str(),
        event.text_preview.as_str(),
        &content_type,
        raw,
        event.content_size,
        event.source_app.as_str(),
        event.source_class.as_str(),
    );
    proof {
        assert(bytes_view(event.raw_content) == match raw {
            Some(s) => Some(s@),
            None => None::<Seq<u8>>,
        });
    }
    match inserted {
        Ok(Some(id)) => {
            let max_history = SettingsManager::max_history(db);
            proof {
                let v1 = db@;
                assert(v1.settings == v0.settings);
                assert(spec_get_setting(v1, max_history_key()) == spec_get_setting(v0, max_history_key()));
            }
            db.cleanup_old_entries(max_history);
            Some(id)
        },
        _ => None,
    }
}

/// Filing an event that makes a new entry leaves no more unpinned entries
/// than the "max_history" limit allows (none when it is negative), and
/// never removes a pinned entry.
pub proof fn lemma_filed_event_respects_limit(v: DbView, now: Seq<char>, e: ClipboardEvent)
    requires
        crate::store::db_wf(v),
        event_insertion(v, now, e).1 matches Ok(Some(_)),
    ensures
        ({
            let v1 = event_insertion(v, now, e).0;
            let max = max_history_of(spec_get_setting(v, max_history_key()));
            let v2 = spec_cleanup_old_entries(v1, max).0;
            &&& unpinned_entries(v2).len() <= (if max < 0 {
                0
            } else {
                max as int
            })
            &&& forall|k: int|
                0 <= k < v1.entries.len() && v1.entries[k].is_pinned ==> v2.entries.contains(
                    v1.entries[k],
                )
        }),
{
    let v1 = event_insertion(v, now, e).0;
    let max = max_history_of(spec_get_setting(v, max_history_key()));
    lemma_insert_keeps_ids_rising(
        v,
        now,
        e.content_hash@,
        e.text_preview@,
        content_type_of_name(e.content_type@),
        bytes_view(e.raw_content),
        e.content_size,
        e.source_app@,
        e.source_class@,
    );
    lemma_cleanup_limit(v1, max);
    lemma_cleanup_keeps_pinned(v1, max);
}

/// A change that is the program's own write is consumed at once: the
/// watcher never reports it, and it is not looked at again.
pub proof fn lemma_own_write_consumed(
    last_seq: u64,
    dedup: crate::dedup::DedupView,
    current_seq: u64,
    elapsed_ms: u64,
    later_ms: u64,
)
    requires
        current_seq != 0,
        current_seq != last_seq,
        own_write(dedup, current_seq),
    ensures
        seq_decision(last_seq, dedup, current_seq, elapsed_ms) == SeqCheck::OwnWrite,
        seq_decision(current_seq, dedup, current_seq, later_ms) == SeqCheck::Unchanged,
{
}

/// Outside the debounce window, a new sequence number that is not an own
/// write is always read.
pub proof fn lemma_foreign_change_is_read(
    last_seq: u64,
    dedup: crate::dedup::DedupView,
    current_seq: u64,
    elapsed_ms: u64,
)
    requires
        current_seq != 0,
        current_seq != last_seq,
        !own_write(dedup, current_seq),
        elapsed_ms >= dedup.debounce_ms,
    ensures
        seq_decision(last_seq, dedup, current_seq, elapsed_ms) == SeqCheck::Changed,
{
}

/// A change is read only when it passed every filter before the read: the
/// system gave a number, it is new to the watcher, it is not the program's
/// own write, and the debounce window is over. (The event of a read is then
/// dropped exactly when its hash is that of the last own write; see
/// `build_event`.)
pub proof fn lemma_read_only_after_filters(
    last_seq: u64,
    dedup: crate::dedup::DedupView,
    current_seq: u64,
    elapsed_ms: u64,
)
    ensures
        (seq_decision(last_seq, dedup, current_seq, elapsed_ms) == SeqCheck::Changed) <==> (
        current_seq != 0 && current_seq != last_seq && !own_write(dedup, current_seq)
            && !in_debounce(dedup, elapsed_ms)),
{
}

/// Once a sequence number is dealt with (consumed as an own write, or
/// marked read), no later poll of the same number reads it again: at most
/// one event comes of each number.
pub proof fn lemma_sequence_dealt_with_once(
    dedup: crate::dedup::DedupView,
    seq: u64,
    elapsed_ms: u64,
)
    ensures
        seq_decision(seq, dedup, seq, elapsed_ms) == SeqCheck::Unchanged,
{
}

/// An excluded change is never read, and it is not consumed: once the
/// format that asks not to be recorded is gone, the same number is read.
pub proof fn lemma_excluded_change_waits(
    last_seq: u64,
    dedup: crate::dedup::DedupView,
    current_seq: u64,
    elapsed_ms: u64,
)
    ensures
        poll_decision_of(last_seq, dedup, current_seq, elapsed_ms, true) != SeqCheck::Changed,
        poll_decision_of(last_seq, dedup, current_seq, elapsed_ms, true) == SeqCheck::Excluded
            ==> poll_decision_of(last_seq, dedup, current_seq, elapsed_ms, false)
            == SeqCheck::Changed,
{
}

/// A poll at a clock reading past the debounce window of the last own write
/// reads every new sequence number that is not an own write and whose
/// content is not excluded.
pub proof fn lemma_poll_reads_after_window(
    last_seq: u64,
    dedup: crate::dedup::DedupView,
    current_seq: u64,
    now_ms: u64,
)
    requires
        current_seq != 0,
        current_seq != last_seq,
        !own_write(dedup, current_seq),
        now_ms >= dedup.last_write_ms + dedup.debounce_ms,
    ensures
        poll_decision_of(last_seq, dedup, current_seq, elapsed_since(dedup, now_ms), false)
            == SeqCheck::Changed,
        poll_decision_of(last_seq, dedup, current_seq, elapsed_since(dedup, now_ms), true)
            == SeqCheck::Excluded,
{
}

} // verus!
