//! The loop-prevention engine: it remembers the last write this program made
//! to the clipboard so that the watcher can tell its own changes apart.
//!
//! Four layers keep the watcher from recording its own writes: the sequence
//! number of the last write, the SHA-256 hash of its content, the system's
//! "exclude from monitoring" mark (set by the program around the library),
//! and a debounce window right after a write.
use vstd::prelude::*;

use sha2::Digest;
use sha2::Sha256;
use std::time::Instant;

use crate::models::str_equal;

verus! {

#[verifier::external_type_specification]
#[verifier::external_body]
pub struct ExInstant(std::time::Instant);

/// The SHA-256 digest of a byte sequence, as the `sha2` crate computes it.
pub uninterp spec fn sha256_digest(data: Seq<u8>) -> Seq<u8>;

/// Calls `Sha256::new`, `update` and `finalize` of the `sha2` crate. The
/// contract claims that the result is the 32 bytes of the digest, which
/// depend on `data` alone; which bytes they are is not stated.
#[verifier::external_body]
fn sha256(data: &[u8]) -> (r: Vec<u8>)
    ensures
        r@ == sha256_digest(data@),
        r@.len() == 32,
{
    let mut hasher = Sha256::new();
    hasher.update(data);
    hasher.finalize().to_vec()
}

/// The lowercase hexadecimal digit of `n` (0 to 15).
pub open spec fn hex_digit(n: int) -> char {
    if n < 10 {
        (48 + n) as char
    } else {
        (87 + n) as char
    }
}

/// Bytes written as lowercase hexadecimal, two digits per byte, high
/// nibble first.
pub open spec fn hex_lower(bytes: Seq<u8>) -> Seq<char> {
    Seq::new(
        2 * bytes.len(),
        |i: int|
            if i % 2 == 0 {
                hex_digit((bytes[i / 2] / 16) as int)
            } else {
                hex_digit((bytes[i / 2] % 16) as int)
            },
    )
}

/// Calls `hex::encode`. The contract claims what the crate documents: the
/// bytes as lowercase hexadecimal, two digits per byte.
#[verifier::external_body]
fn hex_encode(bytes: &[u8]) -> (r: String)
    ensures
        r@ == hex_lower(bytes@),
{
    hex::encode(bytes)
}

/// Calls `Instant::now`. Nothing is claimed of the instant.
#[verifier::external_body]
fn now() -> (t: Instant) {
    Instant::now()
}

/// Calls `Instant::elapsed` and converts the duration to whole
/// milliseconds, cut to 64 bits. Nothing is claimed of the value: it
/// depends on the clock.
#[verifier::external_body]
fn millis_since(t: &Instant) -> (ms: u64) {
    t.elapsed().as_millis() as u64
}

/// The content hash of a clipboard item: its SHA-256 digest in lowercase
/// hexadecimal.
pub open spec fn content_hash(data: Seq<u8>) -> Seq<char> {
    hex_lower(sha256_digest(data))
}

/// What the engine remembers of the last write, and its debounce window.
/// Times are milliseconds on the engine's own clock, which starts at 0 when
/// the engine is made.
pub struct DedupView {
    pub last_written_seq: u64,
    pub last_content_hash: Seq<char>,
    pub last_write_ms: u64,
    pub debounce_ms: u64,
}

/// Whether a clipboard sequence number is that of the last own write: a
/// write was recorded (its number is not 0) and the numbers are equal.
pub open spec fn own_write(v: DedupView, seq: u64) -> bool {
    v.last_written_seq != 0 && seq == v.last_written_seq
}

/// Whether a content hash is that of the last own write: a hash was
/// recorded (it is not empty) and the hashes are equal.
pub open spec fn duplicate_hash(v: DedupView, hash: Seq<char>) -> bool {
    v.last_content_hash.len() > 0 && v.last_content_hash == hash
}

/// Whether `elapsed_ms` milliseconds after the last write still fall into
/// the debounce window.
pub open spec fn in_debounce(v: DedupView, elapsed_ms: u64) -> bool {
    elapsed_ms < v.debounce_ms
}

/// Milliseconds from the last write to the clock reading `now_ms` (0 for a
/// reading that is not later).
pub open spec fn elapsed_since(v: DedupView, now_ms: u64) -> u64 {
    if now_ms >= v.last_write_ms {
        (now_ms - v.last_write_ms) as u64
    } else {
        0
    }
}

/// The engine after recording, at clock reading `at_ms`, a write with
/// sequence number `seq` and content hash `hash`.
pub open spec fn recorded(v: DedupView, seq: u64, hash: Seq<char>, at_ms: u64) -> DedupView {
    DedupView {
        last_written_seq: seq,
        last_content_hash: hash,
        last_write_ms: at_ms,
        debounce_ms: v.debounce_ms,
    }
}

/// Loop-prevention state shared by the clipboard watcher and the writers.
pub struct DedupEngine {
    last_written_seq: u64,
    last_content_hash: String,
    started: Instant,
    last_write_ms: u64,
    debounce_ms: u64,
}

impl View for DedupEngine {
    type V = DedupView;

    closed spec fn view(&self) -> DedupView {
        DedupView {
            last_written_seq: self.last_written_seq,
            last_content_hash: self.last_content_hash@,
            last_write_ms: self.last_write_ms,
            debounce_ms: self.debounce_ms,
        }
    }
}

impl DedupEngine {
    /// An engine that has recorded no write, with a debounce window of
    /// `debounce_ms` milliseconds counted from its creation: its clock starts
    /// now, and the window runs from time 0 of it.
    pub fn new(debounce_ms: u64) -> (e: DedupEngine)
        ensures
            e@.last_written_seq == 0,
            e@.last_content_hash == Seq::<char>::empty(),
            e@.last_write_ms == 0,
            e@.debounce_ms == debounce_ms,
    {
        DedupEngine {
            last_written_seq: 0,
            last_content_hash: String::new(),
            started: now(),
            last_write_ms: 0,
            debounce_ms,
        }
    }

    /// The engine's clock: milliseconds since the engine was made. It
    /// depends on the clock, so nothing is promised of the value.
    pub fn now_ms(&self) -> (ms: u64) {
        millis_since(&self.started)
    }

    /// Milliseconds from the last write to the clock reading `now_ms` (see
    /// `elapsed_since`).
    pub fn elapsed_at(&self, now_ms: u64) -> (ms: u64)
        ensures
            ms == elapsed_since(self@, now_ms),
    {
        if now_ms >= self.last_write_ms {
            now_ms - self.last_write_ms
        } else {
            0
        }
    }

    /// The debounce window in milliseconds.
    pub fn debounce_ms(&self) -> (ms: u64)
        ensures
            ms == self@.debounce_ms,
    {
        self.debounce_ms
    }

    /// Layer 1: whether `current_seq` is the sequence number of this
    /// program's last write.
    pub fn is_own_write_by_seq(&self, current_seq: u64) -> (r: bool)
        ensures
            r == own_write(self@, current_seq),
    {
        self.last_written_seq != 0 && current_seq == self.last_written_seq
    }

    /// Layer 2: the content hash of `data`, its SHA-256 digest in lowercase
    /// hexadecimal.
    pub fn compute_hash(data: &[u8]) -> (h: String)
        ensures
            h@ == content_hash(data@),
            h@.len() == 64,
    {
        let digest = sha256(data);
        hex_encode(&digest)
    }

    /// Layer 2: whether `hash` is the content hash of this program's last
    /// write.
    pub fn is_duplicate_hash(&self, hash: &str) -> (r: bool)
        ensures
            r == duplicate_hash(self@, hash@),
    {
        let last = self.last_content_hash.as_str();
        if last.unicode_len() == 0 {
            return false;
        }
        str_equal(last, hash)
    }

    /// Layer 4, given the time since the last write: whether `elapsed_ms`
    /// falls into the debounce window.
    pub fn within_debounce(&self, elapsed_ms: u64) -> (r: bool)
        ensures
            r == in_debounce(self@, elapsed_ms),
    {
        elapsed_ms < self.debounce_ms
    }

    /// Milliseconds since the last recorded write (or since the engine was
    /// made), on the engine's clock: the time from the stored write time to
    /// the clock's reading. Which reading that is depends on the clock.
    pub fn elapsed_since_write(&self) -> (ms: u64)
        ensures
            exists|now_ms: u64| ms == elapsed_since(self@, now_ms),
    {
        let t = self.now_ms();
        self.elapsed_at(t)
    }

    /// Layer 4 at clock reading `now_ms`: whether the time since the last
    /// write still falls into the debounce window.
    pub fn is_in_debounce_window_at(&self, now_ms: u64) -> (r: bool)
        ensures
            r == in_debounce(self@, elapsed_since(self@, now_ms)),
    {
        let elapsed = self.elapsed_at(now_ms);
        self.within_debounce(elapsed)
    }

    /// Layer 4: whether the clock still stands inside the debounce window
    /// of the last write (see `is_in_debounce_window_at`). Which reading the
    /// clock gives is not known; with a window of zero the answer is `false`.
    pub fn is_in_debounce_window(&self) -> (r: bool)
        ensures
            exists|now_ms: u64| r == in_debounce(self@, elapsed_since(self@, now_ms)),
            self@.debounce_ms == 0 ==> !r,
    {
        let t = self.now_ms();
        self.is_in_debounce_window_at(t)
    }

    /// Records a write of this program at clock reading `now_ms`: its
    /// sequence number, its content hash and its time, from which the
    /// debounce window runs again.
    pub fn record_write_at(&mut self, seq: u64, hash: String, now_ms: u64)
        ensures
            final(self)@ == recorded(old(self)@, seq, hash@, now_ms),
    {
        self.last_written_seq = seq;
        self.last_content_hash = hash;
        self.last_write_ms = now_ms;
    }

    /// Records a write of this program at the clock's current reading (see
    /// `record_write_at`).
    pub fn record_write(&mut self, seq: u64, hash: String)
        ensures
            exists|now_ms: u64| final(self)@ == recorded(old(self)@, seq, hash@, now_ms),
    {
        let t = self.now_ms();
        self.record_write_at(seq, hash, t);
    }
}

/// Right after recording a write, its sequence number is recognised as an
/// own write (unless it is 0, the number that means "nothing recorded"), its
/// hash as a duplicate (unless it is empty), and no other number or hash is.
pub proof fn lemma_recorded_write_is_recognised(
    v: DedupView,
    seq: u64,
    hash: Seq<char>,
    at_ms: u64,
    other_seq: u64,
    other_hash: Seq<char>,
)
    ensures
        own_write(recorded(v, seq, hash, at_ms), seq) == (seq != 0),
        duplicate_hash(recorded(v, seq, hash, at_ms), hash) == (hash.len() > 0),
        other_seq != seq ==> !own_write(recorded(v, seq, hash, at_ms), other_seq),
        other_hash != hash ==> !duplicate_hash(recorded(v, seq, hash, at_ms), other_hash),
        recorded(v, seq, hash, at_ms).debounce_ms == v.debounce_ms,
{
}

/// Recording a write restarts the debounce window: right at the write, and
/// for as long as fewer milliseconds than the window have passed since, the
/// clock stands inside it; from then on it does not.
pub proof fn lemma_write_restarts_debounce(
    v: DedupView,
    seq: u64,
    hash: Seq<char>,
    at_ms: u64,
    later_ms: u64,
)
    requires
        later_ms >= at_ms,
    ensures
        in_debounce(recorded(v, seq, hash, at_ms), elapsed_since(recorded(v, seq, hash, at_ms), later_ms))
            == (later_ms - at_ms < v.debounce_ms),
{
}

/// A fresh engine treats no sequence number as its own and no hash as a
/// duplicate.
pub proof fn lemma_fresh_engine_recognises_nothing(v: DedupView, seq: u64, hash: Seq<char>)
    requires
        v.last_written_seq == 0,
        v.last_content_hash == Seq::<char>::empty(),
    ensures
        !own_write(v, seq),
        !duplicate_hash(v, hash),
{
}

/// A content hash has 64 characters, each a lowercase hexadecimal digit.
pub proof fn lemma_content_hash_shape(data: Seq<u8>)
    requires
        sha256_digest(data).len() == 32,
    ensures
        content_hash(data).len() == 64,
        forall|i: int|
            0 <= i < 64 ==> {
                let c = #[trigger] content_hash(data)[i];
                ('0' <= c <= '9') || ('a' <= c <= 'f')
            },
{
    let d = sha256_digest(data);
    assert forall|i: int| 0 <= i < 64 implies {
        let c = #[trigger] content_hash(data)[i];
        ('0' <= c <= '9') || ('a' <= c <= 'f')
    } by {
        let b = d[i / 2];
        assert(0 <= b / 16 < 16);
        assert(0 <= b % 16 < 16);
    }
}

/// The debounce window ends: at every clock reading at least `debounce_ms`
/// after the last write the answer is "outside", and at every reading
/// before that (and not before the write) it is "inside".
pub proof fn lemma_debounce_window_ends(v: DedupView, now_ms: u64)
    ensures
        now_ms >= v.last_write_ms + v.debounce_ms ==> !in_debounce(v, elapsed_since(v, now_ms)),
        v.last_write_ms <= now_ms < v.last_write_ms + v.debounce_ms ==> in_debounce(
            v,
            elapsed_since(v, now_ms),
        ),
{
}

} // verus!
