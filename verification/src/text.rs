//! Clipboard text: the UTF-16 units of the system's Unicode text format, read
//! into history entries and written back from them.
use vstd::prelude::*;

use vstd::arithmetic::div_mod::lemma_fundamental_div_mod;
use vstd::slice::slice_subrange;
use vstd::slice::slice_to_vec;
use vstd::utf8::encode_utf8;

verus! {

/// The most characters that a history preview of text keeps.
pub const TEXT_PREVIEW_CHARS: usize = 200;

pub open spec fn is_high_surrogate(u: u16) -> bool {
    0xD800 <= u < 0xDC00
}

pub open spec fn is_low_surrogate(u: u16) -> bool {
    0xDC00 <= u < 0xE000
}

/// The UTF-16 units of one character: one unit below U+10000, else a high
/// and a low surrogate.
pub open spec fn utf16_char(c: char) -> Seq<u16> {
    if (c as int) < 0x10000 {
        seq![c as u16]
    } else {
        seq![
            (0xD800 + (c as int - 0x10000) / 1024) as u16,
            (0xDC00 + (c as int - 0x10000) % 1024) as u16,
        ]
    }
}

/// The UTF-16 encoding of a character sequence.
pub open spec fn utf16_encode(s: Seq<char>) -> Seq<u16>
    decreases s.len(),
{
    if s.len() == 0 {
        Seq::empty()
    } else {
        utf16_char(s[0]) + utf16_encode(s.skip(1))
    }
}

/// UTF-16 decoding that replaces every unit that does not belong to a valid
/// pair or single unit (an unpaired surrogate) by U+FFFD.
pub open spec fn utf16_decode_lossy(u: Seq<u16>) -> Seq<char>
    decreases u.len(),
{
    if u.len() == 0 {
        Seq::empty()
    } else if u.len() >= 2 && is_high_surrogate(u[0]) && is_low_surrogate(u[1]) {
        seq![(0x10000 + (u[0] - 0xD800) * 1024 + (u[1] - 0xDC00)) as char]
            + utf16_decode_lossy(u.skip(2))
    } else if is_high_surrogate(u[0]) || is_low_surrogate(u[0]) {
        seq!['\u{FFFD}'] + utf16_decode_lossy(u.skip(1))
    } else {
        seq![u[0] as char] + utf16_decode_lossy(u.skip(1))
    }
}

/// The units before the first NUL unit (all of them when there is none).
pub open spec fn units_before_nul(u: Seq<u16>) -> Seq<u16>
    decreases u.len(),
{
    if u.len() == 0 || u[0] == 0 {
        Seq::empty()
    } else {
        seq![u[0]] + units_before_nul(u.skip(1))
    }
}

/// The text that a buffer of UTF-16 units holds: the units up to the first
/// NUL, decoded with replacement of unpaired surrogates.
pub open spec fn text_of_units(u: Seq<u16>) -> Seq<char> {
    utf16_decode_lossy(units_before_nul(u))
}

/// The preview of a text: its first 200 characters.
pub open spec fn text_preview(t: Seq<char>) -> Seq<char> {
    if t.len() <= 200 {
        t
    } else {
        t.take(200)
    }
}

/// Calls `str::encode_utf16` and collects the units. The contract claims
/// what the standard library documents: the UTF-16 encoding of the text.
#[verifier::external_body]
fn utf16_units(s: &str) -> (r: Vec<u16>)
    ensures
        r@ == utf16_encode(s@),
{
    s.encode_utf16().collect()
}

/// Calls `String::from_utf16_lossy`. The contract claims what the standard
/// library documents: UTF-16 decoding with U+FFFD for each unpaired
/// surrogate.
#[verifier::external_body]
fn string_from_utf16_lossy(units: &[u16]) -> (r: String)
    ensures
        r@ == utf16_decode_lossy(units@),
{
    String::from_utf16_lossy(units)
}

/// The UTF-16 units of `text` followed by a NUL unit, the form in which text
/// is put on the clipboard.
pub fn text_to_utf16z(text: &str) -> (r: Vec<u16>)
    ensures
        r@ == utf16_encode(text@).push(0),
{
    let mut v = utf16_units(text);
    v.push(0);
    v
}

/// The number of units before the first NUL unit.
pub fn nul_position(units: &[u16]) -> (n: usize)
    ensures
        n <= units@.len(),
        units@.take(n as int) == units_before_nul(units@),
{
    let len = units.len();
    let mut i: usize = 0;
    while i < len && units[i] != 0
        invariant
            i <= len,
            len == units@.len(),
            forall|j: int| 0 <= j < i ==> units@[j] != 0,
        decreases len - i,
    {
        i = i + 1;
    }
    proof {
        lemma_units_before_nul_at(units@, i as int);
    }
    i
}

proof fn lemma_units_before_nul_at(u: Seq<u16>, n: int)
    requires
        0 <= n <= u.len(),
        forall|j: int| 0 <= j < n ==> u[j] != 0,
        n == u.len() || u[n] == 0,
    ensures
        u.take(n) == units_before_nul(u),
    decreases n,
{
    if n == 0 {
        assert(u.take(0) =~= Seq::<u16>::empty());
    } else {
        let t = u.skip(1);
        assert forall|j: int| 0 <= j < n - 1 implies t[j] != 0 by {
            assert(t[j] == u[j + 1]);
        }
        if n - 1 < t.len() {
            assert(t[n - 1] == u[n]);
        }
        lemma_units_before_nul_at(t, n - 1);
        assert(u.take(n) =~= seq![u[0]] + t.take(n - 1));
    }
}

/// What the clipboard watcher records of text: the preview (the first 200
/// characters), the content type "text", the text as UTF-8 bytes, and the
/// size in bytes of the clipboard memory.
pub fn read_text_units(units: &[u16], byte_size: usize) -> (r: (String, String, Option<Vec<u8>>, i64))
    requires
        byte_size <= i64::MAX,
    ensures
        r.0@ == text_preview(text_of_units(units@)),
        r.1@ == seq!['t', 'e', 'x', 't'],
        r.2 matches Some(b) && b@ == encode_utf8(text_of_units(units@)),
        r.3 == byte_size,
{
    let n = nul_position(units);
    let effective = slice_subrange(units, 0, n);
    proof {
        assert(effective@ == units@.take(n as int));
    }
    let text = string_from_utf16_lossy(effective);
    let s = text.as_str();
    let len = s.unicode_len();
    let keep: usize = if len <= TEXT_PREVIEW_CHARS {
        len
    } else {
        TEXT_PREVIEW_CHARS
    };
    let preview = String::from_str(s.substring_char(0, keep));
    proof {
        if len <= 200 {
            assert(s@.subrange(0, keep as int) =~= s@);
        }
    }
    let raw = slice_to_vec(s.as_bytes());
    let kind = String::from_str("text");
    proof {
        reveal_strlit("text");
    }
    (preview, kind, Some(raw), byte_size as i64)
}

/// The text of the first `count` units of a buffer (none when `count` is
/// negative, all when it passes the end), decoded with replacement of
/// unpaired surrogates: how a window title or class name is read.
pub fn text_of_unit_prefix(units: &[u16], count: i32) -> (s: String)
    ensures
        s@ == utf16_decode_lossy(
            units@.take(
                if count < 0 {
                    0
                } else if count > units@.len() {
                    units@.len() as int
                } else {
                    count as int
                },
            ),
        ),
{
    let n: usize = if count < 0 {
        0
    } else if count as usize > units.len() {
        units.len()
    } else {
        count as usize
    };
    let part = slice_subrange(units, 0, n);
    string_from_utf16_lossy(part)
}

/// The first `count` units of a buffer: none when `count` is negative, all
/// when it passes the end.
pub open spec fn unit_prefix(units: Seq<u16>, count: i32) -> Seq<u16> {
    units.take(
        if count < 0 {
            0
        } else if count > units.len() {
            units.len() as int
        } else {
            count as int
        },
    )
}

/// The title and class name of the foreground window, as the source of a
/// captured content. Both are empty when there is no foreground window or
/// its title is empty (`title_len` 0); otherwise each is the text of its
/// buffer's first `title_count` or `class_count` units.
pub fn source_app_info(
    has_window: bool,
    title_len: i32,
    title: &[u16],
    title_count: i32,
    class: &[u16],
    class_count: i32,
) -> (r: (String, String))
    requires
        class_count <= class@.len(),
    ensures
        !has_window || title_len == 0 ==> r.0@ == Seq::<char>::empty() && r.1@
            == Seq::<char>::empty(),
        has_window && title_len != 0 ==> r.0@ == utf16_decode_lossy(unit_prefix(title@, title_count))
            && r.1@ == utf16_decode_lossy(unit_prefix(class@, class_count)),
{
    if !has_window || title_len == 0 {
        return (String::new(), String::new());
    }
    let t = text_of_unit_prefix(title, title_count);
    let c = if class_count > 0 {
        text_of_unit_prefix(class, class_count)
    } else {
        let e = String::new();
        proof {
            assert(unit_prefix(class@, class_count) =~= Seq::<u16>::empty());
            assert(utf16_decode_lossy(Seq::<u16>::empty()) =~= Seq::<char>::empty());
        }
        e
    };
    (t, c)
}

proof fn lemma_decode_char(c: char, rest: Seq<u16>)
    ensures
        utf16_decode_lossy(utf16_char(c) + rest) == seq![c] + utf16_decode_lossy(rest),
{
    let u = utf16_char(c) + rest;
    let ci = c as int;
    if ci < 0x10000 {
        assert(!(0xD800 <= ci < 0xE000));
        assert(u[0] == ci);
        assert(u.skip(1) =~= rest);
        assert((u[0] as char) == c);
    } else {
        let q = (ci - 0x10000) / 1024;
        let r = (ci - 0x10000) % 1024;
        lemma_fundamental_div_mod(ci - 0x10000, 1024);
        assert(0 <= q < 1024);
        assert(u[0] == 0xD800 + q);
        assert(u[1] == 0xDC00 + r);
        assert(u.skip(2) =~= rest);
        assert(0x10000 + q * 1024 + r == ci);
        assert(((0x10000 + (u[0] - 0xD800) * 1024 + (u[1] - 0xDC00)) as char) == c);
    }
}

/// Decoding the UTF-16 encoding of a text gives the text back.
pub proof fn lemma_utf16_round_trip(s: Seq<char>)
    ensures
        utf16_decode_lossy(utf16_encode(s)) == s,
    decreases s.len(),
{
    if s.len() > 0 {
        lemma_utf16_round_trip(s.skip(1));
        lemma_decode_char(s[0], utf16_encode(s.skip(1)));
        assert(s =~= seq![s[0]] + s.skip(1));
    }
}

proof fn lemma_char_units_nonzero(c: char)
    requires
        c != '\0',
    ensures
        1 <= utf16_char(c).len() <= 2,
        forall|i: int| 0 <= i < utf16_char(c).len() ==> utf16_char(c)[i] != 0,
{
    let ci = c as int;
    if ci >= 0x10000 {
        lemma_fundamental_div_mod(ci - 0x10000, 1024);
        assert(0 <= (ci - 0x10000) / 1024 < 1024);
    }
}

proof fn lemma_no_nul_units(s: Seq<char>, tail: Seq<u16>)
    requires
        forall|i: int| 0 <= i < s.len() ==> s[i] != '\0',
    ensures
        units_before_nul(utf16_encode(s) + seq![0u16] + tail) == utf16_encode(s),
    decreases s.len(),
{
    let rest = s.skip(1);
    if s.len() == 0 {
        assert(utf16_encode(s) + seq![0u16] + tail =~= seq![0u16] + tail);
    } else {
        assert forall|i: int| 0 <= i < rest.len() implies rest[i] != '\0' by {
            assert(rest[i] == s[i + 1]);
        }
        lemma_no_nul_units(rest, tail);
        let c = s[0];
        let cu = utf16_char(c);
        lemma_char_units_nonzero(c);
        let after = utf16_encode(rest) + seq![0u16] + tail;
        let u = utf16_encode(s) + seq![0u16] + tail;
        assert(u =~= cu + after);
        assert(u[0] == cu[0]);
        if cu.len() == 1 {
            assert(u.skip(1) =~= after);
            assert(utf16_encode(s) =~= seq![u[0]] + utf16_encode(rest));
        } else {
            assert(u[1] == cu[1]);
            let t1 = u.skip(1);
            assert(t1[0] == u[1]);
            assert(t1.skip(1) =~= after);
            assert(units_before_nul(t1) == seq![t1[0]] + units_before_nul(t1.skip(1)));
            assert(utf16_encode(s) =~= seq![u[0]] + (seq![u[1]] + utf16_encode(rest)));
        }
    }
}

/// Text put on the clipboard and read back gives the same text, as long as
/// it holds no NUL character (the clipboard format ends the text at the
/// first NUL).
pub proof fn lemma_text_round_trip(s: Seq<char>)
    requires
        forall|i: int| 0 <= i < s.len() ==> s[i] != '\0',
    ensures
        text_of_units(utf16_encode(s).push(0)) == s,
{
    lemma_no_nul_units(s, Seq::empty());
    assert(utf16_encode(s) + seq![0u16] + Seq::<u16>::empty() =~= utf16_encode(s).push(0));
    lemma_utf16_round_trip(s);
}

/// Text put on the clipboard and read back as a history item gives the
/// preview of that text and its UTF-8 bytes, as long as it holds no NUL.
pub proof fn lemma_clipboard_text_round_trip(s: Seq<char>)
    requires
        forall|i: int| 0 <= i < s.len() ==> s[i] != '\0',
    ensures
        text_preview(text_of_units(utf16_encode(s).push(0))) == text_preview(s),
        encode_utf8(text_of_units(utf16_encode(s).push(0))) == encode_utf8(s),
{
    lemma_text_round_trip(s);
}

} // verus!
