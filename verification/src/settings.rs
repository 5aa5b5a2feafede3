//! Reading and writing the user's settings, and the one setting that the
//! history itself obeys: the most unpinned entries it keeps.
use vstd::prelude::*;

use crate::models::SettingsEntry;
use crate::store::settings::entry_pair;
use crate::store::settings::spec_get_setting;
use crate::store::settings::spec_set_setting;
use crate::store::Database;
use crate::store::SettingView;

verus! {

/// How many unpinned entries the history keeps when the setting is missing
/// or is not a number.
pub const DEFAULT_MAX_HISTORY: i64 = 500;

pub open spec fn is_digit(c: char) -> bool {
    '0' <= c <= '9'
}

/// The value of a sequence of decimal digits.
pub open spec fn digits_value(s: Seq<char>) -> int
    decreases s.len(),
{
    if s.len() == 0 {
        0
    } else {
        digits_value(s.drop_last()) * 10 + (s.last() as int - 48)
    }
}

pub open spec fn all_digits(s: Seq<char>) -> bool {
    forall|i: int| 0 <= i < s.len() ==> is_digit(#[trigger] s[i])
}

/// The digits of a number after its optional sign.
pub open spec fn unsigned_part(s: Seq<char>) -> Seq<char> {
    if s.len() > 0 && (s[0] == '-' || s[0] == '+') {
        s.skip(1)
    } else {
        s
    }
}

/// The key of the setting that limits the unpinned entries kept.
pub open spec fn max_history_key() -> Seq<char> {
    seq!['m', 'a', 'x', '_', 'h', 'i', 's', 't', 'o', 'r', 'y']
}

/// A 64-bit signed decimal number: an optional `+` or `-`, then at least one
/// digit, and a value in range. `None` for any other text.
pub open spec fn parse_i64(s: Seq<char>) -> Option<i64> {
    let ds = unsigned_part(s);
    let v = if s.len() > 0 && s[0] == '-' {
        -digits_value(ds)
    } else {
        digits_value(ds)
    };
    if ds.len() == 0 || !all_digits(ds) {
        None
    } else if i64::MIN <= v <= i64::MAX {
        Some(v as i64)
    } else {
        None
    }
}

/// The limit of unpinned entries that a stored setting gives: its number
/// when it reads as one, else 500.
pub open spec fn max_history_of(setting: Option<Seq<char>>) -> i64 {
    match setting {
        Some(v) => match parse_i64(v) {
            Some(n) => n,
            None => DEFAULT_MAX_HISTORY,
        },
        None => DEFAULT_MAX_HISTORY,
    }
}

proof fn lemma_digits_grow(s: Seq<char>, c: char)
    requires
        is_digit(c),
    ensures
        digits_value(s.push(c)) == digits_value(s) * 10 + (c as int - 48),
        digits_value(s.push(c)) >= digits_value(s) * 10,
{
    assert(s.push(c).drop_last() =~= s);
}

proof fn lemma_digits_nonneg(s: Seq<char>)
    requires
        all_digits(s),
    ensures
        digits_value(s) >= 0,
    decreases s.len(),
{
    if s.len() > 0 {
        let t = s.drop_last();
        assert forall|i: int| 0 <= i < t.len() implies is_digit(#[trigger] t[i]) by {
            assert(t[i] == s[i]);
        }
        lemma_digits_nonneg(t);
    }
}

/// What scanning the digits of a text finds.
enum DigitScan {
    NotDigits,
    TooBig,
    Value(u64),
}

/// Scans `s` from character `start` on: whether all of it are digits, and
/// their value when it is at most `limit`.
fn scan_digits(s: &str, start: usize, limit: u64) -> (r: DigitScan)
    requires
        start <= s@.len(),
    ensures
        ({
            let ds = s@.subrange(start as int, s@.len() as int);
            match r {
                DigitScan::NotDigits => !all_digits(ds),
                DigitScan::TooBig => all_digits(ds) && digits_value(ds) > limit,
                DigitScan::Value(v) => all_digits(ds) && v == digits_value(ds) && v <= limit,
            }
        }),
{
    let n = s.unicode_len();
    let mut acc: u64 = 0;
    let mut over = false;
    let mut i: usize = start;
    while i < n
        invariant
            start <= i <= n,
            n == s@.len(),
            all_digits(s@.subrange(start as int, i as int)),
            !over ==> acc == digits_value(s@.subrange(start as int, i as int)) && acc <= limit,
            over ==> digits_value(s@.subrange(start as int, i as int)) > limit,
        decreases n - i,
    {
        let c = s.get_char(i);
        let ghost p = s@.subrange(start as int, i as int);
        if !('0' <= c && c <= '9') {
            proof {
                let ds = s@.subrange(start as int, n as int);
                assert(ds[i - start] == c);
            }
            return DigitScan::NotDigits;
        }
        let d = (c as u32 - 48) as u64;
        proof {
            assert(s@.subrange(start as int, i + 1) =~= p.push(c));
            lemma_digits_grow(p, c);
            lemma_digits_nonneg(p);
        }
        if !over {
            if d > limit || acc > (limit - d) / 10 {
                over = true;
            } else {
                acc = acc * 10 + d;
            }
        }
        i = i + 1;
    }
    if over {
        DigitScan::TooBig
    } else {
        DigitScan::Value(acc)
    }
}

/// Reads `s` as a 64-bit signed decimal number (see `parse_i64`).
pub fn parse_decimal_i64(s: &str) -> (r: Option<i64>)
    ensures
        r == parse_i64(s@),
{
    let n = s.unicode_len();
    let mut start: usize = 0;
    let mut negative = false;
    if n > 0 {
        let c0 = s.get_char(0);
        if c0 == '-' || c0 == '+' {
            start = 1;
            negative = c0 == '-';
        }
    }
    let ghost ds = unsigned_part(s@);
    assert(ds =~= s@.subrange(start as int, n as int));
    if start == n {
        return None;
    }
    let limit: u64 = if negative {
        0x8000_0000_0000_0000
    } else {
        0x7FFF_FFFF_FFFF_FFFF
    };
    match scan_digits(s, start, limit) {
        DigitScan::NotDigits => None,
        DigitScan::TooBig => None,
        DigitScan::Value(acc) => {
            if negative {
                if acc == 0x8000_0000_0000_0000 {
                    Some(i64::MIN)
                } else {
                    Some(-(acc as i64))
                }
            } else {
                Some(acc as i64)
            }
        },
    }
}

/// Access to the settings stored in the history database.
pub struct SettingsManager;

impl SettingsManager {
    /// Every setting as a key and a value, in table order.
    pub fn get_all(db: &Database) -> (r: Result<Vec<SettingsEntry>, String>)
        ensures
            r matches Ok(v) && v@.map_values(|e: SettingsEntry| (e.key@, e.value@))
                == db@.settings.map_values(|s: SettingView| entry_pair(s)),
    {
        Ok(db.get_all_settings())
    }

    /// The value stored under `key`, if any.
    pub fn get(db: &Database, key: &str) -> (r: Result<Option<String>, String>)
        requires
            db.wf(),
        ensures
            r matches Ok(v) && match v {
                Some(s) => spec_get_setting(db@, key@) == Some(s@),
                None => spec_get_setting(db@, key@) is None,
            },
    {
        Ok(db.get_setting(key))
    }

    /// Stores `value` under `key`, stamped with the time `now`.
    pub fn set(db: &mut Database, now: &str, key: &str, value: &str) -> (r: Result<(), String>)
        requires
            old(db).wf(),
        ensures
            r is Ok,
            final(db).wf(),
            final(db)@ == spec_set_setting(old(db)@, now@, key@, value@),
    {
        db.set_setting(now, key, value);
        Ok(())
    }

    /// The most unpinned entries that the history keeps: the setting
    /// "max_history" read as a number, or 500.
    pub fn max_history(db: &Database) -> (n: i64)
        requires
            db.wf(),
        ensures
            n == max_history_of(spec_get_setting(db@, max_history_key())),
    {
        proof {
            reveal_strlit("max_history");
            assert("max_history"@ =~= max_history_key());
        }
        match db.get_setting("max_history") {
            Some(v) => match parse_decimal_i64(v.as_str()) {
                Some(n) => n,
                None => DEFAULT_MAX_HISTORY,
            },
            None => DEFAULT_MAX_HISTORY,
        }
    }
}

} // verus!
