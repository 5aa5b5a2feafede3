//! The settings table: reading and storing values by key.
use vstd::prelude::*;

use super::{Database, DbView, SettingRow, SettingView, settings_view};
use crate::models::SettingsEntry;

verus! {

pub open spec fn has_setting(ss: Seq<SettingView>, key: Seq<char>) -> bool {
    exists|i: int| 0 <= i < ss.len() && ss[i].key == key
}

pub open spec fn setting_pos(ss: Seq<SettingView>, key: Seq<char>) -> int {
    choose|i: int| 0 <= i < ss.len() && ss[i].key == key
}

/// The value stored under `key`.
pub open spec fn spec_get_setting(v: DbView, key: Seq<char>) -> Option<Seq<char>> {
    if has_setting(v.settings, key) {
        Some(v.settings[setting_pos(v.settings, key)].value)
    } else {
        None
    }
}

pub open spec fn updated_setting(s: SettingView, key: Seq<char>, value: Seq<char>, now: Seq<char>) -> SettingView {
    if s.key == key {
        SettingView { value, updated_at: now, ..s }
    } else {
        s
    }
}

/// Storing `value` under `key` at time `now`: the stored value is replaced,
/// or a new setting is added.
pub open spec fn spec_set_setting(v: DbView, now: Seq<char>, key: Seq<char>, value: Seq<char>) -> DbView {
    if has_setting(v.settings, key) {
        DbView {
            settings: v.settings.map_values(|s: SettingView| updated_setting(s, key, value, now)),
            ..v
        }
    } else {
        DbView {
            settings: v.settings.push(SettingView { key, value, updated_at: now }),
            ..v
        }
    }
}

/// Adding `value` under `key` unless the key is stored already.
pub open spec fn spec_insert_setting_if_absent(
    v: DbView,
    now: Seq<char>,
    key: Seq<char>,
    value: Seq<char>,
) -> DbView {
    if has_setting(v.settings, key) {
        v
    } else {
        DbView {
            settings: v.settings.push(SettingView { key, value, updated_at: now }),
            ..v
        }
    }
}

pub open spec fn entry_pair(s: SettingView) -> (Seq<char>, Seq<char>) {
    (s.key, s.value)
}

/// Finds the position of the setting `key`.
fn find_setting(ss: &Vec<SettingRow>, key: &str) -> (r: Option<usize>)
    requires
        forall|i: int, j: int|
            0 <= i < j < ss@.len() ==> settings_view(ss@)[i].key != settings_view(ss@)[j].key,
    ensures
        match r {
            Some(k) => k < ss@.len() && has_setting(settings_view(ss@), key@) && setting_pos(
                settings_view(ss@),
                key@,
            ) == k && ss@[k as int].key@ == key@,
            None => !has_setting(settings_view(ss@), key@),
        },
{
    let ghost sv = settings_view(ss@);
    let n = ss.len();
    let mut i: usize = 0;
    while i < n
        invariant
            n == ss@.len(),
            sv == settings_view(ss@),
            i <= n,
            forall|j: int| 0 <= j < i ==> sv[j].key != key@,
            forall|a: int, b: int| 0 <= a < b < sv.len() ==> sv[a].key != sv[b].key,
        decreases n - i,
    {
        if crate::models::str_equal(ss[i].key.as_str(), key) {
            proof {
                assert(sv[i as int].key == key@);
                let k = setting_pos(sv, key@);
                assert(0 <= k < sv.len() && sv[k].key == key@);
                if k < i {
                    assert(sv[k].key != key@);
                } else if k > i {
                    assert(sv[i as int].key != sv[k].key);
                }
            }
            return Some(i);
        }
        i = i + 1;
    }
    None
}

impl Database {
    /// The value stored under `key`.
    pub fn get_setting(&self, key: &str) -> (r: Option<String>)
        requires
            self.wf(),
        ensures
            match r {
                Some(s) => spec_get_setting(self@, key@) == Some(s@),
                None => spec_get_setting(self@, key@) is None,
            },
    {
        match find_setting(&self.settings, key) {
            Some(k) => Some(self.settings[k].value.clone()),
            None => None,
        }
    }

    /// Every setting as a key and a value, in table order.
    pub fn get_all_settings(&self) -> (r: Vec<SettingsEntry>)
        ensures
            r@.map_values(|e: SettingsEntry| (e.key@, e.value@)) == self@.settings.map_values(
                |s: SettingView| entry_pair(s),
            ),
    {
        let ghost sv = self@.settings;
        let n = self.settings.len();
        let mut out: Vec<SettingsEntry> = Vec::new();
        let mut i: usize = 0;
        while i < n
            invariant
                n == self.settings@.len(),
                sv == settings_view(self.settings@),
                i <= n,
                out@.map_values(|e: SettingsEntry| (e.key@, e.value@)) == sv.take(
                    i as int,
                ).map_values(|s: SettingView| entry_pair(s)),
            decreases n - i,
        {
            let e = SettingsEntry {
                key: self.settings[i].key.clone(),
                value: self.settings[i].value.clone(),
            };
            let ghost before_out = out@;
            out.push(e);
            proof {
                assert(out@ == before_out.push(e));
                assert(out@.map_values(|e: SettingsEntry| (e.key@, e.value@)) =~= before_out.map_values(
                    |e: SettingsEntry| (e.key@, e.value@),
                ).push((e.key@, e.value@)));
                assert(sv.take(i + 1) =~= sv.take(i as int).push(sv[i as int]));
                assert(out@.map_values(|e: SettingsEntry| (e.key@, e.value@)) =~= sv.take(
                    i + 1,
                ).map_values(|s: SettingView| entry_pair(s)));
            }
            i = i + 1;
        }
        proof {
            assert(sv.take(n as int) =~= sv);
        }
        out
    }

    /// Stores `value` under `key` (see `spec_set_setting`).
    pub fn set_setting(&mut self, now: &str, key: &str, value: &str)
        requires
            old(self).wf(),
        ensures
            final(self).wf(),
            final(self)@ == spec_set_setting(old(self)@, now@, key@, value@),
    {
        let ghost v = self@;
        match find_setting(&self.settings, key) {
            Some(k) => {
                self.settings[k].value = String::from_str(value);
                self.settings[k].updated_at = String::from_str(now);
                proof {
                    let f = |s: SettingView| updated_setting(s, key@, value@, now@);
                    assert forall|j: int| 0 <= j < v.settings.len() implies self@.settings[j]
                        == f(v.settings[j]) by {
                        if j < k {
                            assert(v.settings[j].key != v.settings[k as int].key);
                        } else if j > k {
                            assert(v.settings[k as int].key != v.settings[j].key);
                        }
                    }
                    assert(self@.settings =~= v.settings.map_values(f));
                    assert(self@.entries == v.entries);
                    assert(self@.folders == v.folders);
                    assert(self@.links == v.links);
                }
            },
            None => {
                self.settings.push(
                    SettingRow {
                        key: String::from_str(key),
                        value: String::from_str(value),
                        updated_at: String::from_str(now),
                    },
                );
                proof {
                    assert(self@.settings =~= v.settings.push(
                        SettingView { key: key@, value: value@, updated_at: now@ },
                    ));
                    assert forall|a: int, b: int| 0 <= a < b < self@.settings.len() implies self@.settings[a].key
                        != self@.settings[b].key by {
                        if b == v.settings.len() {
                            assert(self@.settings[a] == v.settings[a]);
                        }
                    }
                    assert(self@.entries == v.entries);
                    assert(self@.folders == v.folders);
                    assert(self@.links == v.links);
                }
            },
        }
    }

    /// Adds `value` under `key` unless the key is stored already.
    pub fn insert_setting_if_absent(&mut self, now: &str, key: &str, value: &str)
        requires
            old(self).wf(),
        ensures
            final(self).wf(),
            final(self)@ == spec_insert_setting_if_absent(old(self)@, now@, key@, value@),
    {
        assert(self@.settings == settings_view(self.settings@));
        if find_setting(&self.settings, key).is_none() {
            self.set_setting(now, key, value);
        }
    }
}

} // verus!
