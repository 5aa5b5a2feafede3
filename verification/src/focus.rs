//! The window that had the focus before the history panel opened, so that
//! the focus can go back to it when the panel closes.
use vstd::prelude::*;

verus! {

/// What to do to give the focus back: the window to bring to the front and,
/// when its process is known, the process to allow to do so.
#[derive(Debug, Clone, Copy)]
pub struct RestorePlan {
    pub hwnd: isize,
    pub allow_pid: Option<u32>,
}

/// The last foreground window seen before the panel opened.
pub struct FocusManager {
    last_foreground_hwnd: isize,
    last_foreground_pid: u32,
}

impl FocusManager {
    /// A manager that has seen no window (handle and process 0).
    pub fn new() -> (m: FocusManager)
        ensures
            m.hwnd() == 0,
            m.pid() == 0,
    {
        FocusManager { last_foreground_hwnd: 0, last_foreground_pid: 0 }
    }

    pub closed spec fn hwnd(&self) -> isize {
        self.last_foreground_hwnd
    }

    pub closed spec fn pid(&self) -> u32 {
        self.last_foreground_pid
    }

    /// Records the current foreground window `hwnd` of process `pid`. A
    /// null handle (0) is ignored and the earlier window is kept.
    pub fn save_current_foreground(&mut self, hwnd: isize, pid: u32)
        ensures
            hwnd != 0 ==> final(self).hwnd() == hwnd && final(self).pid() == pid,
            hwnd == 0 ==> final(self).hwnd() == old(self).hwnd() && final(self).pid() == old(
                self,
            ).pid(),
    {
        if hwnd != 0 {
            self.last_foreground_hwnd = hwnd;
            self.last_foreground_pid = pid;
        }
    }

    /// How to give the focus back: nothing when no window was recorded,
    /// else that window, with its process allowed to take the foreground
    /// when the process is known (not 0).
    pub fn restore_foreground(&self) -> (r: Option<RestorePlan>)
        ensures
            self.hwnd() == 0 ==> r is None,
            self.hwnd() != 0 ==> (r matches Some(p) && p.hwnd == self.hwnd() && p.allow_pid == (
            if self.pid() != 0 {
                Some(self.pid())
            } else {
                None
            })),
    {
        if self.last_foreground_hwnd == 0 {
            return None;
        }
        let allow_pid = if self.last_foreground_pid != 0 {
            Some(self.last_foreground_pid)
        } else {
            None
        };
        Some(RestorePlan { hwnd: self.last_foreground_hwnd, allow_pid })
    }
}

} // verus!
