//! UI shell state: the collapsed flag and the hotkey debounce stamp, kept in
//! an explicit context value with injected time instead of process-wide
//! statics.

use vstd::prelude::*;

verus! {

/// Window height while collapsed, in pixels.
pub const COLLAPSED_HEIGHT: u32 = 1;

/// Window height while expanded, in pixels.
pub const EXPANDED_HEIGHT: u32 = 70;

/// Hotkey presses closer together than this are ignored.
pub const HOTKEY_DEBOUNCE_MILLIS: i64 = 500;

/// Largest instant the debounce accepts, in milliseconds since the Unix
/// epoch (the last millisecond an RFC 3339 timestamp can carry).
pub const MAX_INSTANT_MILLIS: i64 = 253402300799999;

/// A millisecond instant the debounce accepts.
pub open spec fn valid_millis(t: i64) -> bool {
    0 <= t && t <= MAX_INSTANT_MILLIS
}

/// The UI shell's own state: whether the bar is collapsed, and when a global
/// hotkey was last handled.
pub struct UiState {
    pub collapsed: bool,
    pub last_hotkey_millis: Option<i64>,
}

impl UiState {
    /// The debounce stamp, when present, is a valid instant.
    pub open spec fn wf(&self) -> bool {
        match self.last_hotkey_millis {
            Option::Some(v) => valid_millis(v),
            Option::None => true,
        }
    }

    /// A fresh, expanded shell that has handled no hotkey yet.
    pub fn new() -> (s: UiState)
        ensures
            s.wf(),
            !s.collapsed,
            s.last_hotkey_millis is None,
    {
        UiState { collapsed: false, last_hotkey_millis: Option::None }
    }

    /// Record the new collapsed flag and return the window height to apply.
    pub fn set_collapsed(&mut self, collapsed: bool) -> (height: u32)
        requires
            old(self).wf(),
        ensures
            final(self).wf(),
            final(self).collapsed == collapsed,
            final(self).last_hotkey_millis == old(self).last_hotkey_millis,
            height == (if collapsed {
                COLLAPSED_HEIGHT
            } else {
                EXPANDED_HEIGHT
            }),
    {
        self.collapsed = collapsed;
        if collapsed {
            COLLAPSED_HEIGHT
        } else {
            EXPANDED_HEIGHT
        }
    }

    /// The collapsed flag as last recorded.
    pub fn collapsed_state(&self) -> (r: bool)
        ensures
            r == self.collapsed,
    {
        self.collapsed
    }

    /// Decide whether a hotkey press at `now_millis` should be handled: yes
    /// unless the previous handled press lies less than the debounce interval
    /// in the past. The press instant is recorded exactly when the press is
    /// handled.
    pub fn should_process_hotkey(&mut self, now_millis: i64) -> (r: bool)
        requires
            old(self).wf(),
            valid_millis(now_millis),
        ensures
            final(self).wf(),
            final(self).collapsed == old(self).collapsed,
            r == (match old(self).last_hotkey_millis {
                Option::Some(l) => now_millis - l >= HOTKEY_DEBOUNCE_MILLIS,
                Option::None => true,
            }),
            final(self).last_hotkey_millis == (if r {
                Option::Some(now_millis)
            } else {
                old(self).last_hotkey_millis
            }),
    {
        match self.last_hotkey_millis {
            Option::Some(l) => {
                if now_millis - l < HOTKEY_DEBOUNCE_MILLIS {
                    return false;
                }
            },
            Option::None => {},
        }
        self.last_hotkey_millis = Option::Some(now_millis);
        true
    }
}

} // verus!
