//! The app's background scan, as decisions: after each look at launchd,
//! whether the tray is refreshed, whether its menu is rebuilt, whether the
//! window is told, and how long to wait before the next look.
//!
//! The scan always runs, because the tray follows launchd even while the
//! window is closed; what visibility changes is the pace and whether the
//! window is told at all. A change that happens while nobody can see the
//! window is held back and delivered the moment it is on screen again.

use vstd::prelude::*;

use crate::text::{str_eq, string_of};

verus! {

/// Seconds between scans while the window is on screen.
pub const SCAN_INTERVAL_VISIBLE_SECS: u64 = 2;

/// Seconds between scans while the window is hidden or minimized.
pub const SCAN_INTERVAL_HIDDEN_SECS: u64 = 10;

/// What the loop remembers between scans.
#[derive(Debug)]
pub struct ScanState {
    /// The task list last seen, serialized.
    last_payload: String,
    /// The menu signature the tray was last built from.
    last_menu: String,
    /// A change happened while the window was not on screen.
    pending_emit: bool,
}

/// What to do after one scan.
#[derive(Debug, Clone, Copy, PartialEq, Eq, Structural)]
pub struct ScanAction {
    /// Refresh the tray from the new list.
    pub refresh_tray: bool,
    /// Rebuild its menu rather than only relabel it.
    pub rebuild_menu: bool,
    /// Send the new list to the window.
    pub emit: bool,
    /// Seconds to wait before the next scan.
    pub sleep_secs: u64,
}

/// The mathematical state: last payload, last menu signature, pending.
pub struct ScanModel {
    pub payload: Seq<char>,
    pub menu: Seq<char>,
    pub pending: bool,
}

impl View for ScanState {
    type V = ScanModel;

    closed spec fn view(&self) -> ScanModel {
        ScanModel {
            payload: self.last_payload@,
            menu: self.last_menu@,
            pending: self.pending_emit,
        }
    }
}

/// The state after a scan that saw `payload`, whose tray menu would be
/// `menu`, with the window `on_screen` or not.
pub open spec fn next_state(s: ScanModel, payload: Seq<char>, menu: Seq<char>, on_screen: bool) -> ScanModel {
    let changed = payload != s.payload;
    ScanModel {
        payload: if changed {
            payload
        } else {
            s.payload
        },
        menu: if changed {
            menu
        } else {
            s.menu
        },
        pending: if changed || s.pending {
            !on_screen
        } else {
            false
        },
    }
}

/// The action of that scan: the tray follows every change, its menu is
/// rebuilt when the signature moved, the window is told of a change (new or
/// held back) only while on screen, and the pace follows visibility.
pub open spec fn action_of(s: ScanModel, payload: Seq<char>, menu: Seq<char>, on_screen: bool) -> ScanAction {
    let changed = payload != s.payload;
    ScanAction {
        refresh_tray: changed,
        rebuild_menu: changed && menu != s.menu,
        emit: (changed || s.pending) && on_screen,
        sleep_secs: if on_screen {
            SCAN_INTERVAL_VISIBLE_SECS
        } else {
            SCAN_INTERVAL_HIDDEN_SECS
        },
    }
}

impl ScanState {
    /// The state the loop starts from: the seed list and its menu, which
    /// the window and the tray were given at start-up.
    pub fn new(first_payload: &str, first_menu: &str) -> (s: ScanState)
        ensures
            s@.payload == first_payload@,
            s@.menu == first_menu@,
            !s@.pending,
    {
        ScanState {
            last_payload: string_of(first_payload),
            last_menu: string_of(first_menu),
            pending_emit: false,
        }
    }

    /// One scan's decisions: [`next_state`] and [`action_of`].
    pub fn step(&mut self, payload: &str, menu: &str, on_screen: bool) -> (a: ScanAction)
        ensures
            final(self)@ == next_state(old(self)@, payload@, menu@, on_screen),
            a == action_of(old(self)@, payload@, menu@, on_screen),
    {
        let changed = !str_eq(payload, self.last_payload.as_str());
        let mut rebuild = false;
        if changed {
            rebuild = !str_eq(menu, self.last_menu.as_str());
            self.last_payload = string_of(payload);
            self.last_menu = string_of(menu);
        }
        let mut emit = false;
        if changed || self.pending_emit {
            if on_screen {
                self.pending_emit = false;
                emit = true;
            } else {
                self.pending_emit = true;
            }
        }
        ScanAction {
            refresh_tray: changed,
            rebuild_menu: rebuild,
            emit,
            sleep_secs: if on_screen {
                SCAN_INTERVAL_VISIBLE_SECS
            } else {
                SCAN_INTERVAL_HIDDEN_SECS
            },
        }
    }
}

/// A scan that sees the same list, with nothing held back, does nothing
/// but wait: no tray refresh, no message to the window, no state change.
pub proof fn a_quiet_scan_does_nothing(s: ScanModel, menu: Seq<char>, on_screen: bool)
    requires
        !s.pending,
    ensures
        !action_of(s, s.payload, menu, on_screen).refresh_tray,
        !action_of(s, s.payload, menu, on_screen).emit,
        next_state(s, s.payload, menu, on_screen) == s,
{
}

/// A change seen while the window is hidden is not lost: the window is told
/// at the first scan that finds it on screen again, even when the list has
/// not changed since.
pub proof fn a_hidden_change_is_delivered_when_shown(
    s: ScanModel,
    payload: Seq<char>,
    menu: Seq<char>,
    later_menu: Seq<char>,
)
    requires
        payload != s.payload,
    ensures
        !action_of(s, payload, menu, false).emit,
        action_of(next_state(s, payload, menu, false), payload, later_menu, true).emit,
        !next_state(next_state(s, payload, menu, false), payload, later_menu, true).pending,
{
}

/// The tray follows every change whether or not the window is on screen.
pub proof fn the_tray_follows_every_change(s: ScanModel, payload: Seq<char>, menu: Seq<char>, on_screen: bool)
    ensures
        action_of(s, payload, menu, on_screen).refresh_tray <==> payload != s.payload,
        next_state(s, payload, menu, on_screen).payload == payload,
{
}

} // verus!
