//! The key-event dispatch of the global keyboard hook: tracking the Alt
//! modifier, deciding what a Caps-Lock press triggers, and the
//! installed/uninstalled lifecycle.
//!
//! Registering the hook with the operating system, forwarding events down
//! the hook chain and synthesizing key events are the front end's business;
//! this module holds the decision the hook callback takes for every event.

use vstd::prelude::*;

verus! {

/// Virtual-key code of the Alt (menu) key.
pub const VK_MENU: u32 = 0x12;

/// Virtual-key code of the Caps Lock key.
pub const VK_CAPITAL: u32 = 0x14;

/// Key-down message identifier.
pub const WM_KEYDOWN: usize = 0x0100;

/// Key-up message identifier.
pub const WM_KEYUP: usize = 0x0101;

/// System key-down message identifier (a key pressed while Alt is held).
pub const WM_SYSKEYDOWN: usize = 0x0104;

/// System key-up message identifier.
pub const WM_SYSKEYUP: usize = 0x0105;

/// What the hook callback does with one key event.
#[derive(Clone, Copy, Debug, PartialEq, Eq, Structural)]
pub enum HookAction {
    /// Hand the event to the next interceptor in the chain, unchanged.
    Forward,
    /// Synthesize the native Caps-Lock toggle (Alt was held).
    ToggleCapsLock,
    /// Advance the rotation, activate the new layout, update the indicator.
    SwitchLayout,
}

/// The Alt flag after one event: set on an Alt key-down, cleared on an Alt
/// key-up, untouched by every other event.
pub open spec fn alt_after(alt: bool, vk_code: u32, w_param: usize) -> bool {
    if vk_code == VK_MENU {
        if w_param == WM_KEYDOWN || w_param == WM_SYSKEYDOWN {
            true
        } else if w_param == WM_KEYUP || w_param == WM_SYSKEYUP {
            false
        } else {
            alt
        }
    } else {
        alt
    }
}

/// The decision for one event: events with a negative hook code and all
/// non-Caps-Lock events are forwarded unsuppressed; a Caps-Lock key-down is
/// always suppressed and triggers the native toggle when Alt is held, the
/// layout switch otherwise.  The pair is (action, whether the event is
/// suppressed).
pub open spec fn action_for(alt: bool, n_code: i32, vk_code: u32, w_param: usize) -> (
    HookAction,
    bool,
) {
    if n_code < 0 {
        (HookAction::Forward, false)
    } else if vk_code == VK_CAPITAL && w_param == WM_KEYDOWN {
        if alt {
            (HookAction::ToggleCapsLock, true)
        } else {
            (HookAction::SwitchLayout, true)
        }
    } else {
        (HookAction::Forward, false)
    }
}

/// Dispatches one key event: updates the Alt flag and returns the action to
/// take together with whether the event must be suppressed.  Mirrors the
/// order the hook callback evaluates in: events with a negative hook code
/// pass through untouched; Alt transitions are recorded and forwarded;
/// a Caps-Lock key-down is suppressed and dispatched on the Alt flag as it
/// stood when the event arrived.
pub fn process_key_event(alt_pressed: &mut bool, n_code: i32, vk_code: u32, w_param: usize) -> (r:
    (HookAction, bool))
    ensures
        *final(alt_pressed) == (if n_code >= 0 {
            alt_after(*old(alt_pressed), vk_code, w_param)
        } else {
            *old(alt_pressed)
        }),
        r == action_for(*old(alt_pressed), n_code, vk_code, w_param),
{
    if n_code < 0 {
        return (HookAction::Forward, false);
    }
    if vk_code == VK_MENU {
        if w_param == WM_KEYDOWN || w_param == WM_SYSKEYDOWN {
            *alt_pressed = true;
        } else if w_param == WM_KEYUP || w_param == WM_SYSKEYUP {
            *alt_pressed = false;
        }
    }
    if vk_code == VK_CAPITAL && w_param == WM_KEYDOWN {
        if *alt_pressed {
            return (HookAction::ToggleCapsLock, true);
        }
        return (HookAction::SwitchLayout, true);
    }
    (HookAction::Forward, false)
}

/// The hook's lifecycle: uninstalled until registration succeeds, and
/// uninstalled again after teardown.
pub struct HookLifecycle {
    pub installed: bool,
}

impl HookLifecycle {
    /// A fresh engine: nothing registered yet.
    pub fn new() -> (r: HookLifecycle)
        ensures
            !r.installed,
    {
        HookLifecycle { installed: false }
    }

    /// Records that registration with the operating system succeeded.
    pub fn on_installed(&mut self)
        ensures
            final(self).installed,
    {
        self.installed = true;
    }

    /// Records teardown.  Idempotent: calling it while already uninstalled
    /// is a no-op, not an error.
    pub fn on_uninstalled(&mut self)
        ensures
            !final(self).installed,
    {
        self.installed = false;
    }
}

} // verus!
