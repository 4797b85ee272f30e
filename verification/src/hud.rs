//! The recording HUD overlay's pointer handling: the window is click-through
//! except while the cursor is over its circle or its dropdown menu is open.
//! Window geometry and the cursor position are the caller's.
use vstd::prelude::*;

verus! {

pub const HUD_LABEL: &'static str = "hud";

/// Milliseconds between cursor polls.
pub const CURSOR_POLL_MS: u64 = 30;

/// Whether the dropdown is open and whether the window takes clicks now.
pub struct HudPointer {
    pub menu_open: bool,
    pub interactive: bool,
}

impl HudPointer {
    /// Click-through, menu closed.
    pub fn new() -> (h: Self)
        ensures
            !h.menu_open,
            !h.interactive,
    {
        HudPointer { menu_open: false, interactive: false }
    }

    /// Records whether the post-dictation dropdown is open; while it is, the
    /// whole window takes clicks, since the menu can sit outside the circle.
    pub fn set_menu_open(&mut self, open: bool)
        ensures
            final(self).menu_open == open,
            final(self).interactive == old(self).interactive,
    {
        self.menu_open = open;
    }

    /// One cursor poll: the window should take clicks while the menu is open
    /// or the cursor is over the circle. Returns the new mode where it
    /// changes (the caller stops or resumes ignoring cursor events), `None`
    /// where it stays.
    pub fn poll(&mut self, cursor_in_circle: bool) -> (r: Option<bool>)
        ensures
            final(self).menu_open == old(self).menu_open,
            final(self).interactive == (old(self).menu_open || cursor_in_circle),
            r == (if final(self).interactive != old(self).interactive {
                Some(final(self).interactive)
            } else {
                None
            }),
    {
        let want = self.menu_open || cursor_in_circle;
        if want != self.interactive {
            self.interactive = want;
            Some(want)
        } else {
            None
        }
    }
}

/// `NSWindowCollectionBehavior::CanJoinAllSpaces`, as AppKit numbers it.
pub const CAN_JOIN_ALL_SPACES: u64 = 1;

/// `NSWindowCollectionBehavior::FullScreenAuxiliary`: a window with this bit
/// also appears in other apps' native full-screen Spaces.
pub const FULL_SCREEN_AUXILIARY: u64 = 256;

pub open spec fn fullscreen_overlay_spec(behavior: u64) -> u64 {
    behavior | FULL_SCREEN_AUXILIARY
}

/// Adds `FullScreenAuxiliary` to a window's collection behavior, leaving the
/// other bits untouched (the `CanJoinAllSpaces` the window already has
/// survives).
pub fn with_fullscreen_overlay(behavior: u64) -> (r: u64)
    ensures
        r == fullscreen_overlay_spec(behavior),
        r & FULL_SCREEN_AUXILIARY == FULL_SCREEN_AUXILIARY,
        r & behavior == behavior,
{
    let r = behavior | FULL_SCREEN_AUXILIARY;
    assert(r & 256u64 == 256u64 && r & behavior == behavior) by (bit_vector)
        requires
            r == behavior | 256u64,
    ;
    r
}

/// Adding the full-screen bit twice is adding it once.
pub proof fn law_fullscreen_overlay_is_idempotent(behavior: u64)
    ensures
        fullscreen_overlay_spec(fullscreen_overlay_spec(behavior)) == fullscreen_overlay_spec(
            behavior,
        ),
{
    assert((behavior | 256u64) | 256u64 == behavior | 256u64) by (bit_vector);
}

} // verus!
