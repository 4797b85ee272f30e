//! Clipboard and keystroke output: which way the text goes to the front app,
//! and what a selection capture yielded. The clipboard and the keystrokes
//! themselves are the caller's.
use vstd::prelude::*;
use crate::settings::InsertMethod;
use crate::strs::str_eq;

verus! {

/// How the final text reached the user.
#[derive(Debug, Clone, Copy, PartialEq, Eq)]
pub enum InsertOutcome {
    Pasted,
    /// The text was left on the clipboard; the reason decides what to tell the
    /// user.
    CopiedToClipboard(CopyReason),
}

/// Why the text ended up on the clipboard instead of being pasted.
#[derive(Debug, Clone, Copy, PartialEq, Eq)]
pub enum CopyReason {
    /// The user chose the clipboard-only insert method.
    ChosenMethod,
    /// Pasting needs the Accessibility permission and it is missing.
    NoAccessibility,
    /// The paste keystroke failed after the clipboard was already written.
    PasteFailed,
}

/// Put on the clipboard before a copy keystroke to detect that nothing was
/// selected.
pub const SELECTION_PROBE: &'static str = "\u{200B}openflow-selection-probe\u{200B}";

/// Milliseconds for the target app to process a synthetic copy or paste.
pub const KEYSTROKE_SETTLE_MS: u64 = 140;

/// Milliseconds between writing the clipboard and sending the paste.
pub const CLIPBOARD_SETTLE_MS: u64 = 60;

/// Milliseconds the main run loop gets to service a keystroke request.
pub const KEYSTROKE_DISPATCH_TIMEOUT_MS: u64 = 2000;

/// The first step of an insert.
#[derive(Debug, Clone, Copy, PartialEq, Eq)]
pub enum InsertRoute {
    /// Write the clipboard and stop there, for this reason.
    CopyOnly(CopyReason),
    /// Save the clipboard, write the text, send the paste keystroke.
    Paste,
}

/// Paste when pasting is the chosen method and Accessibility allows it;
/// otherwise leave the text on the clipboard, saying why.
pub fn insert_route(method: InsertMethod, can_paste: bool) -> (r: InsertRoute)
    ensures
        method == InsertMethod::Paste && can_paste ==> r == InsertRoute::Paste,
        method != InsertMethod::Paste ==> r == InsertRoute::CopyOnly(CopyReason::ChosenMethod),
        method == InsertMethod::Paste && !can_paste ==> r == InsertRoute::CopyOnly(
            CopyReason::NoAccessibility,
        ),
{
    let paste_requested = match method {
        InsertMethod::Paste => true,
        _ => false,
    };
    if !paste_requested {
        InsertRoute::CopyOnly(CopyReason::ChosenMethod)
    } else if !can_paste {
        InsertRoute::CopyOnly(CopyReason::NoAccessibility)
    } else {
        InsertRoute::Paste
    }
}

/// The outcome of a paste attempt: a failed keystroke leaves the result on
/// the clipboard (and skips restoring the previous clipboard, which would
/// wipe it).
pub fn paste_outcome(keystroke_ok: bool) -> (r: InsertOutcome)
    ensures
        keystroke_ok <==> r == InsertOutcome::Pasted,
        !keystroke_ok ==> r == InsertOutcome::CopiedToClipboard(CopyReason::PasteFailed),
{
    if keystroke_ok {
        InsertOutcome::Pasted
    } else {
        InsertOutcome::CopiedToClipboard(CopyReason::PasteFailed)
    }
}

/// What a selection capture read back from the clipboard: the selected text,
/// or `None` where the clipboard still holds the probe, is empty, or could
/// not be read.
pub fn captured_selection(clipboard: Option<String>) -> (r: Option<String>)
    ensures
        match clipboard {
            Some(t) => if t@ != SELECTION_PROBE@ && t@.len() > 0 {
                r == Some(t)
            } else {
                r is None
            },
            None => r is None,
        },
{
    match clipboard {
        Some(t) => {
            if !str_eq(t.as_str(), SELECTION_PROBE) && !t.as_str().is_empty() {
                Some(t)
            } else {
                None
            }
        },
        None => None,
    }
}

} // verus!
