//! The menu-bar icon's menu: what each item does, and the recording mark
//! beside the icon.
use vstd::prelude::*;
use crate::strs::str_eq;

verus! {

pub const TRAY_ID: &'static str = "velata-tray";

/// Menu item ids.
pub const OPEN_ITEM: &'static str = "open";

pub const COPY_LAST_ITEM: &'static str = "copy-last";

pub const QUIT_ITEM: &'static str = "quit";

/// The notice "Copy last dictation" flashes before anything was dictated.
pub const NO_DICTATION_YET: &'static str = "No dictation yet.";

/// The mark beside the icon while the microphone is live.
pub const RECORDING_MARK: &'static str = "●";

/// What a menu click asks for.
#[derive(Debug, PartialEq, Eq)]
pub enum MenuAction {
    ShowMainWindow,
    Quit,
    /// Put this text on the clipboard.
    CopyToClipboard(String),
    /// Flash this notice on the HUD.
    FlashNotice(String),
    /// An id this menu does not have.
    Ignore,
}

/// The action for a click on the item `id`, given the text of the last
/// dictation, if there was one.
pub fn menu_action(id: &str, last_result: Option<String>) -> (r: MenuAction)
    ensures
        id@ == OPEN_ITEM@ ==> r == MenuAction::ShowMainWindow,
        id@ == QUIT_ITEM@ ==> r == MenuAction::Quit,
        id@ == COPY_LAST_ITEM@ ==> match last_result {
            Some(t) => r == MenuAction::CopyToClipboard(t),
            None => r matches MenuAction::FlashNotice(m) && m@ == NO_DICTATION_YET@,
        },
        id@ != OPEN_ITEM@ && id@ != QUIT_ITEM@ && id@ != COPY_LAST_ITEM@ ==> r == MenuAction::Ignore,
{
    proof {
        reveal_strlit("open");
        reveal_strlit("quit");
        reveal_strlit("copy-last");
        assert(OPEN_ITEM@[0] != QUIT_ITEM@[0]);
        assert(OPEN_ITEM@.len() != COPY_LAST_ITEM@.len());
        assert(QUIT_ITEM@.len() != COPY_LAST_ITEM@.len());
    }
    if str_eq(id, OPEN_ITEM) {
        MenuAction::ShowMainWindow
    } else if str_eq(id, QUIT_ITEM) {
        MenuAction::Quit
    } else if str_eq(id, COPY_LAST_ITEM) {
        match last_result {
            Some(t) => MenuAction::CopyToClipboard(t),
            None => MenuAction::FlashNotice(String::from_str(NO_DICTATION_YET)),
        }
    } else {
        MenuAction::Ignore
    }
}

/// The title beside the icon: the recording mark while the microphone is
/// live, nothing otherwise.
pub fn recording_title(recording: bool) -> (r: &'static str)
    ensures
        r@ == (if recording {
            RECORDING_MARK@
        } else {
            ""@
        }),
{
    if recording {
        RECORDING_MARK
    } else {
        ""
    }
}

} // verus!
