use openflow::tray::{menu_action, recording_title, MenuAction, TRAY_ID};

#[test]
fn menu_items_map_to_their_actions() {
    assert_eq!(menu_action("open", None), MenuAction::ShowMainWindow);
    assert_eq!(menu_action("quit", Some("x".into())), MenuAction::Quit);
    assert_eq!(
        menu_action("copy-last", Some("last words".into())),
        MenuAction::CopyToClipboard("last words".into())
    );
    assert_eq!(
        menu_action("copy-last", None),
        MenuAction::FlashNotice("No dictation yet.".into())
    );
    assert_eq!(menu_action("settings", None), MenuAction::Ignore);
    assert_eq!(menu_action("", Some("x".into())), MenuAction::Ignore);
}

#[test]
fn the_recording_mark_shows_only_while_recording() {
    assert_eq!(recording_title(true), "●");
    assert_eq!(recording_title(false), "");
    assert_eq!(TRAY_ID, "velata-tray");
}
