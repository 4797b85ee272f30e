use openflow::settings::Prompt;
use openflow::shortcuts::{
    check_distinct, hotkey_plan, is_fn_gesture, parse_error_message, resolve, Hotkey,
    HotkeyKind, HotkeySlot, PUSH_TO_TALK_FALLBACK,
};

fn hk(kind: HotkeyKind, key: &str) -> Hotkey {
    Hotkey {
        kind,
        key: key.into(),
    }
}

#[test]
fn accelerator_kind_uses_its_own_key() {
    assert_eq!(
        resolve(&hk(HotkeyKind::Accelerator, "Alt+O"), PUSH_TO_TALK_FALLBACK),
        Some("Alt+O".to_string())
    );
}

#[test]
fn empty_accelerator_disables_the_trigger() {
    assert_eq!(
        resolve(&hk(HotkeyKind::Accelerator, ""), PUSH_TO_TALK_FALLBACK),
        None
    );
    assert_eq!(
        resolve(&hk(HotkeyKind::Accelerator, "   "), PUSH_TO_TALK_FALLBACK),
        None
    );
}

#[test]
fn gesture_kinds_resolve_to_their_fallback() {
    assert_eq!(
        resolve(&hk(HotkeyKind::Hold, "fn"), PUSH_TO_TALK_FALLBACK),
        Some(PUSH_TO_TALK_FALLBACK.to_string())
    );
}

#[test]
fn fn_gestures_are_recognized() {
    assert!(is_fn_gesture(&hk(HotkeyKind::Hold, "fn")));
    assert!(is_fn_gesture(&hk(HotkeyKind::DoubleTap, "fn")));
}

#[test]
fn accelerators_and_non_fn_keys_are_not_fn_gestures() {
    assert!(!is_fn_gesture(&hk(HotkeyKind::Accelerator, "Alt+Space")));
    assert!(!is_fn_gesture(&hk(HotkeyKind::Accelerator, "fn")));
    assert!(!is_fn_gesture(&hk(HotkeyKind::Hold, "F13")));
}

fn prompt(id: &str, shortcut: &str) -> Prompt {
    Prompt {
        id: id.into(),
        name: format!("Prompt {id}"),
        instruction: "x".into(),
        shortcut: shortcut.into(),
        built_in: false,
    }
}

#[test]
fn the_plan_skips_what_the_fn_monitor_owns_and_unbound_prompts() {
    let prompts = vec![prompt("a", "Alt+1"), prompt("b", "  ")];
    let ptt = hk(HotkeyKind::Hold, "fn");
    let hf = hk(HotkeyKind::Accelerator, " ");
    let sc = hk(HotkeyKind::DoubleTap, "x");
    let live = hotkey_plan(&ptt, &hf, &sc, &prompts, true);
    assert_eq!(live.push_to_talk, None);
    assert_eq!(live.hands_free, None);
    assert_eq!(live.see_changes, Some("Alt+O".to_string()));
    assert_eq!(live.prompts, vec![("a".to_string(), "Prompt a".to_string(), "Alt+1".to_string())]);
    let off = hotkey_plan(&ptt, &hk(HotkeyKind::Accelerator, " Alt+H "), &sc, &prompts, false);
    assert_eq!(off.push_to_talk, Some("Alt+Space".to_string()));
    assert_eq!(off.hands_free, Some("Alt+H".to_string()));
}

#[test]
fn duplicate_hotkeys_are_refused() {
    assert_eq!(check_distinct(&[1, 2, 3]), Ok(()));
    assert_eq!(
        check_distinct(&[1, 2, 1]),
        Err("two hotkeys are the same — every hotkey must be different".to_string())
    );
    assert_eq!(check_distinct(&[]), Ok(()));
}

#[test]
fn parse_errors_name_the_trigger() {
    assert_eq!(
        parse_error_message(&HotkeySlot::PushToTalk, "Alt+?", "bad key"),
        "push-to-talk hotkey “Alt+?”: bad key"
    );
    assert_eq!(
        parse_error_message(&HotkeySlot::Prompt("Concise".into()), "X", "e"),
        "prompt “Concise” shortcut “X”: e"
    );
}
