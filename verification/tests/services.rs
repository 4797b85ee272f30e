use openflow::apps::{app_identity, frontmost_app};
use openflow::cloud_stt::{
    cloud_failure_message, cloud_transcript, plan_cloud_transcription, wav_header,
    CloudSttFailure, WAV_HEADER_LEN,
};
use openflow::commands::{
    forget_stt_profile, note_transform_instruction, note_transform_request,
    note_transform_result, revoke_consent_on_edit, rollback_shortcuts, save_effects,
    scratchpad_gate, SaveEffects,
};
use openflow::error::AppError;
use openflow::hud::{with_fullscreen_overlay, HudPointer, CAN_JOIN_ALL_SPACES, FULL_SCREEN_AUXILIARY};
use openflow::output::{captured_selection, insert_route, paste_outcome, CopyReason, InsertOutcome, InsertRoute, SELECTION_PROBE};
use openflow::permissions::{check, microphone_label, MicAuthorization};
use openflow::settings::{Appearance, InsertMethod, Prompt, Settings};
use openflow::stt_profiles::SttProfile;

fn engine(key: &str, url: &str) -> SttProfile {
    SttProfile {
        id: "groq".into(),
        name: "Groq".into(),
        base_url: url.into(),
        api_key: key.into(),
        model: "whisper-large-v3".into(),
        timeout_secs: 1,
        ..SttProfile::default()
    }
}

#[test]
fn cloud_upload_plan() {
    let plan = plan_cloud_transcription(&engine(" k ", "https://api.groq.com/openai/v1/"), "auto", Some("Glossary: X."));
    assert_eq!(plan.url, "https://api.groq.com/openai/v1/audio/transcriptions");
    assert_eq!(plan.language, None);
    assert_eq!(plan.prompt.as_deref(), Some("Glossary: X."));
    assert_eq!(plan.timeout_secs, 5);
    assert_eq!(plan.bearer.as_deref(), Some("k"));
    let de = plan_cloud_transcription(&engine("", "http://h"), "de", None);
    assert_eq!(de.language.as_deref(), Some("de"));
    assert_eq!(de.bearer, None);
    assert_eq!(de.prompt, None);
    assert_eq!(
        cloud_failure_message(&CloudSttFailure::Status("500 Internal Server Error".into())),
        "cloud transcription failed (500 Internal Server Error)"
    );
    assert_eq!(cloud_transcript("  hi \n"), "hi");
}

#[test]
fn wav_header_layout() {
    let h = wav_header(3);
    assert_eq!(h.len(), WAV_HEADER_LEN);
    assert_eq!(&h[0..4], b"RIFF");
    assert_eq!(&h[4..8], &42u32.to_le_bytes());
    assert_eq!(&h[8..16], b"WAVEfmt ");
    assert_eq!(&h[24..28], &16000u32.to_le_bytes());
    assert_eq!(&h[28..32], &32000u32.to_le_bytes());
    assert_eq!(&h[36..40], b"data");
    assert_eq!(&h[40..44], &6u32.to_le_bytes());
}

#[test]
fn output_routes_and_selection_probe() {
    assert_eq!(insert_route(InsertMethod::Paste, true), InsertRoute::Paste);
    assert_eq!(
        insert_route(InsertMethod::Paste, false),
        InsertRoute::CopyOnly(CopyReason::NoAccessibility)
    );
    assert_eq!(
        insert_route(InsertMethod::Clipboard, true),
        InsertRoute::CopyOnly(CopyReason::ChosenMethod)
    );
    assert_eq!(paste_outcome(false), InsertOutcome::CopiedToClipboard(CopyReason::PasteFailed));
    assert_eq!(captured_selection(Some(SELECTION_PROBE.to_string())), None);
    assert_eq!(captured_selection(Some(String::new())), None);
    assert_eq!(captured_selection(Some("sel".into())), Some("sel".into()));
    assert_eq!(captured_selection(None), None);
}

#[test]
fn note_transforms_resolve_their_instruction() {
    let prompts = vec![Prompt {
        id: "polish".into(),
        name: "Polish".into(),
        instruction: "Mine.".into(),
        shortcut: String::new(),
        built_in: true,
    }];
    assert_eq!(note_transform_instruction(&prompts, None), Ok("Mine.".to_string()));
    assert!(note_transform_instruction(&[], None).unwrap().starts_with("Fix grammar"));
    assert_eq!(
        note_transform_instruction(&prompts, Some("gone")),
        Err(AppError::State("that prompt no longer exists".into()))
    );
    let (_system, user) = note_transform_request("<p>a &amp; b</p>", "Mine.");
    assert_eq!(user, "Instruction: Mine.\n\nText:\na & b");
    assert_eq!(note_transform_result("x\n\ny"), "<p>x</p><p>y</p>");
}

#[test]
fn engine_edits_and_deletions_revoke_consent() {
    let mut s = Settings {
        confirmed_stt_profiles: vec!["groq".into(), "other".into()],
        stt_model_id: "cloud:groq".into(),
        ..Default::default()
    };
    let old = engine("k", "http://a");
    assert!(!revoke_consent_on_edit(&mut s, Some(&old), &engine("k", "http://a")));
    assert!(revoke_consent_on_edit(&mut s, Some(&old), &engine("k2", "http://a")));
    assert_eq!(s.confirmed_stt_profiles, vec!["other".to_string()]);
    assert!(forget_stt_profile(&mut s, "groq"));
    assert_eq!(s.stt_model_id, "base.en");
    assert!(!forget_stt_profile(&mut s, "groq"));
}

#[test]
fn errors_show_their_message_and_log_their_category() {
    let e = AppError::Model("no model".into());
    assert_eq!(e.user_message(), "no model");
    assert_eq!(e.describe(), "model error: no model");
    assert_eq!(AppError::State("busy".into()).describe(), "busy");
}

#[test]
fn hud_takes_clicks_only_when_needed() {
    let mut h = HudPointer::new();
    assert_eq!(h.poll(false), None);
    assert_eq!(h.poll(true), Some(true));
    assert_eq!(h.poll(true), None);
    h.set_menu_open(true);
    assert_eq!(h.poll(false), None);
    h.set_menu_open(false);
    assert_eq!(h.poll(false), Some(false));
}

#[test]
fn permissions_and_apps_fall_back_where_the_platform_has_none() {
    let p = check();
    assert_eq!(p.microphone, "unknown");
    assert!(p.accessibility);
    assert_eq!(microphone_label(MicAuthorization::Restricted), "denied");
    assert_eq!(microphone_label(MicAuthorization::NotDetermined), "undetermined");
    assert_eq!(frontmost_app(), None);
    assert_eq!(
        app_identity("com.apple.Notes".into(), None),
        ("com.apple.Notes".to_string(), "com.apple.Notes".to_string())
    );
}

#[test]
fn adds_fullscreen_auxiliary_and_keeps_existing_bits() {
    let result = with_fullscreen_overlay(CAN_JOIN_ALL_SPACES);
    assert!(result & FULL_SCREEN_AUXILIARY == FULL_SCREEN_AUXILIARY);
    assert!(result & CAN_JOIN_ALL_SPACES == CAN_JOIN_ALL_SPACES);
}

#[test]
fn is_idempotent() {
    let once = with_fullscreen_overlay(CAN_JOIN_ALL_SPACES);
    assert_eq!(once, with_fullscreen_overlay(once));
}

#[test]
fn fullscreen_overlay_sets_exactly_one_bit() {
    assert_eq!(with_fullscreen_overlay(0), 256);
    assert_eq!(with_fullscreen_overlay(1), 257);
    assert_eq!(with_fullscreen_overlay(256), 256);
}

fn bound(id: &str, shortcut: &str) -> Prompt {
    Prompt {
        id: id.into(),
        name: format!("Prompt {id}"),
        instruction: "Rewrite.".into(),
        shortcut: shortcut.into(),
        built_in: false,
    }
}

#[test]
fn only_changed_bindings_and_fields_are_reapplied() {
    let mut before = Settings::default();
    before.prompts = vec![bound("a", "Alt+A")];
    let mut after = Settings::default();
    after.prompts = vec![bound("a", "Alt+A")];
    after.prompts[0].instruction = "Translate to German.".into();
    after.prompts[0].name = "German".into();
    assert_eq!(
        save_effects(&before, &after, false),
        SaveEffects { reapply_hotkeys: false, autostart: None, dock: None, appearance: None }
    );
    assert!(save_effects(&before, &after, true).reapply_hotkeys);

    after.prompts[0].shortcut = "Alt+B".into();
    after.launch_at_login = !before.launch_at_login;
    after.show_in_dock = !before.show_in_dock;
    after.appearance = Appearance::Dark;
    let effects = save_effects(&before, &after, false);
    assert!(effects.reapply_hotkeys);
    assert_eq!(effects.autostart, Some(after.launch_at_login));
    assert_eq!(effects.dock, Some(after.show_in_dock));
    assert_eq!(effects.appearance, if before.appearance == Appearance::Dark { None } else { Some(Appearance::Dark) });
}

#[test]
fn a_failed_registration_rolls_every_prompt_shortcut_back() {
    let mut before = Settings::default();
    before.prompts = vec![bound("a", "Alt+A"), bound("b", "Alt+B")];
    let mut after = Settings::default();
    after.prompts = vec![bound("a", "Alt+X")];
    after.language = "de".into();
    let restored = rollback_shortcuts(&after, &before);
    assert_eq!(restored.prompts, before.prompts);
    assert_eq!(restored.language, "de");
}

#[test]
fn note_commands_refuse_while_the_scratchpad_is_off() {
    let mut s = Settings::default();
    s.scratchpad_enabled = true;
    assert!(scratchpad_gate(&s).is_ok());
    s.scratchpad_enabled = false;
    match scratchpad_gate(&s) {
        Err(AppError::Settings(m)) => assert_eq!(m, "Scratchpad is turned off."),
        other => panic!("unexpected {other:?}"),
    }
}
