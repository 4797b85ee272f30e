use openflow::error::AppError;
use openflow::models::ModelInfoDto;
use openflow::output::{CopyReason, InsertOutcome};
use openflow::pipeline::{
    check_start, choose_transcriber, cloud_fallback, dictation_hud_tip, dictation_outcome,
    dictation_text, empty_dictation_notice, find_prompt, insert_outcome, installed_local_model,
    mark_tip_seen, selection_from_capture, selection_start_error, transcriber_outcome,
    on_hotkey_pressed, on_hotkey_released, post_dictation_prompt, prepare_transcript,
    published_state, selection_prompt_start, transform_request, Job, PressAction,
    ProcessOutcome, SelectionStart, Status, TranscriptStep, Transcriber,
    SUCCESS_FLASH_TTL_MS, TRANSIENT_STATE_TTL_MS,
};
use openflow::profiles::LlmProfile;
use openflow::settings::{DictionaryEntry, HotkeyBehavior, Prompt, Settings, Snippet};
use openflow::stt_profiles::{SttProfile, SttProfileManager};

fn prompt(id: &str) -> Prompt {
    Prompt {
        id: id.into(),
        name: id.into(),
        instruction: "do the thing".into(),
        shortcut: String::new(),
        built_in: false,
    }
}

#[test]
fn no_post_dictation_transform_inserts_plain() {
    let settings = Settings {
        post_dictation_transform_id: None,
        ..Default::default()
    };
    assert!(post_dictation_prompt(&settings).is_none());
}

#[test]
fn a_set_existing_id_selects_that_prompt() {
    let settings = Settings {
        prompts: vec![prompt("concise"), prompt("formal")],
        post_dictation_transform_id: Some("formal".into()),
        ..Default::default()
    };
    assert_eq!(
        post_dictation_prompt(&settings).map(|p| p.id.as_str()),
        Some("formal")
    );
}

#[test]
fn a_dangling_id_inserts_plain() {
    let settings = Settings {
        prompts: vec![prompt("concise")],
        post_dictation_transform_id: Some("deleted".into()),
        ..Default::default()
    };
    assert!(post_dictation_prompt(&settings).is_none());
}

#[test]
fn presses_start_finish_or_are_ignored() {
    assert_eq!(on_hotkey_pressed(Status::Idle, None, Job::Dictation), PressAction::Start);
    assert_eq!(on_hotkey_pressed(Status::Error, None, Job::Dictation), PressAction::Start);
    assert_eq!(
        on_hotkey_pressed(Status::Recording, Some(Job::Dictation), Job::Dictation),
        PressAction::Finish
    );
    assert_eq!(
        on_hotkey_pressed(Status::Recording, Some(Job::Dictation), Job::Transform),
        PressAction::Ignore
    );
    assert_eq!(on_hotkey_pressed(Status::Polishing, None, Job::Dictation), PressAction::Ignore);
}

#[test]
fn a_quick_tap_latches_hands_free() {
    let hold = HotkeyBehavior::Hold;
    assert!(!on_hotkey_released(Job::Dictation, hold, Some((Job::Dictation, 349))));
    assert!(on_hotkey_released(Job::Dictation, hold, Some((Job::Dictation, 350))));
    assert!(!on_hotkey_released(Job::Dictation, HotkeyBehavior::Toggle, Some((Job::Dictation, 900))));
    assert!(!on_hotkey_released(Job::Transform, hold, Some((Job::Transform, 900))));
    assert!(!on_hotkey_released(Job::Dictation, hold, None));
}

#[test]
fn starting_needs_a_free_pipeline_and_a_model() {
    assert_eq!(
        check_start(Status::Transcribing, "base.en", true),
        Err(AppError::State("Still finishing the last one — try again in a moment.".into()))
    );
    assert_eq!(
        check_start(Status::Idle, "base.en", false),
        Err(AppError::Model("No speech model yet — open Settings to download one.".into()))
    );
    assert_eq!(check_start(Status::Notice, "cloud:groq", false), Ok(()));
    assert_eq!(check_start(Status::Idle, "base.en", true), Ok(()));
}

#[test]
fn selection_prompts_need_an_idle_pipeline_and_a_profile() {
    assert_eq!(selection_prompt_start(Status::Recording, true), SelectionStart::Busy);
    assert_eq!(selection_prompt_start(Status::Idle, false), SelectionStart::NeedsProfile);
    assert_eq!(selection_prompt_start(Status::Idle, true), SelectionStart::Go);
    let prompts = vec![prompt("a"), prompt("b")];
    assert_eq!(find_prompt(&prompts, "b").map(|p| p.id.as_str()), Some("b"));
    assert!(find_prompt(&prompts, "c").is_none());
}

fn stt(id: &str) -> SttProfile {
    SttProfile {
        id: id.into(),
        name: id.into(),
        ..SttProfile::default()
    }
}

#[test]
fn cloud_audio_leaves_only_with_a_confirmed_profile() {
    let manager = SttProfileManager::new("stt-profiles".into(), vec![stt("groq")]);
    let local = Settings {
        stt_model_id: "base.en".into(),
        ..Default::default()
    };
    assert_eq!(
        choose_transcriber(&local, &manager),
        Transcriber::Local("base.en".into())
    );
    let unconfirmed = Settings {
        stt_model_id: "cloud:groq".into(),
        ..Default::default()
    };
    assert_eq!(choose_transcriber(&unconfirmed, &manager), Transcriber::NotSetUp);
    let confirmed = Settings {
        stt_model_id: "cloud:groq".into(),
        confirmed_stt_profiles: vec!["groq".into()],
        ..Default::default()
    };
    assert_eq!(choose_transcriber(&confirmed, &manager), Transcriber::Cloud(stt("groq")));
    let missing = Settings {
        stt_model_id: "cloud:gone".into(),
        confirmed_stt_profiles: vec!["gone".into()],
        ..Default::default()
    };
    assert_eq!(choose_transcriber(&missing, &manager), Transcriber::NotSetUp);
}

fn info(id: &'static str, installed: bool) -> ModelInfoDto {
    ModelInfoDto {
        id,
        display_name: id,
        file_name: id,
        url: String::new(),
        size_bytes: 1,
        multilingual: false,
        description: "",
        installed,
        downloading: false,
    }
}

#[test]
fn cloud_failures_fall_back_to_an_installed_local_model() {
    let models = vec![info("tiny.en", false), info("small", true)];
    assert_eq!(installed_local_model("base.en", true, &models), Some("base.en".into()));
    assert_eq!(installed_local_model("cloud:x", true, &models), Some("small".into()));
    assert_eq!(installed_local_model("base.en", false, &[info("a", false)]), None);
    assert_eq!(
        cloud_fallback(Some("small".into()), &AppError::Stt("boom".into())),
        Ok("small".to_string())
    );
    assert_eq!(
        cloud_fallback(None, &AppError::Stt("cloud transcription failed (500)".into())),
        Err(AppError::Stt(
            "Cloud transcription failed (transcription error: cloud transcription failed (500)). Switch to the on-device model in Settings."
                .into()
        ))
    );
}

#[test]
fn transcripts_are_cleaned_then_fixed() {
    assert_eq!(prepare_transcript(" [BLANK_AUDIO] ", &[]), TranscriptStep::Empty);
    let dict = vec![DictionaryEntry {
        from: "tory".into(),
        to: "Tauri".into(),
    }];
    assert_eq!(
        prepare_transcript("I like tory [MUSIC]", &dict),
        TranscriptStep::Ready("I like Tauri".into(), 1)
    );
}

#[test]
fn repeated_empty_dictations_suggest_a_larger_model_once() {
    let s = Settings::default();
    assert_eq!(empty_dictation_notice(1, &s), ("Didn't catch that — try again.".to_string(), false));
    assert_eq!(
        empty_dictation_notice(2, &s),
        (
            "Didn't catch that. A larger speech model often helps — switch it in Settings → Models."
                .to_string(),
            true
        )
    );
    let seen = Settings {
        tips_seen: vec!["tip.accuracy".into()],
        ..Default::default()
    };
    assert!(!empty_dictation_notice(5, &seen).1);
    let large = Settings {
        stt_model_id: "large-v3".into(),
        ..Default::default()
    };
    assert!(!empty_dictation_notice(5, &large).1);
}

#[test]
fn the_transform_runs_only_with_a_prompt_and_a_profile() {
    let settings = Settings {
        prompts: vec![prompt("formal")],
        post_dictation_transform_id: Some("formal".into()),
        ..Default::default()
    };
    assert!(transform_request(&settings, None, "hi").is_none());
    let p = LlmProfile::default();
    let (q, _system, user) = transform_request(&settings, Some(p.clone()), "hi").unwrap();
    assert_eq!(q, p);
    assert_eq!(user, "Instruction: do the thing\n\nText:\nhi");
}

#[test]
fn a_failed_provider_never_loses_the_dictation() {
    let snippets = vec![Snippet {
        trigger: "sig".into(),
        expansion: "— Y".into(),
        whole_utterance: false,
    }];
    let plain = dictation_text("hello sig", None, &snippets);
    assert_eq!(plain.text, "hello — Y");
    assert!(!plain.polished);
    let polished = dictation_text("hello", Some(Ok("Hello.".into())), &snippets);
    assert_eq!(polished.text, "Hello.");
    assert!(polished.polished);
    let failed = dictation_text("hello", Some(Err(AppError::Llm("down".into()))), &[]);
    assert_eq!(failed.text, "hello");
    assert_eq!(
        failed.llm_warning.as_deref(),
        Some("AI unavailable — inserted the plain transcript.")
    );
}

#[test]
fn clipboard_fallbacks_tell_the_user_to_paste() {
    assert_eq!(
        insert_outcome(InsertOutcome::Pasted, "t".into()),
        ProcessOutcome::Inserted("t".into(), None)
    );
    assert_eq!(
        insert_outcome(InsertOutcome::CopiedToClipboard(CopyReason::ChosenMethod), "t".into()),
        ProcessOutcome::Inserted("t".into(), None)
    );
    assert_eq!(
        insert_outcome(InsertOutcome::CopiedToClipboard(CopyReason::PasteFailed), "t".into()),
        ProcessOutcome::Notice(
            "Paste didn't go through — the result is on the clipboard, press ⌘V".into()
        )
    );
}

#[test]
fn the_latch_tip_rides_the_third_hold_dictation() {
    let third = Settings {
        dictation_count: 3,
        ..Default::default()
    };
    assert_eq!(
        dictation_hud_tip(false, &third).as_deref(),
        Some("Tip: tap the hotkey instead of holding to go hands-free.")
    );
    assert_eq!(dictation_hud_tip(true, &third), None);
    let (out, shown) = dictation_outcome(
        ProcessOutcome::Inserted("x".into(), None),
        None,
        false,
        &third,
    );
    assert!(shown);
    assert!(matches!(out, ProcessOutcome::Inserted(_, Some(_))));
    let (warned, shown) = dictation_outcome(
        ProcessOutcome::Inserted("x".into(), None),
        Some("w".into()),
        false,
        &third,
    );
    assert!(!shown);
    assert_eq!(warned, ProcessOutcome::Notice("w".into()));
}

#[test]
fn finished_jobs_publish_with_their_lifetimes() {
    let (state, ttl) = published_state(&Ok(ProcessOutcome::Inserted("x".into(), None)));
    assert_eq!(state.status, Status::Inserted);
    assert_eq!(ttl, SUCCESS_FLASH_TTL_MS);
    let (state, ttl) = published_state(&Err(AppError::Model("no model".into())));
    assert_eq!(state.status, Status::Error);
    assert_eq!(state.message.as_deref(), Some("no model"));
    assert_eq!(ttl, TRANSIENT_STATE_TTL_MS);
}

#[test]
fn a_tip_marked_seen_never_shows_again() {
    let mut s = Settings {
        dictation_count: 3,
        ..Default::default()
    };
    assert!(dictation_hud_tip(false, &s).is_some());
    mark_tip_seen(&mut s, "tip.latch");
    assert_eq!(s.tips_seen, vec!["tip.latch".to_string()]);
    assert_eq!(s.dictation_count, 3);
    assert_eq!(dictation_hud_tip(false, &s), None);

    let mut e = Settings::default();
    assert!(empty_dictation_notice(2, &e).1);
    mark_tip_seen(&mut e, "tip.accuracy");
    assert!(!empty_dictation_notice(2, &e).1);
}

#[test]
fn an_unset_cloud_engine_ends_the_dictation_with_a_notice() {
    assert_eq!(
        transcriber_outcome(&Transcriber::NotSetUp),
        Some(ProcessOutcome::Notice(
            "Cloud transcription isn't set up — choose a speech engine in Settings → Models."
                .into()
        ))
    );
    assert_eq!(transcriber_outcome(&Transcriber::Local("base.en".into())), None);
}

#[test]
fn selection_prompts_explain_why_they_stop() {
    assert_eq!(
        selection_start_error(SelectionStart::NeedsProfile).as_deref(),
        Some("This prompt needs an AI profile — add one in Settings.")
    );
    assert_eq!(selection_start_error(SelectionStart::Busy), None);
    assert_eq!(selection_start_error(SelectionStart::Go), None);
    assert_eq!(selection_from_capture(Ok(Some("hi".into()))), Ok("hi".to_string()));
    assert_eq!(
        selection_from_capture(Ok(None)),
        Err("Select some text first, then press the prompt's shortcut.".to_string())
    );
    assert_eq!(
        selection_from_capture(Err(AppError::Output("clipboard busy".into()))),
        Err("clipboard busy".to_string())
    );
}
