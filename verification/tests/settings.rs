use openflow::prompts::POLISH_PROMPT_ID;
use openflow::settings::{Prompt, Settings, SettingsManager, Snippet};

fn manager() -> SettingsManager {
    SettingsManager::new("settings.json".into(), Settings::default())
}

#[test]
fn normalize_clears_a_dangling_post_dictation_transform_id() {
    let mut manager = manager();
    let mut s = manager.get();
    s.post_dictation_transform_id = Some(POLISH_PROMPT_ID.into());
    let kept = manager.set(s);
    assert_eq!(
        kept.post_dictation_transform_id.as_deref(),
        Some(POLISH_PROMPT_ID)
    );

    let mut s = manager.get();
    s.post_dictation_transform_id = Some("does-not-exist".into());
    let cleared = manager.set(s);
    assert_eq!(cleared.post_dictation_transform_id, None);
}

#[test]
fn normalize_drops_blank_snippets_and_keeps_valid_ones() {
    let mut manager = manager();
    let mut s = manager.get();
    s.snippets = vec![
        Snippet {
            trigger: "my email".into(),
            expansion: "me@example.com".into(),
            whole_utterance: true,
        },
        Snippet {
            trigger: "  ".into(),
            expansion: "dropped — blank trigger".into(),
            whole_utterance: false,
        },
        Snippet {
            trigger: "empty".into(),
            expansion: String::new(),
            whole_utterance: false,
        },
    ];
    let fixed = manager.set(s);
    assert_eq!(fixed.snippets.len(), 1);
    assert_eq!(fixed.snippets[0].trigger, "my email");
    assert!(manager.get().snippets[0].whole_utterance);
}

#[test]
fn normalize_keeps_prompts_being_edited_drops_only_idless_rows() {
    let mut manager = manager();
    let mut s = manager.get();
    s.prompts = vec![
        Prompt {
            id: "a".into(),
            name: "Concise".into(),
            instruction: "Tighten the wording.".into(),
            shortcut: "Alt+1".into(),
            built_in: false,
        },
        Prompt {
            id: "b".into(),
            name: "  ".into(),
            instruction: "Make it friendlier.".into(),
            shortcut: "Alt+2".into(),
            built_in: false,
        },
        Prompt {
            id: " ".into(),
            name: "Orphan".into(),
            instruction: "x".into(),
            shortcut: String::new(),
            built_in: false,
        },
    ];
    let fixed = manager.set(s);
    let renamed = fixed.prompts.iter().find(|p| p.id == "b").unwrap();
    assert_eq!(renamed.instruction, "Make it friendlier.");
    assert_eq!(renamed.shortcut, "Alt+2");
    assert!(fixed.prompts.iter().any(|p| p.id == "a"));
    assert!(!fixed.prompts.iter().any(|p| p.id.trim().is_empty()));
    assert!(fixed
        .prompts
        .iter()
        .any(|p| p.id == POLISH_PROMPT_ID && p.built_in));
}

#[test]
fn normalize_restores_deleted_polish_but_keeps_user_edits() {
    let mut manager = manager();
    let mut s = manager.get();
    s.prompts.clear();
    let restored = manager.set(s);
    let polish = restored
        .prompts
        .iter()
        .find(|p| p.id == POLISH_PROMPT_ID)
        .expect("Polish restored after deletion");
    assert!(polish.built_in);

    let mut s = manager.get();
    for p in &mut s.prompts {
        if p.id == POLISH_PROMPT_ID {
            p.instruction = "My own polish wording.".into();
            p.shortcut = "Alt+9".into();
        }
    }
    let edited = manager.set(s);
    let polish = edited
        .prompts
        .iter()
        .find(|p| p.id == POLISH_PROMPT_ID)
        .expect("Polish still present after editing");
    assert_eq!(polish.instruction, "My own polish wording.");
    assert_eq!(polish.shortcut, "Alt+9");
    assert!(polish.built_in);
}

#[test]
fn defaults_match_the_documented_values() {
    let s = Settings::default();
    assert_eq!(s.dictation_hotkey, "Alt+Space");
    assert_eq!(s.stt_model_id, "base.en");
    assert_eq!(s.language, "auto");
    assert_eq!(s.history_retention_days, 0);
    assert_eq!(s.input_device_name, None);
    assert_eq!(manager().path(), "settings.json");
}
