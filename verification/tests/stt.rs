use openflow::settings::DictionaryEntry;
use openflow::stt::{
    initial_prompt_from_dictionary, needs_load, padded_len, transcript_from_segments,
    whisper_language, MIN_SAMPLES,
};

#[test]
fn initial_prompt_lists_dictionary_targets() {
    assert_eq!(initial_prompt_from_dictionary(&[]), None);
    let entries = vec![
        DictionaryEntry {
            from: "open flow".into(),
            to: "OpenFlow".into(),
        },
        DictionaryEntry {
            from: "k 8 s".into(),
            to: "k8s".into(),
        },
    ];
    assert_eq!(
        initial_prompt_from_dictionary(&entries).unwrap(),
        "Glossary: OpenFlow, k8s."
    );
}

#[test]
fn english_only_models_are_forced_to_english() {
    assert_eq!(whisper_language("base.en", "de"), Some("en".to_string()));
    assert_eq!(whisper_language("base", "auto"), None);
    assert_eq!(whisper_language("base", "de"), Some("de".to_string()));
}

#[test]
fn short_clips_are_padded_to_the_minimum() {
    assert_eq!(MIN_SAMPLES, 17_600);
    assert_eq!(padded_len(100), MIN_SAMPLES);
    assert_eq!(padded_len(20_000), 20_000);
}

#[test]
fn a_different_model_is_reloaded() {
    assert!(needs_load(None, "base.en"));
    assert!(needs_load(Some("tiny.en"), "base.en"));
    assert!(!needs_load(Some("base.en"), "base.en"));
}

#[test]
fn segments_join_and_trim() {
    let segs = vec![" Hello".to_string(), " world. ".to_string()];
    assert_eq!(transcript_from_segments(&segs), "Hello world.");
    assert_eq!(transcript_from_segments(&[]), "");
}
