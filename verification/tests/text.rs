use openflow::settings::{DictionaryEntry, Snippet};
use openflow::text::{
    apply_dictionary, apply_snippets, clean_transcript, normalize_lines, normalize_whitespace,
    splice_matches,
};

fn entry(from: &str, to: &str) -> DictionaryEntry {
    DictionaryEntry {
        from: from.into(),
        to: to.into(),
    }
}

#[test]
fn strips_whisper_artifacts() {
    assert_eq!(clean_transcript(" [BLANK_AUDIO] "), "");
    assert_eq!(
        clean_transcript("hello [MUSIC] world (laughs) again ♪"),
        "hello world again"
    );
    assert_eq!(clean_transcript("[ Silence ]"), "");
}

#[test]
fn normalizes_whitespace_and_punctuation_spacing() {
    assert_eq!(
        clean_transcript("hello   world , nice"),
        "hello world, nice"
    );
    assert_eq!(clean_transcript("  a\n\n\n\nb  "), "a\n\nb");
}

fn dict(text: &str, entries: &[DictionaryEntry]) -> String {
    apply_dictionary(text, entries).0
}

#[test]
fn dictionary_replaces_whole_words_case_insensitively() {
    let entries = vec![entry("open flow", "Velata"), entry("tory", "Tauri")];
    assert_eq!(
        dict("Open Flow uses tory under the hood", &entries),
        "Velata uses Tauri under the hood"
    );
    assert_eq!(dict("history class", &entries), "history class");
}

#[test]
fn dictionary_prefers_longest_match() {
    let entries = vec![entry("flow", "Flow?"), entry("open flow", "Velata")];
    assert_eq!(dict("try open flow now", &entries), "try Velata now");
}

#[test]
fn dictionary_replacement_is_literal_not_regex() {
    let entries = vec![entry("cash", "$$$"), entry("c++", "C++")];
    assert_eq!(dict("send cash", &entries), "send $$$");
    assert_eq!(dict("i like c++ a lot", &entries), "i like C++ a lot");
}

#[test]
fn dictionary_counts_replacement_occurrences() {
    let entries = vec![entry("tory", "Tauri"), entry("open flow", "Velata")];
    let (text, count) = apply_dictionary("tory and tory in open flow", &entries);
    assert_eq!(text, "Tauri and Tauri in Velata");
    assert_eq!(count, 3);
    assert_eq!(
        apply_dictionary("nothing here", &entries),
        ("nothing here".into(), 0)
    );
    assert_eq!(apply_dictionary("anything", &[]), ("anything".into(), 0));
}

#[test]
fn clean_transcript_keeps_content_untouched_except_artifacts() {
    let raw = "so um the code is `let x = 1;` you know";
    assert_eq!(
        clean_transcript(raw),
        "so um the code is `let x = 1;` you know"
    );
}

fn snip(trigger: &str, expansion: &str, whole_utterance: bool) -> Snippet {
    Snippet {
        trigger: trigger.into(),
        expansion: expansion.into(),
        whole_utterance,
    }
}

#[test]
fn snippets_expand_inline_whole_word_case_insensitively() {
    let snippets = vec![snip("my email", "me@example.com", false)];
    assert_eq!(
        apply_snippets("send it to My Email please", &snippets),
        "send it to me@example.com please"
    );
    assert_eq!(
        apply_snippets("my emails are full", &snippets),
        "my emails are full"
    );
}

#[test]
fn snippets_support_multiline_expansion() {
    let snippets = vec![snip("sign off", "Best,\nYijiazhen", false)];
    assert_eq!(apply_snippets("sign off", &snippets), "Best,\nYijiazhen");
}

#[test]
fn whole_utterance_snippet_only_fires_on_exact_match() {
    let snippets = vec![snip("my email", "me@example.com", true)];
    assert_eq!(apply_snippets("  My Email  ", &snippets), "me@example.com");
    assert_eq!(apply_snippets("My email.", &snippets), "me@example.com");
    assert_eq!(
        apply_snippets("send it to my email", &snippets),
        "send it to my email"
    );
}

#[test]
fn snippets_prefer_longest_trigger() {
    let snippets = vec![
        snip("cal", "calendar", false),
        snip("my cal", "https://cal.example.com/me", false),
    ];
    assert_eq!(
        apply_snippets("here is my cal link", &snippets),
        "here is https://cal.example.com/me link"
    );
}

#[test]
fn an_expansion_is_never_expanded_again() {
    // The "cal" inside the URL that "my cal" produced stays as it is.
    let snippets = vec![
        snip("cal", "calendar", false),
        snip("my cal", "my cal at cal.example.com", false),
    ];
    assert_eq!(
        apply_snippets("my cal", &snippets),
        "my cal at cal.example.com"
    );
}

#[test]
fn equal_phrases_take_the_last_replacement() {
    let entries = vec![entry("tory", "Tory"), entry("Tory", "Tauri")];
    assert_eq!(apply_dictionary("tory", &entries), ("Tauri".into(), 1));
}

#[test]
fn blank_dictionary_entries_take_no_part() {
    let entries = vec![entry("   ", "x"), entry("", "y")];
    assert_eq!(apply_dictionary("a b", &entries), ("a b".into(), 0));
}

#[test]
fn line_rules_trim_each_line_and_keep_one_blank_line() {
    assert_eq!(normalize_lines("  a  \n  b \n\n\n\n c "), "a\nb\n\nc");
    assert_eq!(normalize_lines("\n\n"), "");
    assert_eq!(normalize_whitespace("a \t b ?"), "a b?");
}

#[test]
fn splicing_puts_replacements_between_the_pieces() {
    let pieces = vec!["x ".to_string(), " y".to_string()];
    let found = vec!["Tory".to_string()];
    let keys = vec!["tory".to_string()];
    let vals = vec!["Tauri".to_string()];
    assert_eq!(splice_matches(&pieces, &found, &keys, &vals), "x Tauri y");
    // A match with no key stays as it was.
    let none: Vec<String> = Vec::new();
    assert_eq!(splice_matches(&pieces, &found, &none, &none), "x Tory y");
}
