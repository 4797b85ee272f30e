use openflow::settings::DictionaryEntry;
use openflow::suggestions::{is_candidate, Suggestions};

fn entry(from: &str, to: &str) -> DictionaryEntry {
    DictionaryEntry {
        from: from.into(),
        to: to.into(),
    }
}

#[test]
fn flags_internal_caps_but_not_acronyms_or_plain_words() {
    assert!(is_candidate("TanStack"));
    assert!(is_candidate("DeepSeek"));
    assert!(is_candidate("OAuth"));
    assert!(is_candidate("iOS"));
    assert!(!is_candidate("API"));
    assert!(!is_candidate("Monday"));
    assert!(!is_candidate("hello"));
    assert!(!is_candidate("a"));
}

#[test]
fn observe_tallies_and_top_orders_by_count() {
    let mut s = Suggestions::new();
    s.observe("we use TanStack and DeepSeek today.");
    s.observe("TanStack again, plus OAuth.");
    let top = s.top(&[], 10);
    assert_eq!(top[0].term, "TanStack");
    assert_eq!(top[0].count, 2);
    assert_eq!(top.len(), 3);
}

#[test]
fn top_excludes_known_dictionary_terms_and_dismissed() {
    let mut s = Suggestions::new();
    s.observe("TanStack and DeepSeek and OAuth.");
    s.dismiss("OAuth");
    let dict = vec![entry("tan stack", "TanStack")];
    let top = s.top(&dict, 10);
    let terms: Vec<&str> = top.iter().map(|t| t.term.as_str()).collect();
    assert_eq!(terms, vec!["DeepSeek"]);
}

#[test]
fn ties_are_alphabetical_and_the_limit_holds() {
    let mut s = Suggestions::new();
    s.observe("(ZetaCo) AlphaCo, MidCo");
    let top = s.top(&[], 2);
    let terms: Vec<&str> = top.iter().map(|t| t.term.as_str()).collect();
    assert_eq!(terms, vec!["AlphaCo", "MidCo"]);
    assert!(s.top(&[], 0).is_empty());
}

#[test]
fn dictionary_matching_ignores_case() {
    let mut s = Suggestions::new();
    s.observe("DeepSeek");
    assert!(s.top(&[entry("DEEPSEEK", "x")], 10).is_empty());
}

#[test]
fn plain_words_are_never_tallied() {
    let mut s = Suggestions::new();
    s.observe("the quick brown fox jumps over the lazy dog, NASA and I agree");
    assert!(s.top(&[], 10).is_empty());
    s.observe("we ship OpenFlow today");
    let top = s.top(&[], 10);
    assert_eq!(top.len(), 1);
    assert_eq!(top[0].term, "OpenFlow");
}

#[test]
fn observe_checked_tallies_ordinary_text() {
    let mut s = Suggestions::new();
    assert!(s.observe_checked("OpenFlow and OpenFlow, with GitHub."));
    let top = s.top(&[], 10);
    assert_eq!(top.len(), 2);
    assert_eq!(top[0].term, "OpenFlow");
    assert_eq!(top[0].count, 2);
    assert_eq!(top[1].term, "GitHub");
    assert_eq!(top[1].count, 1);
}

#[test]
fn each_occurrence_of_a_tallied_candidate_counts() {
    let mut s = Suggestions::new();
    s.observe("OpenFlow is here");
    s.observe("OpenFlow, OpenFlow and plain words, GitHub.");
    let top = s.top(&[], 10);
    assert_eq!(top[0].term, "OpenFlow");
    assert_eq!(top[0].count, 3);
    assert_eq!(top[1].term, "GitHub");
    assert_eq!(top[1].count, 1);
    assert_eq!(top.len(), 2);
}
