use openflow::profiles::{
    check_delete, legacy_profile, prepare_save, reconcile, LlmProfile, LlmProviderKind,
    ProfileError, ProfileManager, MIGRATED_PROFILE_ID, PROFILE_VERSION,
};
use openflow::settings::{LegacyLlmConfig, Settings};

fn sample(id: &str) -> LlmProfile {
    LlmProfile {
        id: id.into(),
        name: format!("Profile {id}"),
        model: "qwen2.5:3b".into(),
        ..LlmProfile::default()
    }
}

#[test]
fn profiles_rejects_ids_that_could_escape_the_directory() {
    for id in ["", ".", "..", "../evil", "a/b", "a\\b"] {
        assert!(prepare_save(sample(id)).is_err(), "id {id:?} was accepted");
        assert!(check_delete(id).is_err(), "id {id:?} was accepted");
    }
}

#[test]
fn active_resolves_only_existing_non_empty_ids() {
    let manager = ProfileManager::new("profiles".into(), vec![sample("a")]);
    assert!(manager.active("").is_none());
    assert!(manager.active("missing").is_none());
    assert_eq!(manager.active("a").unwrap().id, "a");
}

#[test]
fn reconcile_clears_a_dangling_active_pointer() {
    let mut s = Settings::default();
    s.active_llm_profile_id = "gone".into();
    let profiles = ProfileManager::new("profiles".into(), Vec::new());
    let next = reconcile(&s, false, &profiles).expect("settings change");
    assert!(next.active_llm_profile_id.is_empty());
}

#[test]
fn reconcile_migrates_a_v1_llm_block() {
    let legacy = LegacyLlmConfig {
        provider: "ollama".into(),
        base_url: "http://localhost:11434".into(),
        api_key: String::new(),
        model: "qwen2.5:3b".into(),
        timeout_secs: 45,
    };
    let migrated = legacy_profile(&legacy).expect("a profile to write");
    assert_eq!(migrated.id, MIGRATED_PROFILE_ID);
    assert_eq!(migrated.provider, LlmProviderKind::Ollama);
    assert_eq!(migrated.model, "qwen2.5:3b");
    assert_eq!(migrated.timeout_secs, 45);
    assert_eq!(migrated.name, "Ollama — qwen2.5:3b");

    let mut s = Settings::default();
    s.llm = Some(legacy);
    // The profile file could not be written: nothing changes, retry later.
    let none = ProfileManager::new("profiles".into(), Vec::new());
    assert!(reconcile(&s, false, &none).is_none());
    // Written and rescanned: the pointer moves to it and the block goes.
    let profiles = ProfileManager::new("profiles".into(), vec![migrated]);
    let next = reconcile(&s, true, &profiles).expect("settings change");
    assert_eq!(next.active_llm_profile_id, MIGRATED_PROFILE_ID);
    assert!(next.llm.is_none());
    // Idempotent: a second run changes nothing.
    assert!(reconcile(&next, true, &profiles).is_none());
}

#[test]
fn reconcile_drops_a_none_provider_without_creating_a_profile() {
    let mut s = Settings::default();
    s.llm = Some(LegacyLlmConfig {
        provider: "none".into(),
        ..LegacyLlmConfig::default()
    });
    assert!(legacy_profile(s.llm.as_ref().unwrap()).is_none());
    let profiles = ProfileManager::new("profiles".into(), Vec::new());
    let next = reconcile(&s, false, &profiles).expect("settings change");
    assert!(next.llm.is_none());
    assert!(next.active_llm_profile_id.is_empty());
}

#[test]
fn saving_stamps_the_version_and_names_blank_profiles() {
    let mut p = sample("a");
    p.version = 0;
    p.name = "  ".into();
    let q = prepare_save(p).unwrap();
    assert_eq!(q.version, PROFILE_VERSION);
    assert_eq!(q.name, "Untitled profile");
    assert_eq!(
        prepare_save(sample("a/b")),
        Err(ProfileError::InvalidId("a/b".into()))
    );
}

#[test]
fn the_catalog_sorts_by_name_then_id() {
    let mut b = sample("b");
    b.name = "Same".into();
    let mut a = sample("a");
    a.name = "Same".into();
    let mut z = sample("z");
    z.name = "Another".into();
    let mut manager = ProfileManager::new("profiles".into(), vec![b, a, z]);
    let ids: Vec<String> = manager.list(vec![sample("y"), sample("x")]).into_iter().map(|p| p.id).collect();
    assert_eq!(ids, vec!["x".to_string(), "y".to_string()]);
    assert_eq!(manager.dir(), "profiles");
    assert_eq!(manager.get("x").unwrap().id, "x");
}

#[test]
fn save_list_get_roundtrip() {
    let mut manager = ProfileManager::new("profiles".into(), Vec::new());
    let saved = prepare_save(sample("a")).unwrap();
    let listed = manager.list(vec![saved]);
    assert_eq!(listed.len(), 1);
    let got = manager.get("a").unwrap();
    assert_eq!(got.name, "Profile a");
    assert_eq!(got.version, PROFILE_VERSION);
    assert_eq!(manager.dir(), "profiles");
}

#[test]
fn delete_removes_the_file_and_tolerates_missing() {
    let mut manager = ProfileManager::new("profiles".into(), vec![sample("a")]);
    assert!(check_delete("a").is_ok());
    let listed = manager.list(Vec::new());
    assert!(listed.is_empty());
    assert!(manager.get("a").is_none());
    assert!(check_delete("a").is_ok());
}

#[test]
fn get_finds_each_listed_profile_whatever_the_scan_order() {
    let mut manager = ProfileManager::new("profiles".into(), Vec::new());
    let listed = manager.list(vec![sample("c"), sample("a"), sample("b")]);
    assert_eq!(listed.iter().map(|p| p.id.as_str()).collect::<Vec<_>>(), vec!["a", "b", "c"]);
    for id in ["a", "b", "c"] {
        assert_eq!(manager.get(id).unwrap().name, format!("Profile {id}"));
    }
}
