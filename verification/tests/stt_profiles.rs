use openflow::profiles::ProfileError;
use openflow::stt_profiles::{
    check_stt_delete, cloud_model_id, cloud_profile_id, prepare_stt_save, SttEngineKind,
    SttProfile, SttProfileManager, STT_PROFILE_VERSION,
};

fn sample(id: &str) -> SttProfile {
    SttProfile {
        id: id.to_string(),
        name: "Test engine".into(),
        ..SttProfile::default()
    }
}

#[test]
fn stt_profiles_rejects_ids_that_could_escape_the_directory() {
    for id in ["", ".", "..", "../evil", "a/b", "a\\b", "a\0b"] {
        assert!(prepare_stt_save(sample(id)).is_err(), "id {id:?} was accepted");
        assert!(check_stt_delete(id).is_err(), "id {id:?} was accepted");
    }
}

#[test]
fn saving_stamps_the_version_and_names_blank_engines() {
    let mut p = sample("groq");
    p.name = String::new();
    p.version = 9;
    let q = prepare_stt_save(p).unwrap();
    assert_eq!(q.version, STT_PROFILE_VERSION);
    assert_eq!(q.name, "Untitled engine");
    assert_eq!(q.engine, SttEngineKind::OpenaiAudio);
    assert_eq!(check_stt_delete("bad/id"), Err(ProfileError::InvalidId("bad/id".into())));
}

#[test]
fn cloud_model_ids_carry_the_profile() {
    assert_eq!(cloud_profile_id("cloud:groq"), Some("groq".to_string()));
    assert_eq!(cloud_profile_id("base.en"), None);
    assert_eq!(cloud_model_id("groq"), "cloud:groq");
}

#[test]
fn the_catalog_finds_profiles_by_id() {
    let mut m = SttProfileManager::new("stt".into(), vec![sample("b"), sample("a")]);
    assert_eq!(m.get("a").unwrap().id, "a");
    assert!(m.get("c").is_none());
    let listed = m.list(vec![sample("c")]);
    assert_eq!(listed.len(), 1);
    assert_eq!(m.get("c").unwrap().id, "c");
    assert_eq!(m.dir(), "stt");
}
