use openflow::models::{
    download_total, download_url, final_progress, model_info, registry, spec, DownloadRegistry,
    DownloadTracker, DEFAULT_STT_MODEL_ID,
};

#[test]
fn registry_ids_and_files_are_unique() {
    let reg = registry();
    let mut ids: Vec<_> = reg.iter().map(|m| m.id).collect();
    ids.sort_unstable();
    ids.dedup();
    assert_eq!(ids.len(), reg.len());

    let mut files: Vec<_> = reg.iter().map(|m| m.file_name).collect();
    files.sort_unstable();
    files.dedup();
    assert_eq!(files.len(), reg.len());
}

#[test]
fn urls_are_https_hugging_face_resolve_links() {
    for spec in registry() {
        let url = download_url(&spec);
        assert!(
            url.starts_with("https://huggingface.co/ggerganov/whisper.cpp/resolve/main/ggml-"),
            "unexpected url: {url}"
        );
        assert!(url.ends_with(".bin"));
    }
}

#[test]
fn default_model_exists_in_registry() {
    assert!(spec("base.en").is_ok());
    assert!(spec("nope").is_err());
}

#[test]
fn unknown_ids_are_named_in_the_error() {
    assert_eq!(spec("nope").unwrap_err(), "unknown model id: nope");
    assert_eq!(spec(DEFAULT_STT_MODEL_ID).unwrap().file_name, "ggml-base.en.bin");
}

#[test]
fn model_info_reflects_flags() {
    let s = spec("tiny.en").unwrap();
    let info = model_info(&s, true, false);
    assert_eq!(info.id, "tiny.en");
    assert!(info.installed);
    assert!(!info.downloading);
    assert_eq!(info.url, download_url(&s));
}

#[test]
fn downloads_track_progress_and_completeness() {
    let s = spec("tiny.en").unwrap();
    assert_eq!(download_total(None, &s), s.size_bytes);
    assert_eq!(download_total(Some(10), &s), 10);
    let mut t = DownloadTracker::new(10, 1000);
    assert!(!t.on_chunk(4, 1100));
    assert!(t.on_chunk(4, 1250));
    assert_eq!(t.progress("tiny.en").downloaded_bytes, 8);
    assert_eq!(
        t.check_complete(),
        Err("download incomplete (8 of 10 bytes)".to_string())
    );
    assert!(!t.on_chunk(2, 1300));
    assert_eq!(t.check_complete(), Ok(()));
    let done = final_progress(&s, None);
    assert!(done.done);
    assert_eq!(done.downloaded_bytes, s.size_bytes);
    let failed = final_progress(&s, Some("boom".into()));
    assert_eq!(failed.downloaded_bytes, 0);
    assert_eq!(failed.error.as_deref(), Some("boom"));
}

#[test]
fn one_download_per_model() {
    let mut r = DownloadRegistry::new();
    assert_eq!(r.begin("tiny.en"), Ok(()));
    assert!(r.is_downloading("tiny.en"));
    assert_eq!(
        r.begin("tiny.en"),
        Err("tiny.en is already downloading".to_string())
    );
    assert_eq!(r.begin("base.en"), Ok(()));
    r.end("tiny.en");
    assert!(!r.is_downloading("tiny.en"));
    assert!(r.is_downloading("base.en"));
}
