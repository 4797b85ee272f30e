use openflow::llm::{
    chat_completions_url, failure_message, finish_reply, ollama_tags_url, plan_chat,
    strip_code_fence, test_result, truncate, ChatFailure,
};
use openflow::profiles::{LlmProfile, LlmProviderKind};

#[test]
fn url_builder_inserts_v1_only_for_bare_origins() {
    assert_eq!(
        chat_completions_url("http://localhost:11434"),
        "http://localhost:11434/v1/chat/completions"
    );
    assert_eq!(
        chat_completions_url("http://localhost:11434/"),
        "http://localhost:11434/v1/chat/completions"
    );
    assert_eq!(
        chat_completions_url("https://api.openai.com"),
        "https://api.openai.com/v1/chat/completions"
    );
}

#[test]
fn url_builder_trusts_an_explicit_path() {
    assert_eq!(
        chat_completions_url("https://api.groq.com/openai/v1"),
        "https://api.groq.com/openai/v1/chat/completions"
    );
    assert_eq!(
        chat_completions_url("http://localhost:1234/v1/"),
        "http://localhost:1234/v1/chat/completions"
    );
    assert_eq!(
        chat_completions_url("https://api.z.ai/api/coding/paas/v4"),
        "https://api.z.ai/api/coding/paas/v4/chat/completions"
    );
    assert_eq!(
        chat_completions_url("https://generativelanguage.googleapis.com/v1beta/openai"),
        "https://generativelanguage.googleapis.com/v1beta/openai/chat/completions"
    );
}

#[test]
fn strips_code_fences_but_keeps_plain_text() {
    assert_eq!(strip_code_fence("plain"), "plain");
    assert_eq!(strip_code_fence("```\nfenced\n```"), "fenced");
    assert_eq!(strip_code_fence("```text\nfenced\n```"), "fenced");
}

#[test]
fn an_unclosed_fence_is_kept() {
    assert_eq!(strip_code_fence("  ```open  "), "```open");
}

fn profile(provider: LlmProviderKind, model: &str, key: &str, timeout: u64) -> LlmProfile {
    LlmProfile {
        id: "p".into(),
        name: "P".into(),
        provider,
        base_url: " http://localhost:11434/ ".into(),
        api_key: key.into(),
        model: model.into(),
        timeout_secs: timeout,
        ..LlmProfile::default()
    }
}

#[test]
fn a_blank_model_is_refused_before_any_request() {
    let p = profile(LlmProviderKind::Ollama, "  ", "", 30);
    assert_eq!(plan_chat(&p, "s", "u"), Err("no model configured".to_string()));
}

#[test]
fn a_plan_trims_the_key_and_floors_the_timeout() {
    let p = profile(LlmProviderKind::OpenaiCompatible, "m", "  sk-1 ", 2);
    let plan = plan_chat(&p, "sys", "user").unwrap();
    assert_eq!(plan.url, "http://localhost:11434/v1/chat/completions");
    assert_eq!(plan.bearer, Some("sk-1".to_string()));
    assert_eq!(plan.timeout_secs, 5);
    assert_eq!(plan.model, "m");
    let q = profile(LlmProviderKind::Ollama, "m", " ", 45);
    let plan = plan_chat(&q, "sys", "user").unwrap();
    assert_eq!(plan.bearer, None);
    assert_eq!(plan.timeout_secs, 45);
}

#[test]
fn failure_messages_name_the_cause() {
    let o = profile(LlmProviderKind::Ollama, "m", "", 30);
    assert_eq!(
        failure_message(&o, &ChatFailure::Timeout),
        "provider timed out after 30s"
    );
    assert_eq!(
        failure_message(&o, &ChatFailure::Connect),
        "could not connect to Ollama at  http://localhost:11434/  — is `ollama serve` running?"
    );
    let c = profile(LlmProviderKind::OpenaiCompatible, "m", "", 30);
    assert_eq!(
        failure_message(&c, &ChatFailure::Connect),
        "could not connect to  http://localhost:11434/ "
    );
    assert_eq!(
        failure_message(
            &c,
            &ChatFailure::Status {
                status: "401 Unauthorized".into(),
                api_message: Some("bad key".into()),
                raw: "{}".into(),
            }
        ),
        "provider returned 401 Unauthorized: bad key"
    );
    let long = "é".repeat(150);
    let msg = failure_message(
        &c,
        &ChatFailure::Status {
            status: "500 Internal Server Error".into(),
            api_message: None,
            raw: long,
        },
    );
    assert_eq!(
        msg,
        format!("provider returned 500 Internal Server Error: {}…", "é".repeat(100))
    );
}

#[test]
fn truncation_respects_character_boundaries() {
    assert_eq!(truncate("short", 200), "short");
    assert_eq!(truncate("aé", 2), "a…");
    assert_eq!(truncate("abc", 2), "ab…");
}

#[test]
fn replies_are_cleaned_and_empty_ones_refused() {
    assert_eq!(finish_reply(Some("  ```\nok\n```  ".into())), Ok("ok".to_string()));
    assert_eq!(
        finish_reply(None),
        Err("provider returned an empty response".to_string())
    );
    assert_eq!(
        finish_reply(Some("``````".into())),
        Err("provider returned an empty response".to_string())
    );
}

#[test]
fn connectivity_check_reports() {
    let ok = test_result("qwen2.5:3b", &Ok("OK".into()));
    assert!(ok.ok);
    assert_eq!(ok.message, "Connected — qwen2.5:3b responded.");
    let bad = test_result("m", &Err("no model configured".into()));
    assert!(!bad.ok);
    assert_eq!(bad.message, "AI provider error: no model configured");
}

#[test]
fn ollama_tags_url_uses_the_root() {
    assert_eq!(ollama_tags_url(" http://localhost:11434// "), "http://localhost:11434/api/tags");
}
