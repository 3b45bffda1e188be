use openhawk::llm_router::{LlmProvider, LlmRequest, LlmRouter, MockRouter, ProviderStatus, RouterError};

fn make_providers() -> Vec<LlmProvider> {
    vec![
        LlmProvider { name: "openai".into(), endpoint: "https://api.openai.com/v1".into(), priority: 1, is_local: false },
        LlmProvider { name: "ollama".into(), endpoint: "http://localhost:11434".into(), priority: 2, is_local: true },
    ]
}

fn req(prompt: &str) -> LlmRequest {
    LlmRequest { prompt: prompt.to_string(), max_tokens: None, model: None }
}

#[test]
fn routes_to_highest_priority_provider() {
    let mut router = MockRouter::new(make_providers());
    let resp = router.route_request(1, req("hello"), false).unwrap();
    assert_eq!(resp.provider, "openai");
}

#[test]
fn provider_list_sorted_by_priority() {
    let providers = vec![
        LlmProvider { name: "ollama".into(), endpoint: "http://localhost:11434".into(), priority: 2, is_local: true },
        LlmProvider { name: "openai".into(), endpoint: "https://api.openai.com/v1".into(), priority: 1, is_local: false },
    ];
    let mut router = MockRouter::new(providers);
    let resp = router.route_request(1, req("test"), false).unwrap();
    assert_eq!(resp.provider, "openai");
}

#[test]
fn falls_back_to_next_provider_on_failure() {
    let mut router = MockRouter::new(make_providers());
    router.mark_unavailable("openai");
    let resp = router.route_request(1, req("hello"), false).unwrap();
    assert_eq!(resp.provider, "ollama");
}

#[test]
fn response_contains_prompt_text() {
    let mut router = MockRouter::new(make_providers());
    let resp = router.route_request(42, req("what is rust"), false).unwrap();
    assert!(resp.text.contains("what is rust"));
}

#[test]
fn local_only_skips_cloud_providers() {
    let mut router = MockRouter::new(make_providers());
    let resp = router.route_request(1, req("private"), true).unwrap();
    assert_eq!(resp.provider, "ollama");
}

#[test]
fn local_only_fails_when_no_local_provider() {
    let providers = vec![
        LlmProvider { name: "openai".into(), endpoint: "https://api.openai.com/v1".into(), priority: 1, is_local: false },
    ];
    let mut router = MockRouter::new(providers);
    let err = router.route_request(1, req("private"), true).unwrap_err();
    assert_eq!(err, RouterError::NoProviderAvailable);
}

#[test]
fn queues_request_when_no_provider_available() {
    let mut router = MockRouter::new(make_providers());
    router.mark_unavailable("openai");
    router.mark_unavailable("ollama");
    let err = router.route_request(7, req("queue me"), false).unwrap_err();
    assert_eq!(err, RouterError::NoProviderAvailable);
    assert_eq!(router.queued_count(), 1);
}

#[test]
fn multiple_failed_requests_all_queued() {
    let mut router = MockRouter::new(make_providers());
    router.mark_unavailable("openai");
    router.mark_unavailable("ollama");
    for _ in 0..3 {
        let _ = router.route_request(1, req("q"), false);
    }
    assert_eq!(router.queued_count(), 3);
}

#[test]
fn get_providers_reflects_availability() {
    let mut router = MockRouter::new(make_providers());
    router.mark_unavailable("openai");
    let statuses = router.get_providers();
    let openai = statuses.iter().find(|s| s.provider.name == "openai").unwrap();
    let ollama = statuses.iter().find(|s| s.provider.name == "ollama").unwrap();
    assert_eq!(openai.status, ProviderStatus::Unavailable);
    assert_eq!(ollama.status, ProviderStatus::Available);
}

#[test]
fn llm_router_routes_successfully() {
    let mut router = LlmRouter::new(make_providers());
    let resp = router.route_request(1, req("hello"), false).unwrap();
    assert!(!resp.provider.is_empty());
    assert!(!resp.text.is_empty());
}

#[test]
fn llm_router_local_only_returns_local_provider() {
    let mut router = LlmRouter::new(make_providers());
    let resp = router.route_request(1, req("private"), true).unwrap();
    assert_eq!(resp.provider, "ollama");
}

#[test]
fn filter_for_air_gap_returns_only_local_when_enabled() {
    let providers = make_providers();
    let filtered = LlmRouter::filter_for_air_gap(&providers, true);
    assert_eq!(filtered.len(), 1);
    assert_eq!(filtered[0].name, "ollama");
}

#[test]
fn filter_for_air_gap_returns_all_when_disabled() {
    let providers = make_providers();
    let filtered = LlmRouter::filter_for_air_gap(&providers, false);
    assert_eq!(filtered.len(), 2);
}

#[test]
fn filter_for_air_gap_empty_when_no_local_providers() {
    let providers = vec![
        LlmProvider { name: "openai".into(), endpoint: "https://api.openai.com/v1".into(), priority: 1, is_local: false },
        LlmProvider { name: "anthropic".into(), endpoint: "https://api.anthropic.com".into(), priority: 2, is_local: false },
    ];
    let filtered = LlmRouter::filter_for_air_gap(&providers, true);
    assert!(filtered.is_empty());
}

#[test]
fn response_counts_words_and_tokens() {
    let mut router = LlmRouter::new(make_providers());
    let r = LlmRequest { prompt: "  two  words ".to_string(), max_tokens: Some(7), model: None };
    let resp = router.route_request(1, r, false).unwrap();
    assert_eq!(resp.text, "[openai] response to:   two  words ");
    assert_eq!(resp.prompt_tokens, 2);
    assert_eq!(resp.completion_tokens, 7);
    let resp = router.route_request(1, req(""), false).unwrap();
    assert_eq!(resp.prompt_tokens, 1);
    assert_eq!(resp.completion_tokens, 64);
}

#[test]
fn equal_priorities_keep_their_order() {
    let providers = vec![
        LlmProvider { name: "b".into(), endpoint: "x".into(), priority: 5, is_local: true },
        LlmProvider { name: "a".into(), endpoint: "y".into(), priority: 5, is_local: true },
        LlmProvider { name: "c".into(), endpoint: "z".into(), priority: 1, is_local: true },
    ];
    let router = LlmRouter::new(providers);
    let names: Vec<String> = router.get_providers().into_iter().map(|s| s.provider.name).collect();
    assert_eq!(names, vec!["c", "b", "a"]);
}

#[test]
fn router_error_messages() {
    assert_eq!(RouterError::NoProviderAvailable.message(), "no LLM provider available");
    let e = RouterError::ProviderFailed { provider: "p".into(), reason: "down".into() };
    assert_eq!(e.message(), "provider 'p' failed: down");
}
