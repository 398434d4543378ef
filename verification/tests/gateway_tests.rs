use llm_edge::AppState;
use llm_edge::LlmRequest;
use llm_edge::LlmResponse;
use llm_edge::ProviderConfig;
use llm_edge::RequestPlan;
use llm_edge::Router;
use llm_edge::SemanticCache;
use llm_edge::TokenUsage;

fn mk_config(id: &str) -> ProviderConfig {
    ProviderConfig {
        id: id.to_string(),
        name: format!("provider-{}", id),
        endpoint: format!("http://localhost/{}", id),
        api_key: "test-key".to_string(),
        cost_micro_per_1k_input: 10_000,
        cost_micro_per_1k_output: 30_000,
        model_map: vec![("gpt-4".to_string(), "gpt-4-turbo".to_string())],
    }
}

fn mk_state() -> AppState {
    AppState {
        router: Router::new(vec![mk_config("p1")]),
        cache: SemanticCache::new(100, 300),
    }
}

fn mk_req(prompt: &str) -> LlmRequest {
    LlmRequest { model: "gpt-4".to_string(), prompt: prompt.to_string(), max_tokens: Some(64) }
}

fn mk_upstream_resp() -> LlmResponse {
    LlmResponse {
        content: "Content from provider".to_string(),
        usage: TokenUsage { prompt_tokens: 2, completion_tokens: 4, total_tokens: 6 },
        provider: "provider-p1".to_string(),
        latency_ms: 0,
    }
}

#[test]
fn scenario_second_submission_is_a_cache_hit() {
    let mut state = mk_state();
    let req = mk_req("common_prompt");

    // first submission: a miss, so a provider call is planned
    let idx = match state.plan_request(&req, 1000) {
        RequestPlan::CallProvider(i) => i,
        other => panic!("expected a provider call, got {:?}", other),
    };
    assert_eq!(idx, 0);

    let sent = state.complete_success(idx, &req.prompt, mk_upstream_resp(), 52_000, 1000);
    assert_eq!(sent.content, "Content from provider");
    assert_eq!(sent.latency_ms, 52);
    assert_eq!(state.router.providers[0].stats.request_count, 1);

    // second submission within the TTL: served from cache, no provider call
    match state.plan_request(&req, 1100) {
        RequestPlan::CacheHit(resp) => {
            assert_eq!(resp.content, "Content from provider");
            assert_eq!(resp.latency_ms, 52);
        },
        other => panic!("expected a cache hit, got {:?}", other),
    }
    // the provider saw exactly one call
    assert_eq!(state.router.providers[0].stats.request_count, 1);
}

#[test]
fn cache_hit_expires_back_to_provider_call() {
    let mut state = mk_state();
    let req = mk_req("common_prompt");
    let idx = match state.plan_request(&req, 1000) {
        RequestPlan::CallProvider(i) => i,
        other => panic!("expected a provider call, got {:?}", other),
    };
    state.complete_success(idx, &req.prompt, mk_upstream_resp(), 52_000, 1000);
    // TTL is 300 s: at 1300 the entry has expired
    match state.plan_request(&req, 1300) {
        RequestPlan::CallProvider(i) => assert_eq!(i, 0),
        other => panic!("expected a provider call after expiry, got {:?}", other),
    }
}

#[test]
fn failure_is_recorded_and_nothing_is_cached() {
    let mut state = mk_state();
    let req = mk_req("p");
    let idx = match state.plan_request(&req, 10) {
        RequestPlan::CallProvider(i) => i,
        other => panic!("expected a provider call, got {:?}", other),
    };
    state.complete_failure(idx);
    assert_eq!(state.router.providers[0].stats.error_count, 1);
    assert_eq!(state.router.providers[0].stats.consec_errors, 1);
    // still a miss: the failure cached nothing
    match state.plan_request(&req, 11) {
        RequestPlan::CallProvider(i) => assert_eq!(i, 0),
        other => panic!("expected a provider call again, got {:?}", other),
    }
}

#[test]
fn five_failures_make_the_service_unavailable() {
    let mut state = mk_state();
    let req = mk_req("p");
    for _ in 0..5 {
        let idx = match state.plan_request(&req, 10) {
            RequestPlan::CallProvider(i) => i,
            other => panic!("expected a provider call, got {:?}", other),
        };
        state.complete_failure(idx);
    }
    match state.plan_request(&req, 10) {
        RequestPlan::NoProvider => {},
        other => panic!("expected no provider, got {:?}", other),
    }
}

#[test]
fn unsupported_model_yields_no_provider() {
    let state = mk_state();
    let req = LlmRequest {
        model: "mistral-7b".to_string(),
        prompt: "p".to_string(),
        max_tokens: None,
    };
    match state.plan_request(&req, 0) {
        RequestPlan::NoProvider => {},
        other => panic!("expected no provider, got {:?}", other),
    }
}
