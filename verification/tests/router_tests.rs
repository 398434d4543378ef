use llm_edge::LlmRequest;
use llm_edge::ProviderConfig;
use llm_edge::Router;

fn mk_config(id: &str, cost_micro_in: u64) -> ProviderConfig {
    ProviderConfig {
        id: id.to_string(),
        name: format!("provider-{}", id),
        endpoint: format!("http://localhost/{}", id),
        api_key: "test-key".to_string(),
        cost_micro_per_1k_input: cost_micro_in,
        cost_micro_per_1k_output: 2 * cost_micro_in,
        model_map: vec![("gpt-4".to_string(), "gpt-4-turbo".to_string())],
    }
}

fn mk_req(model: &str) -> LlmRequest {
    LlmRequest { model: model.to_string(), prompt: "hi".to_string(), max_tokens: None }
}

#[test]
fn new_router_has_fresh_providers_in_order() {
    let r = Router::new(vec![mk_config("p1", 10), mk_config("p2", 20)]);
    assert_eq!(r.providers.len(), 2);
    assert_eq!(r.providers[0].config.id, "p1");
    assert_eq!(r.providers[1].config.id, "p2");
    assert_eq!(r.providers[0].stats.request_count, 0);
    assert_eq!(r.providers[0].stats.ewma_latency_us, 0);
}

#[test]
fn supports_model_follows_the_map() {
    let r = Router::new(vec![mk_config("p1", 10)]);
    assert!(r.providers[0].supports_model("gpt-4"));
    assert!(!r.providers[0].supports_model("mistral-7b"));
}

#[test]
fn resolve_model_maps_or_falls_back() {
    let r = Router::new(vec![mk_config("p1", 10)]);
    let mapped = r.providers[0].resolve_model(&"gpt-4".to_string());
    assert_eq!(mapped, "gpt-4-turbo");
    let fallback = r.providers[0].resolve_model(&"unknown-model".to_string());
    assert_eq!(fallback, "unknown-model");
}

#[test]
fn selection_score_weighs_cost_heavily() {
    let mut r = Router::new(vec![mk_config("p1", 10_000)]);
    r.record_success(0, 50_000);
    // 50_000 us + 100 * 10_000
    assert_eq!(r.providers[0].selection_score(), 1_050_000);
}

#[test]
fn scenario_two_providers_lower_combined_score_wins() {
    // first provider: 50 ms latency, 0.01 per 1k input tokens (10_000 micro-units)
    // second provider: 200 ms latency, 0.012 per 1k input tokens (12_000 micro-units)
    let mut r = Router::new(vec![mk_config("p1", 10_000), mk_config("p2", 12_000)]);
    r.record_success(0, 50_000);
    r.record_success(1, 200_000);
    assert_eq!(r.select(&mk_req("gpt-4")), Some(0));
}

#[test]
fn cost_outweighs_latency() {
    // the slower provider is much cheaper: 10 ms vs 1 ms, but 1_000 vs 2_000
    // micro-units; scores 110_000 vs 201_000
    let mut r = Router::new(vec![mk_config("cheap", 1_000), mk_config("fast", 2_000)]);
    r.record_success(0, 10_000);
    r.record_success(1, 1_000);
    assert_eq!(r.select(&mk_req("gpt-4")), Some(0));
}

#[test]
fn select_breaks_ties_by_snapshot_order() {
    let mut r = Router::new(vec![mk_config("p1", 10), mk_config("p2", 10)]);
    r.record_success(0, 5_000);
    r.record_success(1, 5_000);
    assert_eq!(r.select(&mk_req("gpt-4")), Some(0));
}

#[test]
fn select_requires_model_support() {
    let r = Router::new(vec![mk_config("p1", 10)]);
    assert_eq!(r.select(&mk_req("mistral-7b")), None);
}

#[test]
fn select_on_empty_router_returns_none() {
    let r = Router::new(Vec::new());
    assert_eq!(r.select(&mk_req("gpt-4")), None);
}

#[test]
fn breaker_opens_after_five_failures_and_success_restores() {
    let mut r = Router::new(vec![mk_config("p1", 10)]);
    for _ in 0..4 {
        r.record_failure(0);
    }
    assert!(r.providers[0].is_healthy());
    r.record_failure(0);
    assert!(!r.providers[0].is_healthy());
    r.record_success(0, 1_000);
    assert!(r.providers[0].is_healthy());
}

#[test]
fn scenario_unhealthy_provider_is_excluded_despite_best_latency() {
    let mut r = Router::new(vec![mk_config("p1", 10), mk_config("p2", 10)]);
    r.record_success(0, 1_000);
    r.record_success(1, 500_000);
    assert_eq!(r.select(&mk_req("gpt-4")), Some(0));
    for _ in 0..5 {
        r.record_failure(0);
    }
    assert_eq!(r.select(&mk_req("gpt-4")), Some(1));
}

#[test]
fn select_returns_none_when_all_unhealthy() {
    let mut r = Router::new(vec![mk_config("p1", 10)]);
    for _ in 0..5 {
        r.record_failure(0);
    }
    assert_eq!(r.select(&mk_req("gpt-4")), None);
}

#[test]
fn update_providers_replaces_wholesale_and_discards_history() {
    let mut r = Router::new(vec![mk_config("p1", 10)]);
    r.record_success(0, 9_000);
    r.record_failure(0);
    r.update_providers(vec![mk_config("p1", 10), mk_config("p3", 30)]);
    assert_eq!(r.providers.len(), 2);
    assert_eq!(r.providers[0].config.id, "p1");
    assert_eq!(r.providers[0].stats.request_count, 0);
    assert_eq!(r.providers[0].stats.error_count, 0);
    assert_eq!(r.providers[0].stats.ewma_latency_us, 0);
    assert_eq!(r.providers[1].config.id, "p3");
}
