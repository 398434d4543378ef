use llm_edge::ProviderStats;

#[test]
fn new_starts_zeroed() {
    let s = ProviderStats::new();
    assert_eq!(s.request_count, 0);
    assert_eq!(s.error_count, 0);
    assert_eq!(s.ewma_latency_us, 0);
    assert_eq!(s.consec_errors, 0);
}

#[test]
fn first_sample_is_taken_as_is() {
    let mut s = ProviderStats::new();
    s.record_success(1000);
    assert_eq!(s.request_count, 1);
    assert_eq!(s.ewma_latency_us, 1000);
    assert_eq!(s.consec_errors, 0);
}

#[test]
fn ewma_uses_one_eighth_smoothing() {
    let mut s = ProviderStats::new();
    s.record_success(1000);
    s.record_success(2000);
    // (1000 * 7 + 2000) / 8
    assert_eq!(s.ewma_latency_us, 1125);
    s.record_success(2000);
    // (1125 * 7 + 2000) / 8
    assert_eq!(s.ewma_latency_us, 1234);
}

#[test]
fn record_failure_increments_both_counters() {
    let mut s = ProviderStats::new();
    s.record_failure();
    s.record_failure();
    assert_eq!(s.error_count, 2);
    assert_eq!(s.consec_errors, 2);
    assert_eq!(s.request_count, 0);
}

#[test]
fn success_resets_streak_but_not_error_total() {
    let mut s = ProviderStats::new();
    s.record_failure();
    s.record_failure();
    s.record_success(500);
    assert_eq!(s.consec_errors, 0);
    assert_eq!(s.error_count, 2);
}

#[test]
fn ewma_converges_to_constant_sample() {
    let mut s = ProviderStats::new();
    s.record_success(100_000);
    for _ in 0..128 {
        s.record_success(1000);
    }
    // settled within one rounding step (< 8 microseconds) of the sample
    assert!(s.ewma_latency_us >= 993);
    assert!(s.ewma_latency_us <= 1000);
    let settled = s.ewma_latency_us;
    s.record_success(1000);
    assert_eq!(s.ewma_latency_us, settled);
}

#[test]
fn ewma_converges_from_below() {
    let mut s = ProviderStats::new();
    s.record_success(1);
    for _ in 0..64 {
        s.record_success(1000);
    }
    assert!(s.ewma_latency_us >= 993);
    assert!(s.ewma_latency_us <= 1000);
}

#[test]
fn score_multiplies_latency_by_streak_penalty() {
    let mut s = ProviderStats::new();
    s.record_success(1000);
    assert_eq!(s.score(), 1000);
    s.record_failure();
    // 1000 * (1 + 10 * 1)
    assert_eq!(s.score(), 11_000);
    s.record_failure();
    // 1000 * (1 + 10 * 2)
    assert_eq!(s.score(), 21_000);
}

#[test]
fn score_is_zero_before_any_sample() {
    let s = ProviderStats::new();
    assert_eq!(s.score(), 0);
}
