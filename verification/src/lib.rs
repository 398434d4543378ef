//! Dispatch core of an LLM-request gateway: a digest-keyed response cache
//! with bounded capacity and time-based expiry, per-provider performance
//! counters with an open-only circuit breaker, cost-aware provider
//! selection over an ordered provider snapshot, and the orchestration that
//! ties them together. Every function is verified against its contract;
//! the HTTP boundary around it lives outside this crate.

mod cache;
mod gateway;
mod model;
mod router;
mod stats;

pub use gateway::AppState;
pub use gateway::RequestPlan;

pub use router::Provider;
pub use router::Router;
pub use router::spec_map_lookup;

pub use cache::CacheEntry;
pub use cache::SemanticCache;
pub use cache::digest_of;
pub use cache::prompt_digest;

pub use model::LlmRequest;
pub use model::LlmResponse;
pub use model::ProviderConfig;
pub use model::ProviderType;
pub use model::TokenUsage;
pub use stats::ProviderStats;
pub use stats::MAX_LATENCY_US;
pub use stats::UNHEALTHY_STREAK;
pub use stats::ewma_settled;
pub use stats::lemma_breaker_opens;
pub use stats::lemma_ewma_convergence;
pub use stats::lemma_success_restores_health;
pub use stats::spec_ewma_iter;
pub use stats::spec_failures;
