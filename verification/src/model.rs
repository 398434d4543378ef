use vstd::prelude::*;

verus! {

/// A chat-completion request as the dispatch core sees it: the model name
/// picks a provider, the prompt text keys the response cache.
#[derive(Debug)]
pub struct LlmRequest {
    pub model: String,
    pub prompt: String,
    pub max_tokens: Option<u32>,
}

#[derive(Debug, Clone, Copy)]
pub struct TokenUsage {
    pub prompt_tokens: u32,
    pub completion_tokens: u32,
    pub total_tokens: u32,
}

#[derive(Debug)]
pub struct LlmResponse {
    pub content: String,
    pub usage: TokenUsage,
    pub provider: String,
    pub latency_ms: u64,
}

impl Clone for LlmResponse {
    fn clone(&self) -> (res: LlmResponse)
        ensures
            res == *self,
    {
        LlmResponse {
            content: self.content.clone(),
            usage: self.usage,
            provider: self.provider.clone(),
            latency_ms: self.latency_ms,
        }
    }
}

/// Immutable routing configuration for one upstream provider.
///
/// Costs are carried as micro-currency-units per 1000 tokens so that the
/// selection score stays in exact integer arithmetic; `model_map` maps a
/// client-facing model name to the provider-facing one.
#[derive(Debug)]
pub struct ProviderConfig {
    pub id: String,
    pub name: String,
    pub endpoint: String,
    pub api_key: String,
    pub cost_micro_per_1k_input: u64,
    pub cost_micro_per_1k_output: u64,
    pub model_map: Vec<(String, String)>,
}

#[derive(Debug, Clone, Copy, PartialEq, Eq, Structural)]
pub enum ProviderType {
    OpenAI,
    Anthropic,
    Local,
    Ollama,
}

} // verus!
