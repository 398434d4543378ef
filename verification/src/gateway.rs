use vstd::prelude::*;
use crate::cache::SemanticCache;
use crate::cache::digest_of;
use crate::model::LlmRequest;
use crate::model::LlmResponse;
use crate::router::Router;
use crate::stats::MAX_LATENCY_US;

verus! {

/// Shared state of the gateway: the dispatcher and the response cache.
pub struct AppState {
    pub router: Router,
    pub cache: SemanticCache,
}

/// What the orchestrator decides to do with one inbound request.
#[derive(Debug)]
pub enum RequestPlan {
    /// A still-valid cached response: return it, call no provider.
    CacheHit(LlmResponse),
    /// Call the provider at this index of the dispatcher's snapshot.
    CallProvider(usize),
    /// No eligible provider: report the service as unavailable.
    NoProvider,
}

impl AppState {
    pub open spec fn wf(self) -> bool {
        self.router.wf() && self.cache.wf()
    }

    /// Decide one request at time `now` (seconds): a fresh cached response
    /// wins; otherwise the dispatcher picks a provider; otherwise there is
    /// none to call.
    pub fn plan_request(&self, req: &LlmRequest, now: u64) -> (plan: RequestPlan)
        ensures
            match plan {
                RequestPlan::CacheHit(resp) => self.cache.spec_get(digest_of(req.prompt@), now)
                    == Some(resp),
                RequestPlan::CallProvider(i) => self.cache.spec_get(
                    digest_of(req.prompt@),
                    now,
                ) is None && self.router.spec_selects(i as int, req.model@),
                RequestPlan::NoProvider => self.cache.spec_get(digest_of(req.prompt@), now) is None
                    && (forall|j: int|
                    0 <= j < self.router.providers@.len() ==> !self.router.spec_eligible(
                        j,
                        req.model@,
                    )),
            },
    {
        if let Some(resp) = self.cache.get(req.prompt.as_str(), now) {
            return RequestPlan::CacheHit(resp);
        }
        match self.router.select(req) {
            Some(i) => RequestPlan::CallProvider(i),
            None => RequestPlan::NoProvider,
        }
    }

    /// Settle a successful provider call: fold the measured latency into the
    /// provider's counters, stamp the response with it (milliseconds), cache
    /// the stamped response under the prompt, and hand it back.
    pub fn complete_success(
        &mut self,
        i: usize,
        prompt: &str,
        response: LlmResponse,
        latency_us: u64,
        now: u64,
    ) -> (r: LlmResponse)
        requires
            old(self).wf(),
            i < old(self).router.providers@.len(),
            latency_us <= MAX_LATENCY_US,
            old(self).router.providers@[i as int].stats.request_count < u64::MAX,
            now + old(self).cache.ttl_secs <= u64::MAX,
        ensures
            final(self).wf(),
            r.content == response.content,
            r.usage == response.usage,
            r.provider == response.provider,
            r.latency_ms == latency_us / 1000,
            final(self).router.providers@.len() == old(self).router.providers@.len(),
            final(self).router.providers@[i as int].config == old(
                self,
            ).router.providers@[i as int].config,
            final(self).router.providers@[i as int].stats == old(
                self,
            ).router.providers@[i as int].stats.spec_record_success(latency_us),
            forall|j: int|
                0 <= j < old(self).router.providers@.len() && j != i
                    ==> final(self).router.providers@[j] == old(self).router.providers@[j],
            final(self).cache.max_capacity == old(self).cache.max_capacity,
            final(self).cache.ttl_secs == old(self).cache.ttl_secs,
            old(self).cache.max_capacity == 0 ==> final(self).cache == old(self).cache,
            old(self).cache.max_capacity > 0 ==> SemanticCache::spec_put_effect(
                old(self).cache,
                final(self).cache,
                digest_of(prompt@),
                r,
                (now + old(self).cache.ttl_secs) as u64,
            ),
    {
        self.router.record_success(i, latency_us);
        let stamped = LlmResponse {
            content: response.content,
            usage: response.usage,
            provider: response.provider,
            latency_ms: latency_us / 1000,
        };
        let cached = stamped.clone();
        self.cache.put(prompt, cached, now);
        stamped
    }

    /// Settle a failed provider call: bump the provider's error counters;
    /// the cache is untouched and nothing is retried.
    pub fn complete_failure(&mut self, i: usize)
        requires
            old(self).wf(),
            i < old(self).router.providers@.len(),
            old(self).router.providers@[i as int].stats.error_count < u64::MAX,
            old(self).router.providers@[i as int].stats.consec_errors < u32::MAX,
        ensures
            final(self).wf(),
            final(self).router.providers@.len() == old(self).router.providers@.len(),
            final(self).router.providers@[i as int].config == old(
                self,
            ).router.providers@[i as int].config,
            final(self).router.providers@[i as int].stats == old(
                self,
            ).router.providers@[i as int].stats.spec_record_failure(),
            forall|j: int|
                0 <= j < old(self).router.providers@.len() && j != i
                    ==> final(self).router.providers@[j] == old(self).router.providers@[j],
            final(self).cache == old(self).cache,
    {
        self.router.record_failure(i);
    }
}

} // verus!
