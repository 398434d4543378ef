use vstd::prelude::*;
use crate::model::LlmRequest;
use crate::model::ProviderConfig;
use crate::stats::ProviderStats;
use crate::stats::UNHEALTHY_STREAK;
use crate::stats::MAX_LATENCY_US;

verus! {

/// First-match lookup in the client-to-provider model-name map.
pub open spec fn spec_map_lookup(m: Seq<(String, String)>, name: Seq<char>) -> Option<Seq<char>>
    decreases m.len(),
{
    if m.len() == 0 {
        None
    } else if m[0].0@ == name {
        Some(m[0].1@)
    } else {
        spec_map_lookup(m.drop_first(), name)
    }
}

proof fn lemma_map_lookup_at(m: Seq<(String, String)>, name: Seq<char>, i: int)
    requires
        0 <= i < m.len(),
        m[i].0@ == name,
        forall|j: int| 0 <= j < i ==> m[j].0@ != name,
    ensures
        spec_map_lookup(m, name) == Some(m[i].1@),
    decreases i,
{
    if i > 0 {
        let rest = m.drop_first();
        assert(forall|j: int| 0 <= j < rest.len() ==> rest[j] == m[j + 1]);
        lemma_map_lookup_at(rest, name, i - 1);
    }
}

proof fn lemma_map_lookup_none(m: Seq<(String, String)>, name: Seq<char>)
    requires
        forall|j: int| 0 <= j < m.len() ==> m[j].0@ != name,
    ensures
        spec_map_lookup(m, name) is None,
    decreases m.len(),
{
    if m.len() > 0 {
        let rest = m.drop_first();
        assert(forall|j: int| 0 <= j < rest.len() ==> rest[j] == m[j + 1]);
        lemma_map_lookup_none(rest, name);
    }
}

/// One upstream provider: immutable routing configuration paired with its
/// live performance counters.
#[derive(Debug)]
pub struct Provider {
    pub config: ProviderConfig,
    pub stats: ProviderStats,
}

impl Provider {
    pub open spec fn wf(self) -> bool {
        self.stats.wf()
    }

    pub open spec fn spec_supports(self, model: Seq<char>) -> bool {
        spec_map_lookup(self.config.model_map@, model) is Some
    }

    /// Routing score, lower is better: EWMA latency in microseconds plus the
    /// heavily weighted input cost. This is exactly one thousand times the
    /// policy formula "latency in milliseconds plus one hundred times the
    /// cost term", so it orders candidates identically while staying in
    /// integers.
    pub open spec fn spec_selection_score(self) -> int {
        self.stats.ewma_latency_us + 100 * self.config.cost_micro_per_1k_input
    }

    pub fn new(config: ProviderConfig) -> (p: Provider)
        ensures
            p.config == config,
            p.stats == ProviderStats::spec_zero(),
            p.wf(),
    {
        Provider { config, stats: ProviderStats::new() }
    }

    /// Open/closed circuit breaker: usable until the consecutive-failure
    /// streak reaches the threshold, with no timed recovery.
    pub fn is_healthy(&self) -> (r: bool)
        ensures
            r == self.stats.spec_healthy(),
    {
        self.stats.consec_errors < UNHEALTHY_STREAK
    }

    /// Whether the client-facing model name has an entry in this provider's
    /// model-name map.
    pub fn supports_model(&self, model: &str) -> (r: bool)
        ensures
            r == self.spec_supports(model@),
    {
        let name = model.to_owned();
        let n = self.config.model_map.len();
        let mut i: usize = 0;
        while i < n
            invariant
                n == self.config.model_map@.len(),
                i <= n,
                name@ == model@,
                forall|j: int| 0 <= j < i ==> self.config.model_map@[j].0@ != model@,
            decreases n - i,
        {
            if self.config.model_map[i].0 == name {
                proof {
                    lemma_map_lookup_at(self.config.model_map@, model@, i as int);
                }
                return true;
            }
            i = i + 1;
        }
        proof {
            lemma_map_lookup_none(self.config.model_map@, model@);
        }
        false
    }

    /// The provider-facing model name for a client-facing one: the mapped
    /// name, or the client name unchanged when it is unmapped.
    pub fn resolve_model(&self, model: &String) -> (r: String)
        ensures
            r@ == (match spec_map_lookup(self.config.model_map@, model@) {
                Some(name) => name,
                None => model@,
            }),
    {
        let n = self.config.model_map.len();
        let mut i: usize = 0;
        while i < n
            invariant
                n == self.config.model_map@.len(),
                i <= n,
                forall|j: int| 0 <= j < i ==> self.config.model_map@[j].0@ != model@,
            decreases n - i,
        {
            if self.config.model_map[i].0 == *model {
                proof {
                    lemma_map_lookup_at(self.config.model_map@, model@, i as int);
                }
                return self.config.model_map[i].1.clone();
            }
            i = i + 1;
        }
        proof {
            lemma_map_lookup_none(self.config.model_map@, model@);
        }
        model.clone()
    }

    /// Routing score, lower is better.
    pub fn selection_score(&self) -> (r: u128)
        ensures
            r == self.spec_selection_score(),
    {
        (self.stats.ewma_latency_us as u128) + 100 * (self.config.cost_micro_per_1k_input as u128)
    }
}

/// The dispatcher: an ordered sequence of providers, replaced wholesale on
/// configuration updates, scanned on every selection.
pub struct Router {
    pub providers: Vec<Provider>,
}

impl Router {
    pub open spec fn wf(self) -> bool {
        forall|i: int| 0 <= i < self.providers@.len() ==> (#[trigger] self.providers@[i]).wf()
    }

    /// A provider is a candidate when it supports the requested model and its
    /// breaker is closed.
    pub open spec fn spec_eligible(self, i: int, model: Seq<char>) -> bool {
        &&& self.providers@[i].spec_supports(model)
        &&& self.providers@[i].stats.spec_healthy()
    }

    /// `i` is the provider selection must return: eligible, with the
    /// strictly smallest score among the eligible candidates before it and
    /// no larger a score than any eligible candidate after it — i.e. the
    /// first provider attaining the minimum score, in snapshot order.
    pub open spec fn spec_selects(self, i: int, model: Seq<char>) -> bool {
        &&& 0 <= i < self.providers@.len()
        &&& self.spec_eligible(i, model)
        &&& forall|j: int|
            0 <= j < self.providers@.len() && #[trigger] self.spec_eligible(j, model)
                ==> self.providers@[i].spec_selection_score()
                <= self.providers@[j].spec_selection_score()
        &&& forall|j: int|
            0 <= j < i && #[trigger] self.spec_eligible(j, model)
                ==> self.providers@[i].spec_selection_score()
                < self.providers@[j].spec_selection_score()
    }

    /// Build a dispatcher over fresh providers, one per configuration, in
    /// the given order, each starting with zeroed counters.
    pub fn new(configs: Vec<ProviderConfig>) -> (r: Router)
        ensures
            r.providers@.len() == configs@.len(),
            forall|i: int|
                0 <= i < configs@.len() ==> (#[trigger] r.providers@[i]).config == configs@[i]
                    && r.providers@[i].stats == ProviderStats::spec_zero(),
            r.wf(),
    {
        let ghost orig = configs@;
        let mut configs = configs;
        let mut providers: Vec<Provider> = Vec::new();
        while configs.len() > 0
            invariant
                providers@.len() + configs@.len() == orig.len(),
                configs@ == orig.skip(providers@.len() as int),
                forall|i: int|
                    0 <= i < providers@.len() ==> (#[trigger] providers@[i]).config == orig[i]
                        && providers@[i].stats == ProviderStats::spec_zero(),
            decreases configs@.len(),
        {
            let c = configs.remove(0);
            proof {
                assert(orig.skip(providers@.len() as int)[0] == orig[providers@.len() as int]);
                assert(configs@ == orig.skip(providers@.len() as int + 1));
            }
            providers.push(Provider::new(c));
        }
        Router { providers }
    }

    /// Pick the provider to serve the request, or none: filter the snapshot
    /// to eligible candidates, score each, return the index of the first
    /// candidate with the smallest score.
    pub fn select(&self, req: &LlmRequest) -> (r: Option<usize>)
        ensures
            match r {
                Some(i) => self.spec_selects(i as int, req.model@),
                None => forall|j: int|
                    0 <= j < self.providers@.len() ==> !self.spec_eligible(j, req.model@),
            },
    {
        let n = self.providers.len();
        let mut best: Option<usize> = None;
        let mut best_score: u128 = 0;
        let mut i: usize = 0;
        while i < n
            invariant
                n == self.providers@.len(),
                i <= n,
                match best {
                    Some(b) => {
                        &&& b < i
                        &&& self.spec_eligible(b as int, req.model@)
                        &&& best_score == self.providers@[b as int].spec_selection_score()
                        &&& forall|j: int|
                            0 <= j < i && #[trigger] self.spec_eligible(j, req.model@)
                                ==> best_score <= self.providers@[j].spec_selection_score()
                        &&& forall|j: int|
                            0 <= j < b && #[trigger] self.spec_eligible(j, req.model@)
                                ==> best_score < self.providers@[j].spec_selection_score()
                    },
                    None => forall|j: int|
                        0 <= j < i ==> !self.spec_eligible(j, req.model@),
                },
            decreases n - i,
        {
            let p = &self.providers[i];
            if p.supports_model(req.model.as_str()) && p.is_healthy() {
                let score = p.selection_score();
                let better = match best {
                    Some(_) => score < best_score,
                    None => true,
                };
                if better {
                    best = Some(i);
                    best_score = score;
                }
            }
            i = i + 1;
        }
        best
    }

    /// Install a brand-new provider sequence built from the given
    /// configurations; all previous health and latency history is discarded.
    pub fn update_providers(&mut self, new_configs: Vec<ProviderConfig>)
        ensures
            final(self).providers@.len() == new_configs@.len(),
            forall|i: int|
                0 <= i < new_configs@.len() ==> (#[trigger] final(self).providers@[i]).config
                    == new_configs@[i]
                    && final(self).providers@[i].stats == ProviderStats::spec_zero(),
            final(self).wf(),
    {
        let fresh = Router::new(new_configs);
        self.providers = fresh.providers;
    }

    /// Record a completed call against provider `i`; every other provider is
    /// untouched.
    pub fn record_success(&mut self, i: usize, latency_us: u64)
        requires
            i < old(self).providers@.len(),
            old(self).wf(),
            latency_us <= MAX_LATENCY_US,
            old(self).providers@[i as int].stats.request_count < u64::MAX,
        ensures
            final(self).providers@ == old(self).providers@.update(
                i as int,
                Provider {
                    config: old(self).providers@[i as int].config,
                    stats: old(self).providers@[i as int].stats.spec_record_success(latency_us),
                },
            ),
            final(self).wf(),
    {
        let mut p = self.providers.remove(i);
        p.stats.record_success(latency_us);
        self.providers.insert(i, p);
        proof {
            assert(self.providers@ =~= old(self).providers@.update(
                i as int,
                Provider {
                    config: old(self).providers@[i as int].config,
                    stats: old(self).providers@[i as int].stats.spec_record_success(latency_us),
                },
            ));
        }
    }

    /// Record a failed call against provider `i`; every other provider is
    /// untouched.
    pub fn record_failure(&mut self, i: usize)
        requires
            i < old(self).providers@.len(),
            old(self).wf(),
            old(self).providers@[i as int].stats.error_count < u64::MAX,
            old(self).providers@[i as int].stats.consec_errors < u32::MAX,
        ensures
            final(self).providers@ == old(self).providers@.update(
                i as int,
                Provider {
                    config: old(self).providers@[i as int].config,
                    stats: old(self).providers@[i as int].stats.spec_record_failure(),
                },
            ),
            final(self).wf(),
    {
        let mut p = self.providers.remove(i);
        p.stats.record_failure();
        self.providers.insert(i, p);
        proof {
            assert(self.providers@ =~= old(self).providers@.update(
                i as int,
                Provider {
                    config: old(self).providers@[i as int].config,
                    stats: old(self).providers@[i as int].stats.spec_record_failure(),
                },
            ));
        }
    }
}

} // verus!
