use vstd::prelude::*;
use vstd::arithmetic::div_mod::{lemma_div_is_ordered, lemma_fundamental_div_mod_converse};
use vstd::arithmetic::mul::lemma_mul_upper_bound;
use vstd::math::abs;

verus! {

/// Largest latency sample (microseconds) the tracker accepts: `u64::MAX / 8`,
/// which keeps the weighted-average arithmetic inside `u64`.
pub const MAX_LATENCY_US: u64 = 0x1FFF_FFFF_FFFF_FFFF;

/// Number of consecutive failed calls at which a provider counts as unhealthy.
pub const UNHEALTHY_STREAK: u32 = 5;

/// Per-provider performance counters: request and error totals, an
/// exponentially-weighted moving average of call latency (microseconds,
/// smoothing factor 1/8), and the current run of consecutive failures.
#[derive(Debug, Clone, Copy)]
pub struct ProviderStats {
    pub request_count: u64,
    pub error_count: u64,
    pub ewma_latency_us: u64,
    pub consec_errors: u32,
}

impl ProviderStats {
    /// The moving average never exceeds any sample that went into it, so it
    /// stays under the per-sample cap.
    pub open spec fn wf(self) -> bool {
        self.ewma_latency_us <= MAX_LATENCY_US
    }

    pub open spec fn spec_zero() -> ProviderStats {
        ProviderStats { request_count: 0, error_count: 0, ewma_latency_us: 0, consec_errors: 0 }
    }

    /// One step of the latency average: the first sample is taken as-is,
    /// after that `new = (old * 7 + sample) / 8`.
    pub open spec fn spec_ewma_step(old_avg: int, sample: int) -> int {
        if old_avg == 0 {
            sample
        } else {
            (old_avg * 7 + sample) / 8
        }
    }

    pub open spec fn spec_record_success(self, latency_us: u64) -> ProviderStats {
        ProviderStats {
            request_count: (self.request_count + 1) as u64,
            error_count: self.error_count,
            ewma_latency_us: Self::spec_ewma_step(
                self.ewma_latency_us as int,
                latency_us as int,
            ) as u64,
            consec_errors: 0,
        }
    }

    pub open spec fn spec_record_failure(self) -> ProviderStats {
        ProviderStats {
            request_count: self.request_count,
            error_count: (self.error_count + 1) as u64,
            ewma_latency_us: self.ewma_latency_us,
            consec_errors: (self.consec_errors + 1) as u32,
        }
    }

    /// The breaker is closed (provider usable) while the failure streak is
    /// under the threshold.
    pub open spec fn spec_healthy(self) -> bool {
        self.consec_errors < UNHEALTHY_STREAK
    }

    /// Advisory score, lower is better: latency escalated by a factor of
    /// eleven per additional consecutive failure.
    pub open spec fn spec_score(self) -> int {
        self.ewma_latency_us * (1 + 10 * self.consec_errors)
    }

    pub fn new() -> (s: ProviderStats)
        ensures
            s == Self::spec_zero(),
    {
        ProviderStats { request_count: 0, error_count: 0, ewma_latency_us: 0, consec_errors: 0 }
    }

    /// A completed call: bump the request total, clear the failure streak,
    /// and fold the observed latency into the moving average.
    pub fn record_success(&mut self, latency_us: u64)
        requires
            old(self).wf(),
            latency_us <= MAX_LATENCY_US,
            old(self).request_count < u64::MAX,
        ensures
            *final(self) == old(self).spec_record_success(latency_us),
            final(self).wf(),
    {
        self.request_count = self.request_count + 1;
        self.consec_errors = 0;
        let old_avg = self.ewma_latency_us;
        proof {
            lemma_ewma_step_le_cap(old_avg as int, latency_us as int, MAX_LATENCY_US as int);
        }
        let new_avg = if old_avg == 0 {
            latency_us
        } else {
            (old_avg * 7 + latency_us) / 8
        };
        self.ewma_latency_us = new_avg;
    }

    /// A failed call: bump the error total and the failure streak.
    pub fn record_failure(&mut self)
        requires
            old(self).error_count < u64::MAX,
            old(self).consec_errors < u32::MAX,
        ensures
            *final(self) == old(self).spec_record_failure(),
    {
        self.error_count = self.error_count + 1;
        self.consec_errors = self.consec_errors + 1;
    }

    /// Advisory score, lower is better.
    pub fn score(&self) -> (r: u128)
        ensures
            r == self.spec_score(),
    {
        let l = self.ewma_latency_us as u128;
        let e = self.consec_errors as u128;
        proof {
            lemma_mul_upper_bound(l as int, u64::MAX as int, 1 + 10 * e, 1 + 10 * u32::MAX as int);
        }
        l * (1 + 10 * e)
    }
}

/// `x / 8` lies between `lo` and `hi` whenever `x` lies between `8 * lo` and
/// `8 * hi + 7`.
proof fn lemma_div8_bounds(x: int, lo: int, hi: int)
    requires
        8 * lo <= x,
        x <= 8 * hi + 7,
    ensures
        lo <= x / 8 <= hi,
{
    lemma_fundamental_div_mod_converse(8 * lo, 8, lo, 0);
    lemma_fundamental_div_mod_converse(8 * hi + 7, 8, hi, 7);
    lemma_div_is_ordered(8 * lo, x, 8);
    lemma_div_is_ordered(x, 8 * hi + 7, 8);
}

/// An average step never exceeds the common cap of its inputs.
proof fn lemma_ewma_step_le_cap(old_avg: int, sample: int, cap: int)
    requires
        0 <= old_avg <= cap,
        0 <= sample <= cap,
    ensures
        0 <= ProviderStats::spec_ewma_step(old_avg, sample) <= cap,
{
    if old_avg != 0 {
        lemma_div8_bounds(old_avg * 7 + sample, 0, cap);
    }
}

/// The latency average after `n` further successes, each with the same
/// constant sample, starting from average `e`.
pub open spec fn spec_ewma_iter(e: int, sample: int, n: nat) -> int
    decreases n,
{
    if n == 0 {
        e
    } else {
        ProviderStats::spec_ewma_step(spec_ewma_iter(e, sample, (n - 1) as nat), sample)
    }
}

/// The average has settled against a constant sample: equal to it up to one
/// rounding step (strictly less than the divisor 8), and positive while the
/// sample is.
pub open spec fn ewma_settled(e: int, sample: int) -> bool {
    if sample == 0 {
        e == 0
    } else {
        1 <= e && sample - 7 <= e && e <= sample
    }
}

/// A settled average is a fixed point of the step.
proof fn lemma_ewma_settled_is_fixed(e: int, sample: int)
    requires
        0 <= sample,
        ewma_settled(e, sample),
    ensures
        ProviderStats::spec_ewma_step(e, sample) == e,
{
    if sample != 0 {
        lemma_fundamental_div_mod_converse(e * 7 + sample, 8, e, sample - e);
    }
}

/// A settled average stays settled, unchanged, through any further run of
/// constant samples.
proof fn lemma_ewma_settled_iter_fixed(e: int, sample: int, n: nat)
    requires
        0 <= sample,
        ewma_settled(e, sample),
    ensures
        spec_ewma_iter(e, sample, n) == e,
    decreases n,
{
    if n > 0 {
        lemma_ewma_settled_iter_fixed(e, sample, (n - 1) as nat);
        lemma_ewma_settled_is_fixed(e, sample);
    }
}

/// An unsettled average moves strictly closer to the constant sample.
proof fn lemma_ewma_step_progress(e: int, sample: int)
    requires
        0 <= e,
        0 <= sample,
        !ewma_settled(e, sample),
    ensures
        0 <= ProviderStats::spec_ewma_step(e, sample),
        abs(ProviderStats::spec_ewma_step(e, sample) - sample) <= abs(e - sample) - 1,
{
    if e == 0 {
        // the first sample is adopted outright
        assert(ProviderStats::spec_ewma_step(e, sample) == sample);
    } else if e > sample {
        // step = (7e + s) / 8 lands in [s, e - 1]
        lemma_div8_bounds(e * 7 + sample, sample, e - 1);
    } else {
        // 1 <= e <= sample - 8: step = (7e + s) / 8 lands in [e + 1, sample]
        lemma_div8_bounds(e * 7 + sample, e + 1, sample);
    }
}

/// Law: repeated successes with one constant latency sample drive the moving
/// average to within one rounding step of that sample after at most
/// `|start - sample|` iterations, and it stays there from then on.
pub proof fn lemma_ewma_convergence(e: int, sample: int, n: nat)
    requires
        0 <= e,
        0 <= sample,
        n >= abs(e - sample),
    ensures
        ewma_settled(spec_ewma_iter(e, sample, n), sample),
    decreases n,
{
    if ewma_settled(e, sample) {
        lemma_ewma_settled_iter_fixed(e, sample, n);
    } else {
        let e1 = ProviderStats::spec_ewma_step(e, sample);
        lemma_ewma_step_progress(e, sample);
        lemma_ewma_iter_shift(e, sample, n);
        lemma_ewma_convergence(e1, sample, (n - 1) as nat);
    }
}

/// Running `n` steps from `e` is one step from `e` followed by `n - 1` steps.
proof fn lemma_ewma_iter_shift(e: int, sample: int, n: nat)
    requires
        n >= 1,
    ensures
        spec_ewma_iter(e, sample, n) == spec_ewma_iter(
            ProviderStats::spec_ewma_step(e, sample),
            sample,
            (n - 1) as nat,
        ),
    decreases n,
{
    let e1 = ProviderStats::spec_ewma_step(e, sample);
    if n == 1 {
        assert(spec_ewma_iter(e, sample, 1) == ProviderStats::spec_ewma_step(
            spec_ewma_iter(e, sample, 0),
            sample,
        ));
        assert(spec_ewma_iter(e1, sample, 0) == e1);
    } else {
        lemma_ewma_iter_shift(e, sample, (n - 1) as nat);
        assert(spec_ewma_iter(e, sample, n) == ProviderStats::spec_ewma_step(
            spec_ewma_iter(e, sample, (n - 1) as nat),
            sample,
        ));
        assert(spec_ewma_iter(e1, sample, (n - 1) as nat) == ProviderStats::spec_ewma_step(
            spec_ewma_iter(e1, sample, (n - 2) as nat),
            sample,
        ));
    }
}

/// The tracker after `n` consecutive failures.
pub open spec fn spec_failures(s: ProviderStats, n: nat) -> ProviderStats
    decreases n,
{
    if n == 0 {
        s
    } else {
        spec_failures(s, (n - 1) as nat).spec_record_failure()
    }
}

/// Law: from any state, five consecutive failures open the breaker.
pub proof fn lemma_breaker_opens(s: ProviderStats)
    requires
        s.consec_errors + 5 <= u32::MAX,
    ensures
        !spec_failures(s, 5).spec_healthy(),
{
    assert(spec_failures(s, 0) == s);
    assert(spec_failures(s, 1) == spec_failures(s, 0).spec_record_failure());
    assert(spec_failures(s, 2) == spec_failures(s, 1).spec_record_failure());
    assert(spec_failures(s, 3) == spec_failures(s, 2).spec_record_failure());
    assert(spec_failures(s, 4) == spec_failures(s, 3).spec_record_failure());
    assert(spec_failures(s, 5) == spec_failures(s, 4).spec_record_failure());
}

/// Law: a single success clears the failure streak and restores health,
/// whatever came before.
pub proof fn lemma_success_restores_health(s: ProviderStats, latency_us: u64)
    ensures
        s.spec_record_success(latency_us).consec_errors == 0,
        s.spec_record_success(latency_us).spec_healthy(),
{
}

} // verus!
