//! Process-lifetime response counters.

use vstd::prelude::*;

verus! {

/// Counts responses, errors and latency.
#[derive(Debug)]
pub struct Metrics {
    requests: u64,
    errors: u64,
    latency_ms: u128,
}

/// The counters: responses, errors among them, and all latencies together.
pub struct MetricsView {
    pub requests: nat,
    pub errors: nat,
    pub latency_ms: nat,
}

impl View for Metrics {
    type V = MetricsView;

    closed spec fn view(&self) -> MetricsView {
        MetricsView {
            requests: self.requests as nat,
            errors: self.errors as nat,
            latency_ms: self.latency_ms as nat,
        }
    }
}

impl Default for Metrics {
    fn default() -> (r: Self)
        ensures
            r@ == (MetricsView { requests: 0, errors: 0, latency_ms: 0 }),
    {
        Metrics { requests: 0, errors: 0, latency_ms: 0 }
    }
}

/// Totals at one point in time.
#[derive(Debug, Clone, Copy)]
pub struct Snapshot {
    pub requests: u64,
    pub errors: u64,
    pub avg_latency_ms: u64,
}

impl Metrics {
    #[verifier::type_invariant]
    closed spec fn bounded(self) -> bool {
        &&& self.errors <= self.requests
        &&& self.latency_ms <= self.requests * u64::MAX
    }

    /// Counts a completed response.
    pub fn record(&mut self, latency_ms: u64, ok: bool)
        requires
            old(self)@.requests < u64::MAX,
        ensures
            final(self)@ == (MetricsView {
                requests: old(self)@.requests + 1,
                errors: old(self)@.errors + if ok {
                    0nat
                } else {
                    1
                },
                latency_ms: old(self)@.latency_ms + latency_ms as nat,
            }),
    {
        proof {
            use_type_invariant(&*self);
            assert((self.requests + 1) * u64::MAX == self.requests * u64::MAX + u64::MAX)
                by (nonlinear_arith);
            assert(self.requests * u64::MAX <= 0xffff_ffff_ffff_fffe * u64::MAX) by (nonlinear_arith)
                requires
                    self.requests <= 0xffff_ffff_ffff_fffe,
            ;
        }
        let next = Metrics {
            requests: self.requests + 1,
            errors: if ok {
                self.errors
            } else {
                self.errors + 1
            },
            latency_ms: self.latency_ms + latency_ms as u128,
        };
        *self = next;
    }

    /// The totals, with the average latency: zero where nothing was counted.
    pub fn snapshot(&self) -> (r: Snapshot)
        ensures
            r.requests == self@.requests,
            r.errors == self@.errors,
            r.errors <= r.requests,
            r.avg_latency_ms == (if self@.requests == 0 {
                0
            } else {
                self@.latency_ms / self@.requests
            }),
    {
        proof {
            use_type_invariant(self);
        }
        let avg: u64 = if self.requests == 0 {
            0
        } else {
            proof {
                vstd::arithmetic::div_mod::lemma_div_is_ordered(
                    self.latency_ms as int,
                    self.requests * u64::MAX,
                    self.requests as int,
                );
                vstd::arithmetic::div_mod::lemma_div_multiples_vanish(
                    u64::MAX as int,
                    self.requests as int,
                );
            }
            (self.latency_ms / self.requests as u128) as u64
        };
        Snapshot { requests: self.requests, errors: self.errors, avg_latency_ms: avg }
    }
}

} // verus!
