//! The health prober's decisions: where to probe, what a probe's outcome
//! means, and how a round of outcomes is published.

use vstd::prelude::*;
use crate::backend::{Backend, BackendStatus};
use crate::backend::pool::BackendPool;
use crate::text::join;

verus! {

/// Seconds after which a probe counts as failed.
pub const PROBE_TIMEOUT_SECS: u64 = 3;

/// The prober's settings: the seconds between rounds and the URL of the
/// load balancer, through whose liveness endpoint it probes.
#[derive(Debug)]
pub struct HealthCheck {
    pub interval_secs: u64,
    pub load_balancer_url: String,
}

/// Whether a status code reports success.
pub open spec fn is_success(code: u16) -> bool {
    200 <= code < 300
}

/// The status that a probe's outcome stands for: `Healthy` for a response
/// that reports success, `Unhealthy` for every other response and for no
/// response at all.
pub open spec fn probed_status(outcome: Option<u16>) -> BackendStatus {
    match outcome {
        Some(code) => if is_success(code) {
            BackendStatus::Healthy
        } else {
            BackendStatus::Unhealthy
        },
        None => BackendStatus::Unhealthy,
    }
}

impl HealthCheck {
    /// A prober with the given settings.
    pub fn new(interval_secs: u64, load_balancer_url: String) -> (prober: Self)
        ensures
            prober.interval_secs == interval_secs,
            prober.load_balancer_url == load_balancer_url,
    {
        HealthCheck { interval_secs, load_balancer_url }
    }

    /// The URL to probe for `backend`: the load balancer's liveness endpoint
    /// under the backend's name.
    pub fn probe_url(&self, backend: &Backend) -> (url: String)
        ensures
            url@ == self.load_balancer_url@ + "/health/"@ + backend.name@,
    {
        let mut url = join(self.load_balancer_url.as_str(), "/health/");
        url.append(backend.name.as_str());
        url
    }

    /// The status that one probe's outcome stands for; `None` is a
    /// transport error or a timeout.
    pub fn check_single_backend(outcome: Option<u16>) -> (status: BackendStatus)
        ensures
            status == probed_status(outcome),
    {
        match outcome {
            Some(code) => {
                if 200 <= code && code < 300 {
                    BackendStatus::Healthy
                } else {
                    BackendStatus::Unhealthy
                }
            },
            None => BackendStatus::Unhealthy,
        }
    }

    /// Publishes one round of probes. `outcomes[j]` belongs to entry `j`;
    /// where the probe did not complete it is `None`, and the entry keeps
    /// the status it had. Counters, backends and everything else stay.
    pub fn check_all_backends(pool: &mut BackendPool, outcomes: &Vec<Option<Option<u16>>>)
        ensures
            final(pool)@.entries.len() == old(pool)@.entries.len(),
            forall|j: int|
                0 <= j < old(pool)@.entries.len() ==> {
                    &&& (#[trigger] final(pool)@.entries[j]).backend == old(pool)@.entries[j].backend
                    &&& final(pool)@.entries[j].inflight == old(pool)@.entries[j].inflight
                    &&& final(pool)@.entries[j].status == if j < outcomes@.len()
                        && outcomes@[j] is Some {
                        probed_status(outcomes@[j]->0)
                    } else {
                        old(pool)@.entries[j].status
                    }
                },
            final(pool)@.strategy == old(pool)@.strategy,
            final(pool)@.cursor == old(pool)@.cursor,
            final(pool)@.expanded == old(pool)@.expanded,
            final(pool)@.generation == old(pool)@.generation,
            final(pool)@.last_hash == old(pool)@.last_hash,
    {
        let mut j: usize = 0;
        while j < outcomes.len() && j < pool.entries.len()
            invariant
                0 <= j <= outcomes@.len(),
                j <= pool.entries@.len(),
                pool@.entries.len() == old(pool)@.entries.len(),
                forall|t: int|
                    0 <= t < old(pool)@.entries.len() ==> {
                        &&& (#[trigger] pool@.entries[t]).backend == old(pool)@.entries[t].backend
                        &&& pool@.entries[t].inflight == old(pool)@.entries[t].inflight
                        &&& pool@.entries[t].status == if t < j && outcomes@[t] is Some {
                            probed_status(outcomes@[t]->0)
                        } else {
                            old(pool)@.entries[t].status
                        }
                    },
                pool@.strategy == old(pool)@.strategy,
                pool@.cursor == old(pool)@.cursor,
                pool@.expanded == old(pool)@.expanded,
                pool@.generation == old(pool)@.generation,
                pool@.last_hash == old(pool)@.last_hash,
            decreases outcomes@.len() - j,
        {
            match outcomes[j] {
                Some(outcome) => {
                    let status = Self::check_single_backend(outcome);
                    pool.update_backend_status(j, status);
                },
                None => {},
            }
            j += 1;
        }
    }
}

} // verus!
