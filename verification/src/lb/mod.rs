//! The load balancer as configured: its pool and its own address.

pub mod algorithms;

use vstd::prelude::*;
use crate::backend::{Backend, BackendStatus, BackendView, LoadBalancingStrategy};
use crate::config::{positive_weights, BackendConfigView, Config};
use crate::model::{expand, fingerprint, EntryView, FINGERPRINT_SEED};
use crate::backend::pool::{all_positions, BackendPool};
use crate::text::{join, str_equal};

verus! {

/// The load balancer: the configuration, the pool built from it, and the
/// URL it is reached at itself.
#[derive(Debug)]
pub struct LoadBalancer {
    pub config: Config,
    pub backend_pool: BackendPool,
    pub load_balancer_url: String,
}

/// The policy that a configured name stands for; round-robin for every
/// name that is not one of the four.
pub open spec fn strategy_named(name: Seq<char>) -> LoadBalancingStrategy {
    if name == "random"@ {
        LoadBalancingStrategy::Random
    } else if name == "least_connections"@ {
        LoadBalancingStrategy::LeastConnections
    } else if name == "weighted_round_robin"@ {
        LoadBalancingStrategy::WeightedRoundRobin
    } else {
        LoadBalancingStrategy::RoundRobin
    }
}

/// The backend that a configuration entry describes.
pub open spec fn configured_backend(entry: BackendConfigView) -> BackendView {
    BackendView {
        url: entry.url,
        name: entry.name,
        weight: match entry.weight {
            Some(weight) => weight,
            None => 1u32,
        },
    }
}

/// The character of a decimal digit.
pub open spec fn digit(value: nat) -> char {
    if value == 0 {
        '0'
    } else if value == 1 {
        '1'
    } else if value == 2 {
        '2'
    } else if value == 3 {
        '3'
    } else if value == 4 {
        '4'
    } else if value == 5 {
        '5'
    } else if value == 6 {
        '6'
    } else if value == 7 {
        '7'
    } else if value == 8 {
        '8'
    } else {
        '9'
    }
}

/// A number in decimal, without leading zeros.
pub open spec fn decimal(value: nat) -> Seq<char>
    decreases value,
{
    if value < 10 {
        seq![digit(value)]
    } else {
        decimal(value / 10).push(digit(value % 10))
    }
}

/// The URL of the load balancer itself.
pub open spec fn own_url(host: Seq<char>, port: u16) -> Seq<char> {
    "http://"@ + host + ":"@ + decimal(port as nat)
}

fn digit_text(value: u16) -> (text: &'static str)
    requires
        value < 10,
    ensures
        text@ == seq![digit(value as nat)],
{
    proof {
        reveal_strlit("0");
        reveal_strlit("1");
        reveal_strlit("2");
        reveal_strlit("3");
        reveal_strlit("4");
        reveal_strlit("5");
        reveal_strlit("6");
        reveal_strlit("7");
        reveal_strlit("8");
        reveal_strlit("9");
    }
    let text = if value == 0 {
        "0"
    } else if value == 1 {
        "1"
    } else if value == 2 {
        "2"
    } else if value == 3 {
        "3"
    } else if value == 4 {
        "4"
    } else if value == 5 {
        "5"
    } else if value == 6 {
        "6"
    } else if value == 7 {
        "7"
    } else if value == 8 {
        "8"
    } else {
        "9"
    };
    assert(text@ =~= seq![digit(value as nat)]);
    text
}

/// A port number in decimal.
pub fn decimal_text(value: u16) -> (text: String)
    ensures
        text@ == decimal(value as nat),
    decreases value,
{
    if value < 10 {
        digit_text(value).to_owned()
    } else {
        let mut text = decimal_text(value / 10);
        let last = digit_text(value % 10);
        proof {
            assert(text@ + last@ =~= text@.push(digit((value % 10) as nat)));
        }
        text.append(last);
        text
    }
}

/// The policy that a configured name stands for.
pub fn parse_strategy(name: &str) -> (strategy: LoadBalancingStrategy)
    ensures
        strategy == strategy_named(name@),
{
    if str_equal(name, "random") {
        LoadBalancingStrategy::Random
    } else if str_equal(name, "least_connections") {
        LoadBalancingStrategy::LeastConnections
    } else if str_equal(name, "weighted_round_robin") {
        LoadBalancingStrategy::WeightedRoundRobin
    } else {
        LoadBalancingStrategy::RoundRobin
    }
}

impl LoadBalancer {
    /// The load balancer for a configuration whose weights are positive:
    /// one pool entry per configured backend, in order, each `Unknown` and
    /// idle; the configured policy, with the expanded list of all entries
    /// precomputed under weighted round-robin; and the URL made of the
    /// configured host and port.
    pub fn new(config: Config) -> (balancer: Self)
        requires
            positive_weights(config@),
        ensures
            balancer.config == config,
            balancer.backend_pool@.strategy == strategy_named(config.lb_strategy@),
            balancer.backend_pool@.entries.len() == config@.backends.len(),
            forall|j: int|
                0 <= j < config@.backends.len() ==> #[trigger] balancer.backend_pool@.entries[j]
                    == (EntryView {
                    backend: configured_backend(config@.backends[j]),
                    status: BackendStatus::Unknown,
                    inflight: 0,
                }),
            balancer.backend_pool@.cursor == 0,
            balancer.backend_pool@.generation == 0,
            balancer.backend_pool@.healthy().len() == 0,
            strategy_named(config.lb_strategy@) == LoadBalancingStrategy::WeightedRoundRobin ==> {
                &&& balancer.backend_pool@.expanded == expand(
                    balancer.backend_pool@.entries,
                    all_positions(config@.backends.len()),
                )
                &&& balancer.backend_pool@.last_hash == fingerprint(
                    balancer.backend_pool@.entries,
                    all_positions(config@.backends.len()),
                )
            },
            strategy_named(config.lb_strategy@) != LoadBalancingStrategy::WeightedRoundRobin ==> {
                &&& balancer.backend_pool@.expanded.len() == 0
                &&& balancer.backend_pool@.last_hash == FINGERPRINT_SEED
            },
            balancer.load_balancer_url@ == own_url(config.host@, config.port),
    {
        let mut backends: Vec<Backend> = Vec::new();
        let mut j: usize = 0;
        while j < config.backends.len()
            invariant
                0 <= j <= config.backends@.len(),
                backends@.len() == j,
                positive_weights(config@),
                forall|t: int|
                    0 <= t < j ==> (#[trigger] backends@[t])@ == configured_backend(
                        config.backends@[t]@,
                    ),
            decreases config.backends@.len() - j,
        {
            let entry = &config.backends[j];
            proof {
                assert(config@.backends[j as int] == config.backends@[j as int]@);
            }
            let weight = match entry.weight {
                Some(weight) => weight,
                None => 1,
            };
            backends.push(Backend::new(entry.url.clone(), entry.name.clone(), weight));
            j += 1;
        }
        let mut url = join("http://", config.host.as_str());
        url.append(":");
        let port = decimal_text(config.port);
        url.append(port.as_str());
        let strategy = parse_strategy(config.lb_strategy.as_str());
        let backend_pool = BackendPool::new(backends, strategy);
        LoadBalancer { config, backend_pool, load_balancer_url: url }
    }

    /// The pool of this load balancer.
    pub fn get_backend_pool(&self) -> (pool: &BackendPool)
        ensures
            pool == &self.backend_pool,
    {
        &self.backend_pool
    }
}

} // verus!
