//! The configuration that a pool is built from.

use vstd::prelude::*;

verus! {

/// One backend as configured; a missing weight counts as 1.
#[derive(Debug)]
pub struct BackendConfig {
    pub name: String,
    pub url: String,
    pub weight: Option<u32>,
}

/// What a [`BackendConfig`] is, mathematically.
pub struct BackendConfigView {
    pub name: Seq<char>,
    pub url: Seq<char>,
    pub weight: Option<u32>,
}

impl View for BackendConfig {
    type V = BackendConfigView;

    open spec fn view(&self) -> BackendConfigView {
        BackendConfigView { name: self.name@, url: self.url@, weight: self.weight }
    }
}

/// The whole configuration.
#[derive(Debug)]
pub struct Config {
    pub host: String,
    pub port: u16,
    pub lb_strategy: String,
    pub health_check_interval: u64,
    pub backends: Vec<BackendConfig>,
}

/// What a [`Config`] is, mathematically.
pub struct ConfigView {
    pub host: Seq<char>,
    pub port: u16,
    pub lb_strategy: Seq<char>,
    pub health_check_interval: u64,
    pub backends: Seq<BackendConfigView>,
}

/// A list of configured backends as the model sees it.
pub open spec fn backend_config_views(backends: Seq<BackendConfig>) -> Seq<BackendConfigView> {
    Seq::new(backends.len(), |j: int| backends[j]@)
}

impl View for Config {
    type V = ConfigView;

    open spec fn view(&self) -> ConfigView {
        ConfigView {
            host: self.host@,
            port: self.port,
            lb_strategy: self.lb_strategy@,
            health_check_interval: self.health_check_interval,
            backends: backend_config_views(self.backends@),
        }
    }
}

/// Whether every configured weight is a positive number; a missing weight
/// counts as 1.
pub open spec fn positive_weights(config: ConfigView) -> bool {
    forall|j: int| 0 <= j < config.backends.len() ==> (#[trigger] config.backends[j]).weight != Some(0u32)
}

impl Config {
    /// Whether every configured weight is a positive number.
    pub fn has_positive_weights(&self) -> (valid: bool)
        ensures
            valid == positive_weights(self@),
    {
        let mut j: usize = 0;
        while j < self.backends.len()
            invariant
                0 <= j <= self.backends@.len(),
                forall|t: int| 0 <= t < j ==> (#[trigger] self@.backends[t]).weight != Some(0u32),
            decreases self.backends@.len() - j,
        {
            proof {
                assert(self@.backends[j as int] == self.backends@[j as int]@);
            }
            match self.backends[j].weight {
                Some(weight) => {
                    if weight == 0 {
                        return false;
                    }
                },
                None => {},
            }
            j += 1;
        }
        true
    }
}

pub const DEFAULT_PORT: u16 = 3000;

pub const DEFAULT_HEALTH_CHECK_INTERVAL: u64 = 10;

/// Two backends on this machine, for a trial run.
pub open spec fn default_backends() -> Seq<BackendConfigView> {
    seq![
        BackendConfigView { name: "backend-1"@, url: "http://127.0.0.1:8081"@, weight: Some(1u32) },
        BackendConfigView { name: "backend-2"@, url: "http://127.0.0.1:8082"@, weight: Some(1u32) },
    ]
}

/// The configuration for a trial run on one machine: the usual host, port,
/// policy and interval, over two local backends. It is never put in place
/// of a configuration file that could not be loaded.
pub open spec fn default_config() -> ConfigView {
    ConfigView {
        host: "127.0.0.1"@,
        port: DEFAULT_PORT,
        lb_strategy: "round_robin"@,
        health_check_interval: DEFAULT_HEALTH_CHECK_INTERVAL,
        backends: default_backends(),
    }
}

/// Two backends on this machine, for a trial run.
pub fn local_backends() -> (backends: Vec<BackendConfig>)
    ensures
        backend_config_views(backends@) == default_backends(),
{
    let mut backends: Vec<BackendConfig> = Vec::new();
    backends.push(
        BackendConfig {
            name: "backend-1".to_owned(),
            url: "http://127.0.0.1:8081".to_owned(),
            weight: Some(1),
        },
    );
    backends.push(
        BackendConfig {
            name: "backend-2".to_owned(),
            url: "http://127.0.0.1:8082".to_owned(),
            weight: Some(1),
        },
    );
    proof {
        assert(backend_config_views(backends@) =~= default_backends());
    }
    backends
}

impl Default for Config {
    fn default() -> (config: Self)
        ensures
            config@ == default_config(),
    {
        Config {
            host: "127.0.0.1".to_owned(),
            port: DEFAULT_PORT,
            lb_strategy: "round_robin".to_owned(),
            health_check_interval: DEFAULT_HEALTH_CHECK_INTERVAL,
            backends: local_backends(),
        }
    }
}

} // verus!
