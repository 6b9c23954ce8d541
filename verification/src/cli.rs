//! The command line's say over the configuration.

use vstd::prelude::*;
use crate::config::{Config, ConfigView};
use crate::text::optional_string;

verus! {

/// The command line as given: the path of the configuration file, and each
/// option that was supplied. An option that was not supplied is `None`,
/// whatever its default would be.
#[derive(Debug)]
pub struct Cli {
    pub config: String,
    pub host: Option<String>,
    pub port: Option<u16>,
    pub strategy: Option<String>,
    pub health_check_interval: Option<u64>,
}

/// What a [`Cli`] is, mathematically.
pub struct CliView {
    pub config: Seq<char>,
    pub host: Option<Seq<char>>,
    pub port: Option<u16>,
    pub strategy: Option<Seq<char>>,
    pub health_check_interval: Option<u64>,
}

impl View for Cli {
    type V = CliView;

    open spec fn view(&self) -> CliView {
        CliView {
            config: self.config@,
            host: optional_string(self.host),
            port: self.port,
            strategy: optional_string(self.strategy),
            health_check_interval: self.health_check_interval,
        }
    }
}

/// Why no configuration is in force.
#[derive(Debug, Clone, Copy, PartialEq, Eq, Structural)]
pub enum ConfigError {
    /// The configuration file could not be read or parsed.
    NotLoaded,
}

/// The configuration in force: the file's, with each option that was
/// supplied on the command line in place of the file's; the backends are
/// always the file's.
pub open spec fn effective_config(cli: CliView, file: ConfigView) -> ConfigView {
    ConfigView {
        host: match cli.host {
            Some(host) => host,
            None => file.host,
        },
        port: match cli.port {
            Some(port) => port,
            None => file.port,
        },
        lb_strategy: match cli.strategy {
            Some(strategy) => strategy,
            None => file.lb_strategy,
        },
        health_check_interval: match cli.health_check_interval {
            Some(interval) => interval,
            None => file.health_check_interval,
        },
        backends: file.backends,
    }
}

impl Cli {
    /// The configuration in force, from the command line and what the
    /// configuration file held. Without a loaded file there is none: that
    /// is an error, whatever the command line says.
    pub fn parse(self, loaded: Option<Config>) -> (result: Result<Config, ConfigError>)
        ensures
            match loaded {
                Some(file) => result is Ok && result->Ok_0@ == effective_config(self@, file@),
                None => result == Err::<Config, ConfigError>(ConfigError::NotLoaded),
            },
    {
        match loaded {
            Some(file) => {
                let mut config = file;
                match self.host {
                    Some(host) => {
                        config.host = host;
                    },
                    None => {},
                }
                match self.port {
                    Some(port) => {
                        config.port = port;
                    },
                    None => {},
                }
                match self.strategy {
                    Some(strategy) => {
                        config.lb_strategy = strategy;
                    },
                    None => {},
                }
                match self.health_check_interval {
                    Some(interval) => {
                        config.health_check_interval = interval;
                    },
                    None => {},
                }
                Ok(config)
            },
            None => Err(ConfigError::NotLoaded),
        }
    }
}

} // verus!
