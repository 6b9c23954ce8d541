//! A reverse-proxy load balancer core: backend pool, selection policies and
//! the request pipeline's decisions, with machine-checked contracts.

pub mod accounting;
pub mod backend;
pub mod cli;
pub mod config;
pub mod fairness;
pub mod gzip;
pub mod history;
pub mod http;
pub mod lb;
pub mod model;
pub mod proxy;
mod random;
pub mod text;

pub use lb::LoadBalancer;
pub use proxy::ProxyHandler;
