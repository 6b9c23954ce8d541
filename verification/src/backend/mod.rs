//! Backends, the pool that holds them and the prober that watches them.

pub mod healthcheck;
pub mod pool;
pub mod server;

pub use healthcheck::HealthCheck;
pub use pool::BackendPool;
pub use server::{Backend, BackendStatus, BackendView, LoadBalancingStrategy};
