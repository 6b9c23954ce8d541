//! The request pipeline: the handler's decisions, the upstream request,
//! response compression and the responses the proxy makes itself.

pub mod compression;
pub mod handler;
pub mod request;
pub mod response;

pub use handler::ProxyHandler;
pub use request::forward_request;
pub use response::handle_proxy_error;
