//! How the gateway reaches a backend, and how the backend learns who is
//! calling.
//!
//! Address information only ever flows outward, from the gateway's own accepted
//! connections. Nothing a client sends is forwarded as identity.

pub mod connect;
pub mod inbound;
pub mod proxy_protocol;
pub mod transparent;
