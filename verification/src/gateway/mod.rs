//! The routed gateway: admission, sessions, status pages and reloads.

pub mod app;
pub mod collector;
pub mod connection;
pub mod limits;
pub mod motd;
pub mod observe;
pub mod session;
