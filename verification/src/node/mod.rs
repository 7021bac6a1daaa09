//! The hosting-node mode: an invisible layer in front of every game server on a
//! port range that adds a line to their MOTD.

pub mod config;
pub mod connection;
pub mod intercept;
pub mod motd;
pub mod observe;
pub mod server;
