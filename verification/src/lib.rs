//! A Minecraft gateway: the parts that decide, parse, encode and count.
//!
//! Executable code with proved contracts. Sockets, files, timers and the command
//! line live in the application around the library; what is trusted of other
//! crates is declared next to its use.

pub mod bytes;
pub mod config;
pub mod forwarding;
pub mod gateway;
pub mod json;
pub mod metrics;
pub mod net;
pub mod node;
pub mod order;
pub mod protocol;
pub mod routing;
pub mod text;
pub mod time;
