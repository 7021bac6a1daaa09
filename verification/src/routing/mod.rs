//! Routing: hostname to target, target to backend, and the health state that
//! keeps dead backends out of the answer.

pub mod matcher;
pub mod ping;
pub mod registry;
