//! What an operator can configure, and what is wrong with it.

pub mod cidr;
pub mod duration;
pub mod hosts;
pub mod intercept;
pub mod model;
pub mod net;
pub mod validate;
