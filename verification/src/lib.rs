//! A client-side feature-flag evaluation engine: a rule compiler that turns a
//! declarative feature catalogue into compiled per-feature predicates, the
//! deterministic hashing used for rollouts and variant selection, the
//! constraint language and its semantics, a snapshot holder with usage
//! counters, and the decision logic of the refresh/metrics lifecycle.
//!
//! Every public operation carries a contract; the transport, clock and other
//! I/O stay outside and hand the engine plain values.
pub mod api;
pub mod client;
pub mod config;
pub mod constraint;
pub mod context;
pub mod engine;
pub mod hash;
pub mod ipaddr;
pub mod numdec;
pub mod strategy;
pub mod strutil;
pub mod vercmp;
pub mod version;

pub use crate::client::{Client, ClientBuilder};
pub use crate::config::EnvironmentConfig;
pub use crate::context::Context;
