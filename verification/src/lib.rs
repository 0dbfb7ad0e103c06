//! Host-resident telemetry bridge core: a subscription-driven fan-out engine
//! where wire clients express interest in topics and the server lazily starts,
//! throttles and tears down the sampling loops needed to satisfy demand.
//!
//! The crate holds the verified logic: the topic grammar, the reference-counted
//! topic registry, the loop manager's start/stop decisions, per-tick sampling
//! plans, event projection onto subscriptions, the IP/CIDR access rules and the
//! configuration commands. Network plumbing and the platform samplers live
//! outside and talk to this crate through plain values.

pub mod auth;
pub mod commands;
pub mod config;
pub mod engine;
pub mod filter;
pub mod ip;
pub mod loops;
pub mod netutil;
pub mod probes;
pub mod procs;
pub mod registry;
pub mod session;
pub mod text;
pub mod types;
pub mod topics;

use vstd::prelude::*;

verus! {

} // verus!
