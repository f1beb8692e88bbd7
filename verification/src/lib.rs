//! An OpenAI-compatible model-routing control plane, verified with Verus.
//!
//! Backends advertise the models they serve (`/v1/models`) and a load signal
//! (`/metrics`).  This library holds the logic of the routing fabric built on
//! those signals: aggregation of per-endpoint model catalogs into a fleet
//! state, generation of proxy clusters and routes from that state, the
//! versioned snapshot bus, the state-of-the-world discovery stream engine,
//! the jittered poll scheduler, and the request-side decisions of the direct
//! proxy.  All text is carried as bytes; the I/O shell around the library
//! converts at its edges.

pub mod ads;
pub mod aggregate;
pub mod ascii;
pub mod bytes_order;
pub mod config_text;
pub mod decimal;
pub mod generator;
pub mod json_text;
pub mod laws;
pub mod naming;
pub mod openmetrics;
pub mod pool;
pub mod processor;
pub mod proxy;
pub mod reporter;
pub mod resources;
pub mod schemas;
pub mod ticker;
pub mod upstream;
pub mod views;
pub mod vllm;

use vstd::prelude::*;

verus! {

/// Greatest value the load signal is trusted up to: a pending count above
/// this bound is clamped before it enters the weight formula, so a single
/// stuck backend cannot blow the weights up.
pub const PENDING_CAP: u64 = 1_000_000;

} // verus!
