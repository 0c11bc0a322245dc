//! A verified core for a slot-polling block listener.
//!
//! The library models the decision logic of a pipeline that tracks an
//! append-only, slot-numbered ledger: discovering newly produced slots
//! relative to a watermark, batching them under a concurrency cap,
//! classifying per-slot fetch outcomes, and recording block metadata in an
//! idempotent store. All network transport stays outside the library; the
//! caller hands in plain values (frontiers, slot lists, fetch outcomes) and
//! receives plain values back.

pub mod block;
pub mod block_store;
pub mod cli;
pub mod scheduler;

use vstd::prelude::*;

verus! {

/// Which transport backend the listener should use.
#[derive(Clone, Copy, PartialEq, Eq, Structural, Debug)]
pub enum Backend {
    /// The structured RPC client.
    Structured,
    /// The raw HTTP + JSON-RPC client.
    RawJsonRpc,
}

} // verus!
