//! Command-line configuration, as plain values.
//!
//! Argument parsing itself happens outside the library; this module holds the
//! parsed configuration and the one decision made from it: which transport
//! backend to run.

use vstd::prelude::*;
use crate::Backend;

verus! {

/// Parsed command-line arguments.
pub struct Args {
    /// Address of the remote chain-data service.
    pub rpc_addr: String,
    /// Select the raw HTTP + JSON-RPC backend instead of the structured one.
    pub use_reqwest: bool,
}

impl Args {
    /// The backend the listener runs with: raw JSON-RPC exactly when
    /// `use_reqwest` was given.
    pub fn backend(&self) -> (b: Backend)
        ensures
            b == (if self.use_reqwest {
                Backend::RawJsonRpc
            } else {
                Backend::Structured
            }),
    {
        if self.use_reqwest {
            Backend::RawJsonRpc
        } else {
            Backend::Structured
        }
    }
}

} // verus!
