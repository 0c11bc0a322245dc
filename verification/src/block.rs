//! Block metadata and per-slot fetch outcomes.
//!
//! A fetch of one slot ends in one of three ways: a block with its metadata,
//! a skipped slot (the ledger produced no block there — a valid, permanent
//! outcome), or a transport failure (always retryable). The transport hands
//! the library a raw [`BlockReply`]; [`record_of_reply`] turns it into the
//! [`FetchResult`] the scheduler commits.

use vstd::prelude::*;

verus! {

/// The finality tier requested from the data source. Higher tiers never
/// regress once observed.
#[derive(Clone, Copy, PartialEq, Eq, Structural, Debug)]
pub enum CommitmentLevel {
    Processed,
    Confirmed,
    Finalized,
}

impl CommitmentLevel {
    /// The level's name on the wire, as the JSON-RPC protocol spells it.
    pub fn wire_name(&self) -> (s: &'static str)
        ensures
            s@ == (match *self {
                CommitmentLevel::Processed => "processed"@,
                CommitmentLevel::Confirmed => "confirmed"@,
                CommitmentLevel::Finalized => "finalized"@,
            }),
    {
        match *self {
            CommitmentLevel::Processed => "processed",
            CommitmentLevel::Confirmed => "confirmed",
            CommitmentLevel::Finalized => "finalized",
        }
    }
}

/// Immutable metadata of one stored block. Identity is `blockhash`; `slot`
/// is a secondary, queryable attribute.
pub struct BlockRecord {
    /// Opaque identifier of the block; the store's key.
    pub blockhash: String,
    /// Ledger position the block was produced at.
    pub slot: u64,
    /// Slot of the parent block, when the backend reports it.
    pub parent_slot: Option<u64>,
    /// Block height.
    pub height: u64,
    /// Number of transactions, when the backend reports it.
    pub tx_count: Option<u64>,
}

impl BlockRecord {
    /// An equal copy of the record.
    pub fn duplicate(&self) -> (r: BlockRecord)
        ensures
            r == *self,
    {
        BlockRecord {
            blockhash: self.blockhash.clone(),
            slot: self.slot,
            parent_slot: self.parent_slot,
            height: self.height,
            tx_count: self.tx_count,
        }
    }
}

/// What the data source answered for one slot, as plain values. The
/// transport adapter builds this from its wire response.
pub enum BlockReply {
    /// The source returned a block; `height` and `tx_count` may be absent at
    /// the queried detail level.
    Present {
        blockhash: String,
        parent_slot: Option<u64>,
        height: Option<u64>,
        tx_count: Option<u64>,
    },
    /// The source reports no block for the slot.
    NoBlock,
    /// A network or protocol failure; the slot must be retried.
    Transport,
}

/// The scheduler-facing outcome of fetching one slot.
pub enum FetchResult {
    /// A block to record in the store.
    Block(BlockRecord),
    /// The slot has no block at the queried detail level: terminal, never
    /// retried, never stored.
    Skipped,
    /// Transient failure: the slot is re-enqueued for a later cycle.
    TransportFailure,
}

/// The outcome that a reply for `slot` classifies to: a block without a
/// height is treated as skipped, like a slot with no block at all.
pub open spec fn result_of_reply(slot: u64, reply: BlockReply) -> FetchResult {
    match reply {
        BlockReply::Present { blockhash, parent_slot, height, tx_count } => match height {
            Some(h) => FetchResult::Block(
                BlockRecord { blockhash, slot, parent_slot, height: h, tx_count },
            ),
            None => FetchResult::Skipped,
        },
        BlockReply::NoBlock => FetchResult::Skipped,
        BlockReply::Transport => FetchResult::TransportFailure,
    }
}

/// Classify the source's reply for `slot`: a block with a height becomes a
/// [`FetchResult::Block`] record keyed by its blockhash; a missing block or a
/// block without a height is skipped; a transport failure is retryable.
pub fn record_of_reply(slot: u64, reply: BlockReply) -> (r: FetchResult)
    ensures
        r == result_of_reply(slot, reply),
{
    match reply {
        BlockReply::Present { blockhash, parent_slot, height, tx_count } => match height {
            Some(h) => FetchResult::Block(
                BlockRecord { blockhash, slot, parent_slot, height: h, tx_count },
            ),
            None => FetchResult::Skipped,
        },
        BlockReply::NoBlock => FetchResult::Skipped,
        BlockReply::Transport => FetchResult::TransportFailure,
    }
}

} // verus!
