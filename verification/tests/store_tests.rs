use block_listener::block::{BlockRecord, BlockReply, CommitmentLevel, FetchResult};
use block_listener::block_store::BlockStore;
use block_listener::cli::Args;
use block_listener::Backend;

fn record(hash: &str, slot: u64, height: u64) -> BlockRecord {
    BlockRecord {
        blockhash: hash.to_string(),
        slot,
        parent_slot: None,
        height,
        tx_count: None,
    }
}

#[test]
fn add_block_is_idempotent() {
    let mut store = BlockStore::new();
    store.add_block(record("h1", 10, 1));
    assert_eq!(store.len(), 1);
    // The same record again: the size does not change and the stored record
    // is unaffected.
    store.add_block(record("h1", 10, 1));
    assert_eq!(store.len(), 1);
    let rec = store.get(&"h1".to_string()).expect("present");
    assert_eq!(rec.slot, 10);
    assert_eq!(rec.height, 1);
}

#[test]
fn add_block_latest_wins_per_hash() {
    let mut store = BlockStore::new();
    store.add_block(record("h1", 10, 1));
    store.add_block(record("h1", 10, 2));
    assert_eq!(store.len(), 1);
    assert_eq!(store.get(&"h1".to_string()).expect("present").height, 2);
}

#[test]
fn get_distinguishes_present_and_absent() {
    let mut store = BlockStore::new();
    assert!(store.get(&"h1".to_string()).is_none());
    store.add_block(record("h1", 10, 1));
    store.add_block(record("h2", 11, 2));
    assert_eq!(store.get(&"h2".to_string()).expect("present").slot, 11);
    assert!(store.get(&"h3".to_string()).is_none());
}

#[test]
fn latest_returns_record_of_highest_slot() {
    let mut store = BlockStore::new();
    assert!(store.latest().is_none());
    store.add_block(record("h1", 10, 1));
    store.add_block(record("h3", 30, 3));
    store.add_block(record("h2", 20, 2));
    let latest = store.latest().expect("nonempty");
    assert_eq!(latest.slot, 30);
    assert_eq!(latest.blockhash, "h3");
}

#[test]
fn reply_with_height_becomes_a_record() {
    let reply = BlockReply::Present {
        blockhash: "abc".to_string(),
        parent_slot: Some(41),
        height: Some(7),
        tx_count: Some(3),
    };
    match block_listener::block::record_of_reply(42, reply) {
        FetchResult::Block(rec) => {
            assert_eq!(rec.blockhash, "abc");
            assert_eq!(rec.slot, 42);
            assert_eq!(rec.parent_slot, Some(41));
            assert_eq!(rec.height, 7);
            assert_eq!(rec.tx_count, Some(3));
        }
        _ => panic!("a reply with a height must become a block"),
    }
}

#[test]
fn reply_without_height_is_skipped() {
    let reply = BlockReply::Present {
        blockhash: "abc".to_string(),
        parent_slot: None,
        height: None,
        tx_count: None,
    };
    assert!(matches!(
        block_listener::block::record_of_reply(42, reply),
        FetchResult::Skipped
    ));
    assert!(matches!(
        block_listener::block::record_of_reply(42, BlockReply::NoBlock),
        FetchResult::Skipped
    ));
}

#[test]
fn transport_reply_is_retryable() {
    assert!(matches!(
        block_listener::block::record_of_reply(42, BlockReply::Transport),
        FetchResult::TransportFailure
    ));
}

#[test]
fn commitment_levels_have_their_wire_names() {
    assert_eq!(CommitmentLevel::Processed.wire_name(), "processed");
    assert_eq!(CommitmentLevel::Confirmed.wire_name(), "confirmed");
    assert_eq!(CommitmentLevel::Finalized.wire_name(), "finalized");
}

#[test]
fn backend_selection_follows_flag() {
    let args = Args { rpc_addr: "http://localhost:8899".to_string(), use_reqwest: false };
    assert_eq!(args.backend(), Backend::Structured);
    let args = Args { rpc_addr: "http://localhost:8899".to_string(), use_reqwest: true };
    assert_eq!(args.backend(), Backend::RawJsonRpc);
}
