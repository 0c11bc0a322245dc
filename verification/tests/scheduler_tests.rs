use block_listener::block::{BlockRecord, FetchResult};
use block_listener::block_store::BlockStore;
use block_listener::scheduler::FetchScheduler;

fn block_result(hash: &str, slot: u64, height: u64) -> FetchResult {
    FetchResult::Block(BlockRecord {
        blockhash: hash.to_string(),
        slot,
        parent_slot: Some(slot.saturating_sub(1)),
        height,
        tx_count: Some(0),
    })
}

#[test]
fn caught_up_cycle_stores_all_and_backs_off() {
    // Watermark 100; the source reports frontier 103; all three new slots
    // fetch successfully with heights 50, 51, 52.
    let mut scheduler = FetchScheduler::new(100, 16);
    let mut store = BlockStore::new();

    let batch = scheduler.begin_cycle(103);
    assert_eq!(batch, vec![101, 102, 103]);
    assert_eq!(scheduler.watermark, 103);

    let outcomes = vec![
        block_result("a101", 101, 50),
        block_result("a102", 102, 51),
        block_result("a103", 103, 52),
    ];
    scheduler.commit(&mut store, &batch, &outcomes);

    assert_eq!(store.len(), 3);
    assert_eq!(scheduler.watermark, 103);
    assert!(scheduler.retry_queue.is_empty());
    let rec = store.get(&"a102".to_string()).expect("stored");
    assert_eq!(rec.slot, 102);
    assert_eq!(rec.height, 51);

    // No new slots: the next cycle is the idle cycle and mutates nothing.
    let idle = scheduler.begin_cycle(103);
    assert!(idle.is_empty());
    assert_eq!(scheduler.watermark, 103);
    assert_eq!(store.len(), 3);
}

#[test]
fn transient_failure_retries_until_success() {
    // Batch of 5 slots; slot 103 fails twice in transport and succeeds on
    // the third attempt; the others succeed at once.
    let mut scheduler = FetchScheduler::new(100, 16);
    let mut store = BlockStore::new();
    let mut requeue_count_103 = 0;

    // Cycle 1: slots 101..=105 discovered, 103 fails.
    let batch = scheduler.begin_cycle(105);
    assert_eq!(batch, vec![101, 102, 103, 104, 105]);
    let outcomes = vec![
        block_result("b101", 101, 41),
        block_result("b102", 102, 42),
        FetchResult::TransportFailure,
        block_result("b104", 104, 43),
        block_result("b105", 105, 44),
    ];
    scheduler.commit(&mut store, &batch, &outcomes);
    assert_eq!(store.len(), 4);
    assert_eq!(scheduler.retry_queue, vec![103]);
    requeue_count_103 += 1;

    // Cycle 2: one new slot; the retry of 103 goes first and fails again.
    let batch = scheduler.begin_cycle(106);
    assert_eq!(batch, vec![103, 106]);
    let outcomes = vec![FetchResult::TransportFailure, block_result("b106", 106, 45)];
    scheduler.commit(&mut store, &batch, &outcomes);
    assert_eq!(scheduler.retry_queue, vec![103]);
    requeue_count_103 += 1;

    // Cycle 3: the third attempt succeeds.
    let batch = scheduler.begin_cycle(107);
    assert_eq!(batch, vec![103, 107]);
    let outcomes = vec![block_result("b103", 103, 46), block_result("b107", 107, 47)];
    scheduler.commit(&mut store, &batch, &outcomes);

    assert_eq!(requeue_count_103, 2);
    assert!(scheduler.retry_queue.is_empty());
    assert_eq!(store.len(), 7);
    for slot in 101..=105 {
        let rec = store
            .get(&format!("b{slot}"))
            .expect("every slot of the original batch is stored");
        assert_eq!(rec.slot, slot);
    }
}

#[test]
fn skipped_slot_is_never_stored_or_retried() {
    // The source reports slot 110 as skipped; no store entry may appear for
    // it afterwards and no later batch may contain it.
    let mut scheduler = FetchScheduler::new(109, 16);
    let mut store = BlockStore::new();

    let batch = scheduler.begin_cycle(110);
    assert_eq!(batch, vec![110]);
    scheduler.commit(&mut store, &batch, &vec![FetchResult::Skipped]);
    assert_eq!(store.len(), 0);
    assert!(scheduler.retry_queue.is_empty());

    for frontier in 111..=120 {
        let batch = scheduler.begin_cycle(frontier);
        assert!(!batch.contains(&110));
        let outcomes: Vec<FetchResult> = batch
            .iter()
            .map(|slot| block_result(&format!("c{slot}"), *slot, *slot))
            .collect();
        scheduler.commit(&mut store, &batch, &outcomes);
        assert!(!scheduler.retry_queue.contains(&110));
    }
    assert!(store.get(&"c110".to_string()).is_none());
    assert_eq!(store.len(), 10);
}

#[test]
fn batch_never_exceeds_concurrency_cap() {
    let mut scheduler = FetchScheduler::new(0, 16);
    let batch = scheduler.begin_cycle(40);
    assert_eq!(batch.len(), 16);
    assert_eq!(batch, (1..=16).collect::<Vec<u64>>());
    assert_eq!(scheduler.retry_queue, (17..=40).collect::<Vec<u64>>());
    assert_eq!(scheduler.watermark, 40);

    // The queued remainder drains in capped batches on later cycles.
    let batch = scheduler.begin_cycle(41);
    assert_eq!(batch.len(), 16);
    assert_eq!(batch, (17..=32).collect::<Vec<u64>>());
    assert_eq!(scheduler.retry_queue, (33..=41).collect::<Vec<u64>>());
}

#[test]
fn retries_go_to_the_tail_behind_new_work() {
    // Freshness over retry latency: a failed slot is re-enqueued behind the
    // slots the next discovery brings in.
    let mut scheduler = FetchScheduler::new(200, 2);
    let mut store = BlockStore::new();

    let batch = scheduler.begin_cycle(203);
    assert_eq!(batch, vec![201, 202]);
    assert_eq!(scheduler.retry_queue, vec![203]);
    let outcomes = vec![FetchResult::TransportFailure, block_result("d202", 202, 9)];
    scheduler.commit(&mut store, &batch, &outcomes);
    assert_eq!(scheduler.retry_queue, vec![203, 201]);

    let batch = scheduler.begin_cycle(204);
    assert_eq!(batch, vec![203, 201]);
    assert_eq!(scheduler.retry_queue, vec![204]);
}

#[test]
fn stale_frontier_never_rewinds_watermark() {
    let mut scheduler = FetchScheduler::new(500, 16);
    let batch = scheduler.begin_cycle(400);
    assert!(batch.is_empty());
    assert_eq!(scheduler.watermark, 500);
}

#[test]
fn slot_range_edges() {
    assert_eq!(FetchScheduler::slot_range(10, 10), Vec::<u64>::new());
    assert_eq!(FetchScheduler::slot_range(10, 9), Vec::<u64>::new());
    assert_eq!(FetchScheduler::slot_range(10, 11), vec![11]);
    assert_eq!(
        FetchScheduler::slot_range(u64::MAX - 2, u64::MAX),
        vec![u64::MAX - 1, u64::MAX]
    );
}

#[test]
fn mean_latency_is_exact_integer_division() {
    assert_eq!(block_listener::scheduler::mean_latency_millis(100, 3), 33);
    assert_eq!(block_listener::scheduler::mean_latency_millis(0, 5), 0);
    assert_eq!(block_listener::scheduler::mean_latency_millis(7, 7), 1);
}
