//! The polling scheduler: watermark, retry queue, batching and committing.
//!
//! One polling cycle is two steps around the caller's network work. First
//! [`FetchScheduler::begin_cycle`] takes the frontier the data source
//! reported, advances the watermark, and hands back a batch of at most
//! `concurrency_cap` slots to fetch — retries first, newly discovered slots
//! behind them. The caller fetches the batch concurrently (fan-out bounded by
//! the batch size) and then hands every outcome to
//! [`FetchScheduler::commit`], which stores fetched blocks, drops skipped
//! slots for good, and re-enqueues transport failures at the queue's tail so
//! newer work keeps priority.

use vstd::prelude::*;
use crate::block::{BlockRecord, FetchResult};
use crate::block_store::BlockStore;

verus! {

/// The watermark after a cycle that saw `frontier`: the watermark never
/// moves backwards, and advances exactly to a strictly newer frontier.
pub open spec fn next_watermark(wm: u64, frontier: u64) -> u64 {
    if frontier > wm {
        frontier
    } else {
        wm
    }
}

/// The slots newly produced past `wm` up to and including `frontier`:
/// `wm + 1, wm + 2, ..., frontier`, and nothing for a stale frontier.
pub open spec fn discovered_slots(wm: u64, frontier: u64) -> Seq<u64> {
    if frontier > wm {
        Seq::new((frontier - wm) as nat, |i: int| (wm + 1 + i) as u64)
    } else {
        Seq::empty()
    }
}

/// How many slots one cycle fetches out of `pending` queued slots.
pub open spec fn batch_size(cap: usize, pending: nat) -> nat {
    if pending < cap as nat {
        pending
    } else {
        cap as nat
    }
}

/// All work pending once the frontier is known: the queue, then the newly
/// discovered slots behind it.
pub open spec fn cycle_pending(wm: u64, queue: Seq<u64>, frontier: u64) -> Seq<u64> {
    queue + discovered_slots(wm, frontier)
}

/// The batch one cycle dispatches: the head of the pending work, capped at
/// `cap` slots — and nothing at all on a no-progress cycle, which only backs
/// off.
pub open spec fn cycle_batch(cap: usize, wm: u64, queue: Seq<u64>, frontier: u64) -> Seq<u64> {
    if frontier > wm {
        let pending = cycle_pending(wm, queue, frontier);
        pending.take(batch_size(cap, pending.len()) as int)
    } else {
        Seq::empty()
    }
}

/// The retry queue right after batching: the pending work the batch did not
/// take.
pub open spec fn cycle_queue(cap: usize, wm: u64, queue: Seq<u64>, frontier: u64) -> Seq<u64> {
    if frontier > wm {
        let pending = cycle_pending(wm, queue, frontier);
        pending.skip(batch_size(cap, pending.len()) as int)
    } else {
        queue
    }
}

/// The store after committing each outcome in order: every fetched block is
/// inserted under its blockhash; skipped slots and failures store nothing.
pub open spec fn committed_store(
    m: Map<Seq<char>, BlockRecord>,
    outs: Seq<FetchResult>,
) -> Map<Seq<char>, BlockRecord>
    decreases outs.len(),
{
    if outs.len() == 0 {
        m
    } else {
        committed_store(apply_outcome(m, outs[0]), outs.skip(1))
    }
}

/// One outcome's effect on the store.
pub open spec fn apply_outcome(
    m: Map<Seq<char>, BlockRecord>,
    out: FetchResult,
) -> Map<Seq<char>, BlockRecord> {
    match out {
        FetchResult::Block(rec) => m.insert(rec.blockhash@, rec),
        FetchResult::Skipped => m,
        FetchResult::TransportFailure => m,
    }
}

/// The slots a commit re-enqueues: exactly the batch slots whose fetch
/// failed in transport, in batch order.
pub open spec fn requeued(batch: Seq<u64>, outs: Seq<FetchResult>) -> Seq<u64>
    decreases outs.len(),
{
    if outs.len() == 0 || batch.len() == 0 {
        Seq::empty()
    } else {
        let rest = requeued(batch.skip(1), outs.skip(1));
        if outs[0] is TransportFailure {
            seq![batch[0]] + rest
        } else {
            rest
        }
    }
}

/// Driver state of the polling loop: the highest slot already considered for
/// fetching, the slots awaiting (re)fetch, and the fan-out cap.
pub struct FetchScheduler {
    /// Highest slot the scheduler has seen; only ever advances.
    pub watermark: u64,
    /// Slots awaiting fetch or retry, oldest first.
    pub retry_queue: Vec<u64>,
    /// Most slots dispatched concurrently in one cycle.
    pub concurrency_cap: usize,
}

impl FetchScheduler {
    /// A scheduler with an empty queue, starting from `initial_watermark`.
    pub fn new(initial_watermark: u64, concurrency_cap: usize) -> (s: FetchScheduler)
        ensures
            s.watermark == initial_watermark,
            s.retry_queue@ == Seq::<u64>::empty(),
            s.concurrency_cap == concurrency_cap,
    {
        FetchScheduler { watermark: initial_watermark, retry_queue: Vec::new(), concurrency_cap }
    }

    /// The slots `wm + 1 ..= frontier`, empty when the frontier is stale.
    pub fn slot_range(wm: u64, frontier: u64) -> (v: Vec<u64>)
        ensures
            v@ == discovered_slots(wm, frontier),
    {
        let mut v: Vec<u64> = Vec::new();
        if frontier <= wm {
            assert(v@ =~= discovered_slots(wm, frontier));
            return v;
        }
        let count = frontier - wm;
        let mut i: u64 = 0;
        while i < count
            invariant
                wm < frontier,
                count == frontier - wm,
                i <= count,
                v@ =~= discovered_slots(wm, frontier).take(i as int),
            decreases count - i,
        {
            v.push(wm + 1 + i);
            i += 1;
            assert(v@ =~= discovered_slots(wm, frontier).take(i as int));
        }
        assert(v@ =~= discovered_slots(wm, frontier));
        v
    }

    /// Start one cycle from the frontier the source reported. A frontier at
    /// or below the watermark is the idle cycle: nothing changes and the
    /// empty batch tells the caller to back off. A newer frontier advances
    /// the watermark immediately — the watermark tracks slots seen, not
    /// slots stored — queues the newly discovered slots behind the pending
    /// retries, and returns the first `concurrency_cap` of them to fetch.
    pub fn begin_cycle(&mut self, frontier: u64) -> (batch: Vec<u64>)
        ensures
            final(self).concurrency_cap == old(self).concurrency_cap,
            final(self).watermark == next_watermark(old(self).watermark, frontier),
            old(self).watermark <= final(self).watermark,
            batch@ == cycle_batch(
                old(self).concurrency_cap,
                old(self).watermark,
                old(self).retry_queue@,
                frontier,
            ),
            final(self).retry_queue@ == cycle_queue(
                old(self).concurrency_cap,
                old(self).watermark,
                old(self).retry_queue@,
                frontier,
            ),
            batch@.len() <= old(self).concurrency_cap,
            frontier > old(self).watermark ==> batch@ + final(self).retry_queue@ == cycle_pending(
                old(self).watermark,
                old(self).retry_queue@,
                frontier,
            ),
    {
        if frontier <= self.watermark {
            let batch: Vec<u64> = Vec::new();
            assert(batch@ =~= cycle_batch(
                self.concurrency_cap,
                self.watermark,
                self.retry_queue@,
                frontier,
            ));
            return batch;
        }
        let ghost wm0 = self.watermark;
        let ghost q0 = self.retry_queue@;
        let ghost pending = cycle_pending(wm0, q0, frontier);
        let mut fresh = Self::slot_range(self.watermark, frontier);
        self.watermark = frontier;
        if self.retry_queue.len() == 0 && fresh.len() <= self.concurrency_cap {
            proof {
                assert(pending =~= fresh@);
                assert(fresh@ =~= pending.take(batch_size(self.concurrency_cap, pending.len()) as int));
                assert(self.retry_queue@ =~= pending.skip(
                    batch_size(self.concurrency_cap, pending.len()) as int,
                ));
                assert(fresh@ + self.retry_queue@ =~= pending);
            }
            return fresh;
        }
        self.retry_queue.append(&mut fresh);
        assert(self.retry_queue@ == pending);
        let total = self.retry_queue.len();
        let m = if total < self.concurrency_cap {
            total
        } else {
            self.concurrency_cap
        };
        assert(m as nat == batch_size(self.concurrency_cap, pending.len()));
        let mut batch = self.retry_queue.split_off(m);
        core::mem::swap(&mut self.retry_queue, &mut batch);
        proof {
            assert(batch@ =~= pending.take(m as int));
            assert(self.retry_queue@ =~= pending.skip(m as int));
            assert(batch@ + self.retry_queue@ =~= pending);
        }
        batch
    }

    /// Commit the outcomes of one batch, in order: fetched blocks go to the
    /// store under their blockhash; skipped slots are dropped for good;
    /// transport failures put their slot back at the queue's tail, behind
    /// whatever newer work the next discovery will enqueue. The watermark is
    /// untouched.
    pub fn commit(&mut self, store: &mut BlockStore, batch: &Vec<u64>, outcomes: &Vec<FetchResult>)
        requires
            old(store).wf(),
            outcomes@.len() == batch@.len(),
        ensures
            final(self).watermark == old(self).watermark,
            final(self).concurrency_cap == old(self).concurrency_cap,
            final(store).wf(),
            final(store)@ == committed_store(old(store)@, outcomes@),
            final(self).retry_queue@ == old(self).retry_queue@ + requeued(batch@, outcomes@),
    {
        let ghost m0 = store@;
        let ghost q0 = self.retry_queue@;
        let n = batch.len();
        proof {
            assert(outcomes@.skip(0) =~= outcomes@);
            assert(batch@.skip(0) =~= batch@);
        }
        let mut i: usize = 0;
        while i < n
            invariant
                n == batch@.len(),
                outcomes@.len() == n,
                i <= n,
                store.wf(),
                self.watermark == old(self).watermark,
                self.concurrency_cap == old(self).concurrency_cap,
                m0 == old(store)@,
                q0 == old(self).retry_queue@,
                committed_store(m0, outcomes@) == committed_store(
                    store@,
                    outcomes@.skip(i as int),
                ),
                q0 + requeued(batch@, outcomes@) == self.retry_queue@ + requeued(
                    batch@.skip(i as int),
                    outcomes@.skip(i as int),
                ),
            decreases n - i,
        {
            let ghost oi = i as int;
            proof {
                assert(outcomes@.skip(oi).skip(1) =~= outcomes@.skip(oi + 1));
                assert(batch@.skip(oi).skip(1) =~= batch@.skip(oi + 1));
                assert(outcomes@.skip(oi)[0] == outcomes@[oi]);
                assert(batch@.skip(oi)[0] == batch@[oi]);
            }
            match &outcomes[i] {
                FetchResult::Block(rec) => {
                    let dup = rec.duplicate();
                    proof {
                        assert(outcomes@[oi] == FetchResult::Block(dup));
                    }
                    store.add_block(dup);
                },
                FetchResult::Skipped => {},
                FetchResult::TransportFailure => {
                    let ghost qpre = self.retry_queue@;
                    self.retry_queue.push(batch[i]);
                    proof {
                        assert(self.retry_queue@ + requeued(batch@.skip(oi + 1), outcomes@.skip(oi + 1))
                            =~= qpre + requeued(batch@.skip(oi), outcomes@.skip(oi)));
                    }
                },
            }
            i += 1;
        }
        proof {
            assert(outcomes@.skip(n as int) =~= Seq::<FetchResult>::empty());
            assert(batch@.skip(n as int) =~= Seq::<u64>::empty());
            assert(self.retry_queue@ + requeued(
                batch@.skip(n as int),
                outcomes@.skip(n as int),
            ) =~= self.retry_queue@);
        }
    }
}

/// The watermark after a whole run of discovery cycles, one frontier each.
pub open spec fn run_watermark(wm: u64, frontiers: Seq<u64>) -> u64
    decreases frontiers.len(),
{
    if frontiers.len() == 0 {
        wm
    } else {
        run_watermark(next_watermark(wm, frontiers[0]), frontiers.skip(1))
    }
}

/// Monotonic watermark: over any sequence of discovery cycles, whatever
/// frontiers the source reports, the watermark never decreases.
pub proof fn lemma_watermark_monotonic(wm: u64, frontiers: Seq<u64>)
    ensures
        wm <= run_watermark(wm, frontiers),
    decreases frontiers.len(),
{
    if frontiers.len() > 0 {
        lemma_watermark_monotonic(next_watermark(wm, frontiers[0]), frontiers.skip(1));
    }
}

/// No loss on transient failure, requeue half: a batch slot whose fetch
/// failed in transport is among the slots the commit puts back in the queue.
pub proof fn lemma_failed_slot_requeued(batch: Seq<u64>, outs: Seq<FetchResult>, i: int)
    requires
        batch.len() == outs.len(),
        0 <= i < batch.len(),
        outs[i] is TransportFailure,
    ensures
        requeued(batch, outs).contains(batch[i]),
    decreases batch.len(),
{
    if i == 0 {
        assert(requeued(batch, outs)[0] == batch[0]);
    } else {
        lemma_failed_slot_requeued(batch.skip(1), outs.skip(1), i - 1);
        let rest = requeued(batch.skip(1), outs.skip(1));
        let j = choose|j: int| 0 <= j < rest.len() && rest[j] == batch.skip(1)[i - 1];
        if outs[0] is TransportFailure {
            assert(requeued(batch, outs)[j + 1] == batch[i]);
        } else {
            assert(requeued(batch, outs)[j] == batch[i]);
        }
    }
}

/// Committing outcomes never removes a stored block.
pub proof fn lemma_committed_store_preserves(
    m: Map<Seq<char>, BlockRecord>,
    outs: Seq<FetchResult>,
    k: Seq<char>,
)
    requires
        m.contains_key(k),
    ensures
        committed_store(m, outs).contains_key(k),
    decreases outs.len(),
{
    if outs.len() > 0 {
        lemma_committed_store_preserves(apply_outcome(m, outs[0]), outs.skip(1), k);
    }
}

/// No loss on transient failure, success half: once a cycle's fetch of a
/// slot returns a block — on whichever attempt — committing that cycle
/// leaves the block's record in the store.
pub proof fn lemma_success_stored(
    m: Map<Seq<char>, BlockRecord>,
    outs: Seq<FetchResult>,
    i: int,
    rec: BlockRecord,
)
    requires
        0 <= i < outs.len(),
        outs[i] == FetchResult::Block(rec),
    ensures
        committed_store(m, outs).contains_key(rec.blockhash@),
    decreases outs.len(),
{
    if i == 0 {
        lemma_committed_store_preserves(apply_outcome(m, outs[0]), outs.skip(1), rec.blockhash@);
    } else {
        assert(outs.skip(1)[i - 1] == outs[i]);
        lemma_success_stored(apply_outcome(m, outs[0]), outs.skip(1), i - 1, rec);
    }
}

/// Whether one outcome writes the store under hash `k`.
pub open spec fn writes_hash(out: FetchResult, k: Seq<char>) -> bool {
    out matches FetchResult::Block(r) && r.blockhash@ == k
}

/// A hash no outcome writes is untouched by the commit: present exactly as
/// before, with the same record. In particular skipped slots and failures
/// leave no trace in the store.
pub proof fn lemma_committed_store_untouched_key(
    m: Map<Seq<char>, BlockRecord>,
    outs: Seq<FetchResult>,
    k: Seq<char>,
)
    requires
        forall|j: int| 0 <= j < outs.len() ==> !writes_hash(#[trigger] outs[j], k),
    ensures
        committed_store(m, outs).contains_key(k) == m.contains_key(k),
        m.contains_key(k) ==> committed_store(m, outs)[k] == m[k],
    decreases outs.len(),
{
    if outs.len() > 0 {
        assert(!writes_hash(outs[0], k));
        assert(forall|j: int| 0 <= j < outs.skip(1).len() ==> outs.skip(1)[j] == outs[j + 1]);
        lemma_committed_store_untouched_key(apply_outcome(m, outs[0]), outs.skip(1), k);
    }
}

/// The stored record is the fetched one: a block outcome that no later
/// outcome of the batch overrides ends up in the store exactly as fetched.
pub proof fn lemma_fetched_block_stored(
    m: Map<Seq<char>, BlockRecord>,
    outs: Seq<FetchResult>,
    i: int,
    rec: BlockRecord,
)
    requires
        0 <= i < outs.len(),
        outs[i] == FetchResult::Block(rec),
        forall|j: int| i < j < outs.len() ==> !writes_hash(#[trigger] outs[j], rec.blockhash@),
    ensures
        committed_store(m, outs).contains_key(rec.blockhash@),
        committed_store(m, outs)[rec.blockhash@] == rec,
    decreases outs.len(),
{
    assert(forall|j: int| 0 <= j < outs.skip(1).len() ==> outs.skip(1)[j] == outs[j + 1]);
    if i == 0 {
        lemma_committed_store_untouched_key(
            apply_outcome(m, outs[0]),
            outs.skip(1),
            rec.blockhash@,
        );
    } else {
        lemma_fetched_block_stored(apply_outcome(m, outs[0]), outs.skip(1), i - 1, rec);
    }
}

/// A commit re-enqueues nothing but transport failures: every requeued slot
/// sat in the batch at a position whose fetch failed in transport. In
/// particular a skipped slot is never put back in the queue.
pub proof fn lemma_requeued_only_failures(batch: Seq<u64>, outs: Seq<FetchResult>, s: u64)
    requires
        requeued(batch, outs).contains(s),
    ensures
        exists|i: int| 0 <= i < batch.len() && i < outs.len() && batch[i] == s && #[trigger] outs[i]
            is TransportFailure,
    decreases batch.len(),
{
    let rq = requeued(batch, outs);
    let j = choose|j: int| 0 <= j < rq.len() && rq[j] == s;
    let rest = requeued(batch.skip(1), outs.skip(1));
    if outs[0] is TransportFailure && j == 0 {
        assert(batch[0] == s && outs[0] is TransportFailure);
    } else {
        if outs[0] is TransportFailure {
            assert(rest[j - 1] == s);
        } else {
            assert(rest[j] == s);
        }
        lemma_requeued_only_failures(batch.skip(1), outs.skip(1), s);
        let i = choose|i: int|
            0 <= i < batch.skip(1).len() && i < outs.skip(1).len() && batch.skip(1)[i] == s
                && #[trigger] outs.skip(1)[i] is TransportFailure;
        assert(batch[i + 1] == s && outs[i + 1] is TransportFailure);
    }
}

/// Every newly discovered slot lies strictly past the old watermark and at
/// or below the new one.
pub proof fn lemma_discovered_slots_fresh(wm: u64, frontier: u64)
    ensures
        forall|i: int| 0 <= i < discovered_slots(wm, frontier).len() ==> wm
            < #[trigger] discovered_slots(wm, frontier)[i] <= next_watermark(wm, frontier),
{
}

/// Queue progress: on a productive cycle — the frontier moved and the cap
/// admits at least one slot — every queued slot either joins the batch or
/// moves at least one position toward the queue's head. A slot awaiting
/// retry is therefore fetched again after finitely many productive cycles.
pub proof fn lemma_queued_slot_progress(
    cap: usize,
    wm: u64,
    queue: Seq<u64>,
    frontier: u64,
    p: int,
)
    requires
        cap >= 1,
        frontier > wm,
        0 <= p < queue.len(),
    ensures
        ({
            let b = batch_size(cap, cycle_pending(wm, queue, frontier).len()) as int;
            &&& b >= 1
            &&& (p < b ==> cycle_batch(cap, wm, queue, frontier)[p] == queue[p])
            &&& (p >= b ==> cycle_queue(cap, wm, queue, frontier)[p - b] == queue[p] && p - b < p)
        }),
{
    let pending = cycle_pending(wm, queue, frontier);
    assert(pending[p] == queue[p]);
}

/// Skipped slots never retried, cycle step: a slot the scheduler has
/// resolved — at or below the watermark and no longer queued, as a slot just
/// reported `Skipped` is — is not fetched in the next cycle and stays
/// resolved through it, whatever frontier the source reports and however the
/// cycle's fetches end.
pub proof fn lemma_resolved_slot_not_refetched(
    cap: usize,
    wm: u64,
    queue: Seq<u64>,
    frontier: u64,
    outs: Seq<FetchResult>,
    s: u64,
)
    requires
        s <= wm,
        !queue.contains(s),
    ensures
        !cycle_batch(cap, wm, queue, frontier).contains(s),
        s <= next_watermark(wm, frontier),
        !(cycle_queue(cap, wm, queue, frontier) + requeued(
            cycle_batch(cap, wm, queue, frontier),
            outs,
        )).contains(s),
{
    let pending = cycle_pending(wm, queue, frontier);
    let batch = cycle_batch(cap, wm, queue, frontier);
    let after = cycle_queue(cap, wm, queue, frontier);
    lemma_discovered_slots_fresh(wm, frontier);
    assert(!pending.contains(s)) by {
        if pending.contains(s) {
            let i = choose|i: int| 0 <= i < pending.len() && pending[i] == s;
            if i < queue.len() {
                assert(queue[i] == s);
            } else {
                assert(discovered_slots(wm, frontier)[i - queue.len()] == s);
            }
        }
    }
    assert(!batch.contains(s)) by {
        if frontier > wm && batch.contains(s) {
            let i = choose|i: int| 0 <= i < batch.len() && batch[i] == s;
            assert(pending[i] == s);
        }
    }
    assert(!after.contains(s)) by {
        if frontier > wm && after.contains(s) {
            let i = choose|i: int| 0 <= i < after.len() && after[i] == s;
            assert(pending[i + batch_size(cap, pending.len())] == s);
        }
    }
    assert(!requeued(batch, outs).contains(s)) by {
        if requeued(batch, outs).contains(s) {
            lemma_requeued_only_failures(batch, outs, s);
        }
    }
    let joined = after + requeued(batch, outs);
    assert(!joined.contains(s)) by {
        if joined.contains(s) {
            let i = choose|i: int| 0 <= i < joined.len() && joined[i] == s;
            if i < after.len() {
                assert(after[i] == s);
            } else {
                assert(requeued(batch, outs)[i - after.len()] == s);
            }
        }
    }
}

/// Scheduler state after one whole cycle — begin with `frontier`, commit
/// `outs` — as (watermark, retry queue).
pub open spec fn cycle_state(
    cap: usize,
    wm: u64,
    queue: Seq<u64>,
    frontier: u64,
    outs: Seq<FetchResult>,
) -> (u64, Seq<u64>) {
    (
        next_watermark(wm, frontier),
        cycle_queue(cap, wm, queue, frontier) + requeued(
            cycle_batch(cap, wm, queue, frontier),
            outs,
        ),
    )
}

/// The batch the scheduler dispatches on the `k`-th cycle of a run that
/// sees one frontier and one outcome list per cycle.
pub open spec fn run_batch_at(
    cap: usize,
    wm: u64,
    queue: Seq<u64>,
    frontiers: Seq<u64>,
    outs: Seq<Seq<FetchResult>>,
    k: int,
) -> Seq<u64>
    decreases k,
{
    if k <= 0 {
        cycle_batch(cap, wm, queue, frontiers[0])
    } else {
        let next = cycle_state(cap, wm, queue, frontiers[0], outs[0]);
        run_batch_at(cap, next.0, next.1, frontiers.skip(1), outs.skip(1), k - 1)
    }
}

/// Skipped slots never retried, over a whole run: a slot the scheduler has
/// resolved — at or below the watermark and no longer queued, as a slot just
/// reported `Skipped` is — is absent from the batch of every later cycle,
/// whatever frontiers the source reports and however every fetch ends. The
/// scheduler never submits such a slot to the source again.
pub proof fn lemma_resolved_slot_never_refetched(
    cap: usize,
    wm: u64,
    queue: Seq<u64>,
    frontiers: Seq<u64>,
    outs: Seq<Seq<FetchResult>>,
    s: u64,
    k: int,
)
    requires
        s <= wm,
        !queue.contains(s),
        0 <= k < frontiers.len(),
        frontiers.len() <= outs.len(),
    ensures
        !run_batch_at(cap, wm, queue, frontiers, outs, k).contains(s),
    decreases k,
{
    lemma_resolved_slot_not_refetched(cap, wm, queue, frontiers[0], outs[0], s);
    if k > 0 {
        let next = cycle_state(cap, wm, queue, frontiers[0], outs[0]);
        lemma_resolved_slot_never_refetched(
            cap,
            next.0,
            next.1,
            frontiers.skip(1),
            outs.skip(1),
            s,
            k - 1,
        );
    }
}

/// Mean per-slot fetch latency of one batch, in milliseconds, rounded down.
pub fn mean_latency_millis(total_millis: u64, batch_len: u64) -> (m: u64)
    requires
        batch_len > 0,
    ensures
        m == total_millis / batch_len,
{
    total_millis / batch_len
}

} // verus!
