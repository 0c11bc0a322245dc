//! The shared store of observed blocks.
//!
//! [`BlockStore`] maps a blockhash to the [`BlockRecord`] observed for it.
//! Insertion is an idempotent, latest-wins upsert: storing the record that is
//! already present changes nothing, and the store never removes entries. The
//! store is modelled as the map from each entry's blockhash to the entry.

use vstd::prelude::*;
use crate::block::BlockRecord;

verus! {

/// The map an entry sequence denotes: each entry keyed by its blockhash,
/// later entries overriding earlier ones.
pub open spec fn store_map(entries: Seq<BlockRecord>) -> Map<Seq<char>, BlockRecord>
    decreases entries.len(),
{
    if entries.len() == 0 {
        Map::empty()
    } else {
        store_map(entries.drop_last()).insert(entries.last().blockhash@, entries.last())
    }
}

/// No two entries share a blockhash.
pub open spec fn unique_hashes(entries: Seq<BlockRecord>) -> bool {
    forall|i: int, j: int|
        0 <= i < j < entries.len() ==> entries[i].blockhash@ != entries[j].blockhash@
}

/// A key is in the map exactly when some entry carries it.
pub proof fn lemma_store_map_contains(entries: Seq<BlockRecord>, k: Seq<char>)
    ensures
        store_map(entries).contains_key(k) <==> (exists|i: int|
            0 <= i < entries.len() && entries[i].blockhash@ == k),
    decreases entries.len(),
{
    if entries.len() > 0 {
        lemma_store_map_contains(entries.drop_last(), k);
        if entries.last().blockhash@ == k {
            assert(entries[entries.len() - 1].blockhash@ == k);
        } else {
            if exists|i: int| 0 <= i < entries.len() && entries[i].blockhash@ == k {
                let i = choose|i: int| 0 <= i < entries.len() && entries[i].blockhash@ == k;
                assert(entries.drop_last()[i] == entries[i]);
            }
        }
    }
}

/// Without duplicate hashes, each entry is found under its own blockhash.
pub proof fn lemma_store_map_index(entries: Seq<BlockRecord>, i: int)
    requires
        unique_hashes(entries),
        0 <= i < entries.len(),
    ensures
        store_map(entries).contains_key(entries[i].blockhash@),
        store_map(entries)[entries[i].blockhash@] == entries[i],
    decreases entries.len(),
{
    if i < entries.len() - 1 {
        assert(unique_hashes(entries.drop_last())) by {
            assert(forall|a: int, b: int|
                0 <= a < b < entries.drop_last().len() ==> entries.drop_last()[a]
                    == entries[a] && entries.drop_last()[b] == entries[b]);
        }
        lemma_store_map_index(entries.drop_last(), i);
        assert(entries.drop_last()[i] == entries[i]);
        assert(entries[i].blockhash@ != entries.last().blockhash@);
    }
}

/// Without duplicate hashes, the map has exactly one key per entry.
pub proof fn lemma_store_map_len(entries: Seq<BlockRecord>)
    requires
        unique_hashes(entries),
    ensures
        store_map(entries).dom().finite(),
        store_map(entries).len() == entries.len(),
    decreases entries.len(),
{
    if entries.len() > 0 {
        assert(unique_hashes(entries.drop_last())) by {
            assert(forall|a: int, b: int|
                0 <= a < b < entries.drop_last().len() ==> entries.drop_last()[a]
                    == entries[a] && entries.drop_last()[b] == entries[b]);
        }
        lemma_store_map_len(entries.drop_last());
        lemma_store_map_contains(entries.drop_last(), entries.last().blockhash@);
        assert(forall|j: int|
            0 <= j < entries.drop_last().len() ==> entries.drop_last()[j] == entries[j]);
        assert(!store_map(entries.drop_last()).contains_key(entries.last().blockhash@));
    }
}

/// Overwriting the one entry that carries a hash acts on the map as an
/// insert under that hash.
proof fn lemma_store_map_update(entries: Seq<BlockRecord>, i: int, r: BlockRecord)
    requires
        unique_hashes(entries),
        0 <= i < entries.len(),
        entries[i].blockhash@ == r.blockhash@,
    ensures
        store_map(entries.update(i, r)) == store_map(entries).insert(r.blockhash@, r),
        unique_hashes(entries.update(i, r)),
    decreases entries.len(),
{
    let su = entries.update(i, r);
    assert(unique_hashes(su)) by {
        assert(forall|a: int| 0 <= a < su.len() ==> su[a].blockhash@ == entries[a].blockhash@);
    }
    if i == entries.len() - 1 {
        assert(su.drop_last() =~= entries.drop_last());
        assert(su.last() == r);
        assert(store_map(entries.drop_last()).insert(entries.last().blockhash@, entries.last())
            .insert(r.blockhash@, r) =~= store_map(entries.drop_last()).insert(r.blockhash@, r));
    } else {
        assert(su.drop_last() =~= entries.drop_last().update(i, r));
        assert(unique_hashes(entries.drop_last())) by {
            assert(forall|a: int, b: int|
                0 <= a < b < entries.drop_last().len() ==> entries.drop_last()[a]
                    == entries[a] && entries.drop_last()[b] == entries[b]);
        }
        assert(entries.drop_last()[i] == entries[i]);
        lemma_store_map_update(entries.drop_last(), i, r);
        assert(su.last() == entries.last());
        assert(entries.last().blockhash@ != r.blockhash@);
        assert(store_map(entries.drop_last()).insert(r.blockhash@, r).insert(
            entries.last().blockhash@,
            entries.last(),
        ) =~= store_map(entries.drop_last()).insert(entries.last().blockhash@, entries.last())
            .insert(r.blockhash@, r));
    }
}

/// Map from blockhash to the block metadata observed under it. Concurrent
/// writers go through one `&mut` reference at a time; an insert is atomic
/// with respect to readers of the finished value.
pub struct BlockStore {
    entries: Vec<BlockRecord>,
}

impl View for BlockStore {
    type V = Map<Seq<char>, BlockRecord>;

    closed spec fn view(&self) -> Map<Seq<char>, BlockRecord> {
        store_map(self.entries@)
    }
}

impl BlockStore {
    /// The store's internal invariant: one entry per blockhash.
    pub closed spec fn wf(&self) -> bool {
        unique_hashes(self.entries@)
    }

    /// An empty store.
    pub fn new() -> (s: BlockStore)
        ensures
            s.wf(),
            s@ == Map::<Seq<char>, BlockRecord>::empty(),
            s@.len() == 0,
    {
        BlockStore { entries: Vec::new() }
    }

    /// Idempotent upsert: after the call the store maps `record.blockhash`
    /// to `record` and is otherwise unchanged. Re-adding a record already
    /// present is a no-op; a revised record under a known hash wins.
    pub fn add_block(&mut self, record: BlockRecord)
        requires
            old(self).wf(),
        ensures
            final(self).wf(),
            final(self)@ == old(self)@.insert(record.blockhash@, record),
    {
        let n = self.entries.len();
        let mut i: usize = 0;
        while i < n
            invariant
                n == self.entries.len(),
                i <= n,
                *self == *old(self),
                self.wf(),
                forall|j: int| 0 <= j < i ==> self.entries@[j].blockhash@ != record.blockhash@,
            decreases n - i,
        {
            if self.entries[i].blockhash == record.blockhash {
                proof {
                    lemma_store_map_update(self.entries@, i as int, record);
                }
                self.entries.set(i, record);
                return;
            }
            i += 1;
        }
        proof {
            lemma_store_map_contains(self.entries@, record.blockhash@);
            assert(self.entries@.push(record).drop_last() =~= self.entries@);
            assert(forall|j: int|
                0 <= j < self.entries@.len() ==> self.entries@.push(record)[j]
                    == self.entries@[j]);
        }
        self.entries.push(record);
    }

    /// Look a record up by its blockhash.
    pub fn get(&self, blockhash: &String) -> (r: Option<&BlockRecord>)
        requires
            self.wf(),
        ensures
            match r {
                Some(rec) => self@.contains_key(blockhash@) && *rec == self@[blockhash@],
                None => !self@.contains_key(blockhash@),
            },
    {
        let n = self.entries.len();
        let mut i: usize = 0;
        while i < n
            invariant
                n == self.entries.len(),
                i <= n,
                self.wf(),
                forall|j: int| 0 <= j < i ==> self.entries@[j].blockhash@ != blockhash@,
            decreases n - i,
        {
            if self.entries[i].blockhash == *blockhash {
                proof {
                    lemma_store_map_index(self.entries@, i as int);
                }
                return Some(&self.entries[i]);
            }
            i += 1;
        }
        proof {
            lemma_store_map_contains(self.entries@, blockhash@);
        }
        None
    }

    /// Number of stored records.
    pub fn len(&self) -> (n: usize)
        requires
            self.wf(),
        ensures
            n == self@.len(),
    {
        proof {
            lemma_store_map_len(self.entries@);
        }
        self.entries.len()
    }

    /// A stored record of maximal slot, or `None` on an empty store.
    pub fn latest(&self) -> (r: Option<&BlockRecord>)
        requires
            self.wf(),
        ensures
            r is None <==> self@.len() == 0,
            match r {
                Some(rec) => self@.contains_key(rec.blockhash@) && self@[rec.blockhash@] == *rec
                    && forall|k: Seq<char>|
                        self@.contains_key(k) ==> #[trigger] self@[k].slot <= rec.slot,
                None => true,
            },
    {
        proof {
            lemma_store_map_len(self.entries@);
        }
        let n = self.entries.len();
        if n == 0 {
            return None;
        }
        let mut best: usize = 0;
        let mut i: usize = 1;
        while i < n
            invariant
                n == self.entries.len(),
                0 < n,
                best < i <= n,
                self.wf(),
                forall|j: int| 0 <= j < i ==> self.entries@[j].slot <= self.entries@[
                    best as int
                ].slot,
            decreases n - i,
        {
            if self.entries[i].slot > self.entries[best].slot {
                best = i;
            }
            i += 1;
        }
        proof {
            lemma_store_map_index(self.entries@, best as int);
            assert forall|k: Seq<char>| self@.contains_key(k) implies #[trigger] self@[k].slot
                <= self.entries@[best as int].slot by {
                lemma_store_map_contains(self.entries@, k);
                let j = choose|j: int|
                    0 <= j < self.entries@.len() && self.entries@[j].blockhash@ == k;
                lemma_store_map_index(self.entries@, j);
            }
        }
        Some(&self.entries[best])
    }
}

/// At-most-once terminal storage per blockhash: adding the same record twice
/// leaves the store exactly as adding it once does, and re-adding a record
/// the store already holds changes neither the map nor its size.
pub proof fn lemma_add_block_idempotent(m: Map<Seq<char>, BlockRecord>, r: BlockRecord)
    ensures
        m.insert(r.blockhash@, r).insert(r.blockhash@, r) == m.insert(r.blockhash@, r),
        m.contains_key(r.blockhash@) && m[r.blockhash@] == r ==> m.insert(r.blockhash@, r) == m,
        m.contains_key(r.blockhash@) ==> m.insert(r.blockhash@, r).len() == m.len(),
{
    assert(m.insert(r.blockhash@, r).insert(r.blockhash@, r) =~= m.insert(r.blockhash@, r));
    if m.contains_key(r.blockhash@) {
        if m[r.blockhash@] == r {
            assert(m.insert(r.blockhash@, r) =~= m);
        }
        assert(m.insert(r.blockhash@, r).dom() =~= m.dom());
    }
}

} // verus!
