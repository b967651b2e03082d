//! The mempool: pending transactions in arrival order, and a queue of hashes
//! that the next block must include first.
use vstd::prelude::*;
use crate::error::{PlatariumError, is_state_error};
use crate::order::{same_text, texts};
use crate::transaction::{Transaction, same_tx};

verus! {

/// Most hashes the forced-inclusion queue holds.
pub const FORCED_INCLUSION_CAP: usize = 256;

/// A pending transaction and the node-local counter value it arrived with.
#[derive(Debug, Clone)]
pub struct MempoolEntry {
    pub tx: Transaction,
    pub arrival_index: u64,
}

#[derive(Debug, Clone, PartialEq, Eq)]
pub enum MempoolError {
    DuplicateTransaction(String),
    Other(String),
}

/// Pending transactions, kept in arrival order, and the forced-inclusion queue.
#[derive(Debug)]
pub struct Mempool {
    entries: Vec<MempoolEntry>,
    next_arrival_index: u64,
    forced_inclusion: Vec<String>,
}

/// The hashes of a sequence of transactions.
pub open spec fn hashes_of(txs: Seq<Transaction>) -> Seq<Seq<char>> {
    txs.map_values(|t: Transaction| t.hash@)
}

/// `txs` without those whose hash is in `gone`, order kept.
pub open spec fn without_hashes(txs: Seq<Transaction>, gone: Set<Seq<char>>) -> Seq<Transaction>
    decreases txs.len(),
{
    if txs.len() == 0 {
        txs
    } else if gone.contains(txs.last().hash@) {
        without_hashes(txs.drop_last(), gone)
    } else {
        without_hashes(txs.drop_last(), gone).push(txs.last())
    }
}

/// `q` without the members of `gone`, order kept.
pub open spec fn without_texts(q: Seq<Seq<char>>, gone: Set<Seq<char>>) -> Seq<Seq<char>>
    decreases q.len(),
{
    if q.len() == 0 {
        q
    } else if gone.contains(q.last()) {
        without_texts(q.drop_last(), gone)
    } else {
        without_texts(q.drop_last(), gone).push(q.last())
    }
}

/// Fills `acc` from `rest` in order, skipping what `acc` already holds, until
/// `acc` has `max` members or `rest` is used up.
pub open spec fn fill_up(acc: Seq<Seq<char>>, rest: Seq<Seq<char>>, max: nat) -> Seq<Seq<char>>
    decreases rest.len(),
{
    if rest.len() == 0 || acc.len() >= max {
        acc
    } else if acc.contains(rest[0]) {
        fill_up(acc, rest.drop_first(), max)
    } else {
        fill_up(acc.push(rest[0]), rest.drop_first(), max)
    }
}

/// The hashes for the next block: first every queued hash still pending, in
/// queue order; then pending hashes in arrival order, until `max` are chosen.
pub open spec fn block_selection(pool: Seq<Transaction>, forced: Seq<Seq<char>>, max: nat) -> Seq<
    Seq<char>,
> {
    fill_up(without_texts(forced, forced.to_set() - hashes_of(pool).to_set()), hashes_of(pool), max)
}

/// The message of a rejected duplicate.
pub open spec fn duplicate_text(hash: Seq<char>) -> Seq<char> {
    "Mempool error: Duplicate transaction: transaction with hash "@ + hash + " already exists"@
}

impl Mempool {
    /// The pending transactions in arrival order.
    pub closed spec fn pool(&self) -> Seq<Transaction> {
        self.entries@.map_values(|e: MempoolEntry| e.tx)
    }

    /// How many arrival indices have been handed out.
    pub closed spec fn arrivals(&self) -> u64 {
        self.next_arrival_index
    }

    /// The forced-inclusion queue.
    pub closed spec fn forced(&self) -> Seq<Seq<char>> {
        texts(self.forced_inclusion@)
    }

    /// Hashes are distinct, arrival indices increase and stay below the
    /// counter, and the queue holds at most `FORCED_INCLUSION_CAP` distinct hashes.
    pub closed spec fn wf(&self) -> bool {
        &&& hashes_of(self.pool()).no_duplicates()
        &&& forall|i: int, j: int|
            0 <= i < j < self.entries@.len() ==> #[trigger] self.entries@[i].arrival_index
                < #[trigger] self.entries@[j].arrival_index
        &&& forall|i: int|
            0 <= i < self.entries@.len() ==> #[trigger] self.entries@[i].arrival_index
                < self.next_arrival_index
        &&& self.forced().no_duplicates()
        &&& self.forced().len() <= FORCED_INCLUSION_CAP
    }

    pub fn new() -> (r: Self)
        ensures
            r.wf(),
            r.pool() == Seq::<Transaction>::empty(),
            r.forced() == Seq::<Seq<char>>::empty(),
    {
        let r = Mempool { entries: Vec::new(), next_arrival_index: 0, forced_inclusion: Vec::new() };
        assert(r.pool() =~= Seq::<Transaction>::empty());
        assert(r.forced() =~= Seq::<Seq<char>>::empty());
        r
    }

    fn find(&self, hash: &str) -> (r: Option<usize>)
        ensures
            match r {
                Some(i) => i < self.pool().len() && self.pool()[i as int].hash@ == hash@,
                None => !hashes_of(self.pool()).contains(hash@),
            },
    {
        let mut i: usize = 0;
        while i < self.entries.len()
            invariant
                i <= self.entries@.len(),
                forall|j: int| 0 <= j < i ==> #[trigger] self.entries@[j].tx.hash@ != hash@,
            decreases self.entries.len() - i,
        {
            if same_text(self.entries[i].tx.hash.as_str(), hash) {
                return Some(i);
            }
            i = i + 1;
        }
        proof {
            if hashes_of(self.pool()).contains(hash@) {
                let j = choose|j: int| 0 <= j < hashes_of(self.pool()).len() && hashes_of(self.pool())[j] == hash@;
                assert(self.entries@[j].tx.hash@ == hash@);
            }
        }
        None
    }

    /// Adds `tx` behind every pending transaction, unless one with its hash is
    /// pending. Fails too, leaving the pool as it is, once the arrival counter
    /// has reached `u64::MAX`.
    pub fn add_transaction(&mut self, tx: Transaction) -> (r: Result<(), PlatariumError>)
        requires
            old(self).wf(),
        ensures
            final(self).wf(),
            final(self).forced() == old(self).forced(),
            hashes_of(old(self).pool()).contains(tx.hash@) ==> r.is_err() && final(self).pool()
                == old(self).pool() && (r matches Err(e) && is_state_error(e, duplicate_text(tx.hash@))),
            !hashes_of(old(self).pool()).contains(tx.hash@) && old(self).arrivals() < u64::MAX
                ==> r.is_ok() && final(self).pool() == old(self).pool().push(tx),
            r.is_err() ==> final(self).pool() == old(self).pool(),
            r.is_ok() ==> !hashes_of(old(self).pool()).contains(tx.hash@) && final(self).pool()
                == old(self).pool().push(tx),
    {
        if let Some(i) = self.find(tx.hash.as_str()) {
            assert(hashes_of(self.pool())[i as int] == tx.hash@);
            let mut m = String::from_str("Mempool error: Duplicate transaction: transaction with hash ");
            m.append(tx.hash.as_str());
            m.append(" already exists");
            return Err(PlatariumError::State(m));
        }
        if self.next_arrival_index == u64::MAX {
            return Err(
                PlatariumError::State(String::from_str("Mempool error: Mempool error: arrival counter exhausted")),
            );
        }
        let idx = self.next_arrival_index;
        let ghost old_pool = self.pool();
        let ghost h = tx.hash@;
        self.entries.push(MempoolEntry { tx, arrival_index: idx });
        self.next_arrival_index = idx + 1;
        proof {
            assert(self.pool() =~= old_pool.push(self.entries@.last().tx));
            assert(hashes_of(self.pool()) =~= hashes_of(old_pool).push(h));
        }
        Ok(())
    }

    /// A copy of the pending transaction with this hash.
    pub fn get_transaction(&self, hash: &str) -> (r: Option<Transaction>)
        ensures
            match r {
                Some(t) => exists|i: int|
                    0 <= i < self.pool().len() && self.pool()[i].hash@ == hash@ && same_tx(
                        t,
                        #[trigger] self.pool()[i],
                    ),
                None => !hashes_of(self.pool()).contains(hash@),
            },
    {
        match self.find(hash) {
            Some(i) => Some(self.entries[i].tx.duplicate()),
            None => None,
        }
    }

    /// Removes the pending transaction with this hash; whether there was one.
    pub fn remove_transaction(&mut self, hash: &str) -> (r: bool)
        requires
            old(self).wf(),
        ensures
            final(self).wf(),
            final(self).forced() == old(self).forced(),
            r == hashes_of(old(self).pool()).contains(hash@),
            final(self).pool() == without_hashes(old(self).pool(), set![hash@]),
    {
        let ghost gone = set![hash@];
        match self.find(hash) {
            Some(i) => {
                let ghost before = self.pool();
                self.entries.remove(i);
                proof {
                    assert(self.pool() =~= before.remove(i as int));
                    assert(hashes_of(self.pool()) =~= hashes_of(before).remove(i as int));
                    assert(hashes_of(before)[i as int] == hash@);
                    lemma_without_one(before, hash@, i as int);
                    assert(hashes_of(before).contains(hash@));
                }
                true
            },
            None => {
                proof {
                    lemma_without_absent(self.pool(), gone);
                }
                false
            },
        }
    }

    /// Removes every pending transaction whose hash is listed.
    pub fn remove_transactions(&mut self, hashes: &[String])
        requires
            old(self).wf(),
        ensures
            final(self).wf(),
            final(self).forced() == old(self).forced(),
            final(self).pool() == without_hashes(old(self).pool(), texts(hashes@).to_set()),
    {
        let ghost gone = texts(hashes@).to_set();
        let ghost start = self.pool();
        let n0 = self.entries.len();
        assert(start.len() == n0);
        let mut i: usize = 0;
        let mut k: usize = 0;
        while k < self.entries.len()
            invariant
                self.wf(),
                self.forced() == old(self).forced(),
                gone == texts(hashes@).to_set(),
                i <= start.len(),
                k <= self.pool().len(),
                self.pool() == without_hashes(start.subrange(0, i as int), gone) + start.subrange(
                    i as int,
                    start.len() as int,
                ),
                k == without_hashes(start.subrange(0, i as int), gone).len(),
                self.pool().len() - k == start.len() - i,
                start.len() <= usize::MAX,
            decreases self.entries.len() - k,
        {
            let ghost before = self.pool();
            let ghost kept = without_hashes(start.subrange(0, i as int), gone);
            assert(before[k as int] == start[i as int]);
            assert(start.subrange(0, i + 1).drop_last() =~= start.subrange(0, i as int));
            if list_contains(hashes, self.entries[k].tx.hash.as_str()) {
                self.entries.remove(k);
                proof {
                    assert(self.pool() =~= before.remove(k as int));
                    assert(hashes_of(self.pool()) =~= hashes_of(before).remove(k as int));
                    lemma_remove_keeps_distinct(hashes_of(before), k as int);
                    assert(self.pool() =~= kept + start.subrange(i + 1, start.len() as int));
                }
            } else {
                proof {
                    assert(before =~= kept.push(start[i as int]) + start.subrange(
                        i + 1,
                        start.len() as int,
                    ));
                }
                k = k + 1;
            }
            i = i + 1;
        }
        proof {
            assert(start.subrange(0, start.len() as int) =~= start);
            assert(self.pool() =~= without_hashes(start, gone));
        }
    }

    /// Every pending transaction, copied, in arrival order.
    pub fn get_all_transactions(&self) -> (r: Vec<Transaction>)
        ensures
            r@.len() == self.pool().len(),
            forall|i: int| 0 <= i < r@.len() ==> same_tx(#[trigger] r@[i], self.pool()[i]),
    {
        let mut r: Vec<Transaction> = Vec::new();
        let mut i: usize = 0;
        while i < self.entries.len()
            invariant
                i <= self.entries@.len(),
                r@.len() == i,
                forall|j: int| 0 <= j < i ==> same_tx(#[trigger] r@[j], self.pool()[j]),
            decreases self.entries.len() - i,
        {
            r.push(self.entries[i].tx.duplicate());
            i = i + 1;
        }
        r
    }

    pub fn len(&self) -> (r: usize)
        ensures
            r == self.pool().len(),
    {
        self.entries.len()
    }

    pub fn is_empty(&self) -> (r: bool)
        ensures
            r == (self.pool().len() == 0),
    {
        self.entries.len() == 0
    }

    pub fn contains(&self, hash: &str) -> (r: bool)
        ensures
            r == hashes_of(self.pool()).contains(hash@),
    {
        match self.find(hash) {
            Some(i) => {
                assert(hashes_of(self.pool())[i as int] == hash@);
                true
            },
            None => false,
        }
    }

    /// Drops every pending transaction; the queue stays.
    pub fn clear(&mut self)
        requires
            old(self).wf(),
        ensures
            final(self).wf(),
            final(self).pool() == Seq::<Transaction>::empty(),
            final(self).forced() == old(self).forced(),
    {
        self.entries.clear();
        assert(self.pool() =~= Seq::<Transaction>::empty());
        assert(hashes_of(self.pool()) =~= Seq::<Seq<char>>::empty());
    }

    /// Queues a hash unless it is queued already or the queue is full.
    pub fn add_forced_inclusion(&mut self, tx_hash: String)
        requires
            old(self).wf(),
        ensures
            final(self).wf(),
            final(self).pool() == old(self).pool(),
            final(self).forced() == if old(self).forced().len() < FORCED_INCLUSION_CAP
                && !old(self).forced().contains(tx_hash@) {
                old(self).forced().push(tx_hash@)
            } else {
                old(self).forced()
            },
    {
        if self.forced_inclusion.len() < FORCED_INCLUSION_CAP && !list_contains(
            self.forced_inclusion.as_slice(),
            tx_hash.as_str(),
        ) {
            let ghost h = tx_hash@;
            self.forced_inclusion.push(tx_hash);
            assert(self.forced() =~= old(self).forced().push(h));
        }
    }

    /// A copy of the queue.
    pub fn get_forced_inclusion(&self) -> (r: Vec<String>)
        ensures
            texts(r@) == self.forced(),
    {
        let r = crate::transaction::copy_texts(&self.forced_inclusion);
        assert(texts(r@) =~= self.forced());
        r
    }

    /// Removes every listed hash from the queue, order kept.
    pub fn remove_forced_inclusion(&mut self, hashes: &[String])
        requires
            old(self).wf(),
        ensures
            final(self).wf(),
            final(self).pool() == old(self).pool(),
            final(self).forced() == without_texts(old(self).forced(), texts(hashes@).to_set()),
    {
        let ghost gone = texts(hashes@).to_set();
        let ghost start = self.forced();
        assert(start.len() == self.forced_inclusion@.len());
        let mut i: usize = 0;
        let mut k: usize = 0;
        while k < self.forced_inclusion.len()
            invariant
                self.wf(),
                self.pool() == old(self).pool(),
                gone == texts(hashes@).to_set(),
                i <= start.len(),
                k <= self.forced().len(),
                self.forced() == without_texts(start.subrange(0, i as int), gone) + start.subrange(
                    i as int,
                    start.len() as int,
                ),
                k == without_texts(start.subrange(0, i as int), gone).len(),
                self.forced().len() - k == start.len() - i,
                start.len() <= usize::MAX,
            decreases self.forced_inclusion.len() - k,
        {
            let ghost before = self.forced();
            let ghost kept = without_texts(start.subrange(0, i as int), gone);
            assert(before[k as int] == start[i as int]);
            assert(start.subrange(0, i + 1).drop_last() =~= start.subrange(0, i as int));
            if list_contains(hashes, self.forced_inclusion[k].as_str()) {
                self.forced_inclusion.remove(k);
                proof {
                    assert(self.forced() =~= before.remove(k as int));
                    lemma_remove_keeps_distinct(before, k as int);
                    assert(self.forced() =~= kept + start.subrange(i + 1, start.len() as int));
                }
            } else {
                proof {
                    assert(before =~= kept.push(start[i as int]) + start.subrange(
                        i + 1,
                        start.len() as int,
                    ));
                }
                k = k + 1;
            }
            i = i + 1;
        }
        proof {
            assert(start.subrange(0, start.len() as int) =~= start);
            assert(self.forced() =~= without_texts(start, gone));
        }
    }

    /// Up to `max_count` hashes for the next block, after every queued hash
    /// that is still pending (those count towards the limit but are all taken).
    pub fn get_transaction_hashes_for_block(&self, max_count: usize) -> (r: Vec<String>)
        requires
            self.wf(),
        ensures
            texts(r@) == block_selection(self.pool(), self.forced(), max_count as nat),
    {
        let ghost pool_hashes = hashes_of(self.pool());
        let ghost gone = self.forced().to_set() - pool_hashes.to_set();
        let mut result: Vec<String> = Vec::new();
        let mut i: usize = 0;
        while i < self.forced_inclusion.len()
            invariant
                i <= self.forced().len(),
                self.forced().len() == self.forced_inclusion@.len(),
                pool_hashes == hashes_of(self.pool()),
                gone == self.forced().to_set() - pool_hashes.to_set(),
                texts(result@) == without_texts(self.forced().subrange(0, i as int), gone),
            decreases self.forced_inclusion.len() - i,
        {
            let h = &self.forced_inclusion[i];
            assert(self.forced().subrange(0, i + 1).drop_last() =~= self.forced().subrange(0, i as int));
            assert(self.forced()[i as int] == h@);
            assert(self.forced().to_set().contains(h@));
            let found = self.find(h.as_str());
            proof {
                if let Some(x) = found {
                    assert(pool_hashes[x as int] == h@);
                }
                assert(pool_hashes.to_set().contains(h@) == pool_hashes.contains(h@));
            }
            if found.is_some() {
                result.push(h.clone());
                proof {
                    lemma_texts_push(result@);
                }
                assert(texts(result@) =~= without_texts(self.forced().subrange(0, i + 1), gone));
            } else {
                assert(texts(result@) =~= without_texts(self.forced().subrange(0, i + 1), gone));
            }
            i = i + 1;
        }
        assert(self.forced().subrange(0, self.forced().len() as int) =~= self.forced());
        let ghost head = texts(result@);
        assert(pool_hashes.subrange(0, pool_hashes.len() as int) =~= pool_hashes);
        let mut j: usize = 0;
        while j < self.entries.len()
            invariant
                j <= self.entries@.len(),
                pool_hashes == hashes_of(self.pool()),
                pool_hashes.len() == self.entries@.len(),
                fill_up(texts(result@), pool_hashes.subrange(j as int, pool_hashes.len() as int), max_count as nat)
                    == fill_up(head, pool_hashes, max_count as nat),
            ensures
                texts(result@) == fill_up(head, pool_hashes, max_count as nat),
            decreases self.entries.len() - j,
        {
            let ghost rest = pool_hashes.subrange(j as int, pool_hashes.len() as int);
            assert(rest.drop_first() =~= pool_hashes.subrange(j + 1, pool_hashes.len() as int));
            if result.len() >= max_count {
                assert(texts(result@).len() == result@.len());
                break;
            }
            let h = &self.entries[j].tx.hash;
            assert(rest[0] == h@);
            let ghost acc = texts(result@);
            if !list_contains(result.as_slice(), h.as_str()) {
                result.push(h.clone());
                proof {
                    lemma_texts_push(result@);
                    assert(texts(result@) == acc.push(h@));
                }
            }
            j = j + 1;
        }
        result
    }
}

proof fn lemma_texts_push(v: Seq<String>)
    requires
        v.len() > 0,
    ensures
        texts(v) == texts(v.drop_last()).push(v.last()@),
{
    assert(texts(v) =~= texts(v.drop_last()).push(v.last()@));
}

/// Whether `s` is in `list`.
pub fn list_contains(list: &[String], s: &str) -> (r: bool)
    ensures
        r == texts(list@).contains(s@),
{
    let mut i: usize = 0;
    while i < list.len()
        invariant
            i <= list@.len(),
            forall|j: int| 0 <= j < i ==> #[trigger] list@[j]@ != s@,
        decreases list.len() - i,
    {
        if same_text(list[i].as_str(), s) {
            assert(texts(list@)[i as int] == s@);
            return true;
        }
        i = i + 1;
    }
    proof {
        if texts(list@).contains(s@) {
            let j = choose|j: int| 0 <= j < texts(list@).len() && texts(list@)[j] == s@;
            assert(list@[j]@ == s@);
        }
    }
    false
}

/// Removing an element keeps a sequence free of repetition.
pub proof fn lemma_remove_keeps_distinct<T>(s: Seq<T>, k: int)
    requires
        s.no_duplicates(),
        0 <= k < s.len(),
    ensures
        s.remove(k).no_duplicates(),
{
    let r = s.remove(k);
    assert forall|a: int, b: int| 0 <= a < r.len() && 0 <= b < r.len() && a != b implies r[a] != r[b] by {
        let a2 = if a < k { a } else { a + 1 };
        let b2 = if b < k { b } else { b + 1 };
        assert(r[a] == s[a2]);
        assert(r[b] == s[b2]);
    }
}

/// Removing hashes that no transaction has changes nothing.
pub proof fn lemma_without_absent(txs: Seq<Transaction>, gone: Set<Seq<char>>)
    requires
        forall|h: Seq<char>| gone.contains(h) ==> !hashes_of(txs).contains(h),
    ensures
        without_hashes(txs, gone) == txs,
    decreases txs.len(),
{
    if txs.len() > 0 {
        assert(hashes_of(txs)[txs.len() - 1] == txs.last().hash@);
        assert forall|h: Seq<char>| gone.contains(h) implies !hashes_of(txs.drop_last()).contains(h) by {
            if hashes_of(txs.drop_last()).contains(h) {
                let j = choose|j: int| 0 <= j < hashes_of(txs.drop_last()).len() && hashes_of(txs.drop_last())[j] == h;
                assert(hashes_of(txs)[j] == h);
            }
        }
        lemma_without_absent(txs.drop_last(), gone);
        assert(txs.drop_last().push(txs.last()) =~= txs);
    }
}

proof fn lemma_without_one(txs: Seq<Transaction>, h: Seq<char>, i: int)
    requires
        hashes_of(txs).no_duplicates(),
        0 <= i < txs.len(),
        txs[i].hash@ == h,
    ensures
        without_hashes(txs, set![h]) == txs.remove(i),
    decreases txs.len(),
{
    let n = txs.len() - 1;
    if i == n {
        assert forall|g: Seq<char>| set![h].contains(g) implies !hashes_of(txs.drop_last()).contains(g) by {
            if hashes_of(txs.drop_last()).contains(g) {
                let j = choose|j: int| 0 <= j < hashes_of(txs.drop_last()).len() && hashes_of(txs.drop_last())[j] == g;
                assert(hashes_of(txs)[j] == hashes_of(txs)[n]);
            }
        }
        lemma_without_absent(txs.drop_last(), set![h]);
        assert(txs.drop_last() =~= txs.remove(i));
    } else {
        assert(hashes_of(txs)[n] != hashes_of(txs)[i]);
        assert(hashes_of(txs.drop_last()) =~= hashes_of(txs).drop_last());
        lemma_without_one(txs.drop_last(), h, i);
        assert(txs.drop_last().remove(i).push(txs.last()) =~= txs.remove(i));
    }
}

/// The selection for a block is a function of the pending hashes in arrival
/// order and of the queue: equal in these, two mempools give equal selections.
pub proof fn lemma_block_selection_determined(
    a: Seq<Transaction>,
    b: Seq<Transaction>,
    forced: Seq<Seq<char>>,
    max: nat,
)
    requires
        hashes_of(a) == hashes_of(b),
    ensures
        block_selection(a, forced, max) == block_selection(b, forced, max),
{
}

} // verus!
