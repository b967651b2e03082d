//! The engine: the state and the mempool together, with transaction submission.
use vstd::prelude::*;
use crate::asset::canonical;
use crate::error::{PlatariumError, is_state_error, state_error};
use crate::mempool::{Mempool, hashes_of, without_hashes};
use crate::state::{State, transfer_fault, transferred};
use crate::transaction::{Transaction, basic_fault, same_tx};

verus! {

pub type TxHash = String;

/// The authoritative state and the mempool of a node.
#[derive(Debug)]
pub struct Core {
    state: State,
    mempool: Mempool,
}

proof fn lemma_without_pushed(pool: Seq<Transaction>, tx: Transaction)
    requires
        !hashes_of(pool).contains(tx.hash@),
    ensures
        without_hashes(pool.push(tx), set![tx.hash@]) == pool,
{
    let p = pool.push(tx);
    assert(p.drop_last() =~= pool);
    assert forall|h: Seq<char>| set![tx.hash@].contains(h) implies !hashes_of(pool).contains(h) by {}
    crate::mempool::lemma_without_absent(pool, set![tx.hash@]);
}

impl Core {
    pub closed spec fn wf(&self) -> bool {
        self.state.wf() && self.mempool.wf()
    }

    /// An empty state and an empty mempool.
    pub fn new() -> (r: Self)
        ensures
            r.wf(),
            r.state().wf(),
            r.state()@.assets.dom().len() == 0,
            r.state()@.uplp.dom().len() == 0,
            r.state()@.nonces.dom().len() == 0,
            r.mempool().pool().len() == 0,
    {
        Core { state: State::new(), mempool: Mempool::new() }
    }

    pub closed spec fn state_spec(&self) -> &State {
        &self.state
    }

    pub closed spec fn mempool_spec(&self) -> &Mempool {
        &self.mempool
    }

    #[verifier::when_used_as_spec(state_spec)]
    pub fn state(&self) -> (r: &State)
        ensures
            r == self.state_spec(),
    {
        &self.state
    }

    /// The state, for setting it up.
    pub fn state_mut(&mut self) -> (r: &mut State)
        requires
            old(self).wf(),
        ensures
            *r == old(self).state_spec(),
    {
        &mut self.state
    }

    #[verifier::when_used_as_spec(mempool_spec)]
    pub fn mempool(&self) -> (r: &Mempool)
        ensures
            r == self.mempool_spec(),
    {
        &self.mempool
    }

    /// Validates `tx`, adds it to the mempool and applies it to the state.
    /// Where validation or the mempool refuses it nothing changes; where the
    /// state refuses it, it leaves the mempool again and the state is unchanged.
    pub fn submit_transaction(&mut self, tx: Transaction) -> (r: Result<TxHash, PlatariumError>)
        requires
            old(self).wf(),
        ensures
            final(self).wf(),
            final(self).mempool().forced() == old(self).mempool().forced(),
            basic_fault(tx).is_some() ==> r.is_err() && final(self).state()@ == old(self).state()@
                && final(self).mempool().pool() == old(self).mempool().pool(),
            r.is_err() ==> final(self).state()@ == old(self).state()@ && final(self).mempool().pool()
                == old(self).mempool().pool(),
            r matches Ok(h) ==> {
                &&& h@ == tx.hash@
                &&& basic_fault(tx).is_none()
                &&& !hashes_of(old(self).mempool().pool()).contains(tx.hash@)
                &&& transfer_fault(
                    old(self).state()@,
                    tx.from@,
                    tx.to@,
                    canonical(tx.asset),
                    tx.amount,
                    tx.fee_uplp,
                    Some(tx.nonce),
                ).is_none()
                &&& final(self).state()@ == transferred(
                    old(self).state()@,
                    tx.from@,
                    tx.to@,
                    canonical(tx.asset),
                    tx.amount,
                    tx.fee_uplp,
                    Some(tx.nonce),
                )
                &&& final(self).mempool().pool().len() == old(self).mempool().pool().len() + 1
                &&& same_tx(final(self).mempool().pool().last(), tx)
            },
            basic_fault(tx).is_none() && !hashes_of(old(self).mempool().pool()).contains(tx.hash@)
                && old(self).mempool().arrivals() < u64::MAX && transfer_fault(
                old(self).state()@,
                tx.from@,
                tx.to@,
                canonical(tx.asset),
                tx.amount,
                tx.fee_uplp,
                Some(tx.nonce),
            ).is_none() ==> r.is_ok(),
    {
        match tx.validate_basic() {
            Ok(()) => {},
            Err(e) => {
                let m = e.message();
                return Err(state_error("Transaction validation error: ", &m));
            },
        }
        let copy = tx.duplicate();
        let ghost pool0 = self.mempool.pool();
        self.mempool.add_transaction(copy)?;
        let ghost pool1 = self.mempool.pool();
        match self.state.apply_transaction(&tx) {
            Ok(()) => {},
            Err(e) => {
                let _ = self.mempool.remove_transaction(tx.hash.as_str());
                proof {
                    lemma_without_pushed(pool0, pool1.last());
                    assert(pool1 == pool0.push(pool1.last()));
                }
                return Err(e);
            },
        }
        Ok(tx.hash)
    }
}

} // verus!
