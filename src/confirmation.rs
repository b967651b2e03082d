//! Two-layer vote aggregation: a threshold decides confirmation, and voters
//! against the majority are listed for penalties.
use vstd::prelude::*;
use crate::error::{PlatariumError, is_state_error};
use crate::execution::{ExecutionLogic, applicability_text};
use crate::node_registry::{NodeId, NodeRegistry, Node, has_node, ids, node_index, not_found_text, voted};
use crate::order::texts;
use crate::state::State;
use crate::transaction::{Transaction, basic_fault};

verus! {

/// Per cent of confirming votes a transaction needs at the first layer.
pub const L1_CONFIRM_THRESHOLD_PCT: u64 = 67;

#[derive(Debug, Clone, Copy, PartialEq, Eq, Structural)]
pub enum Vote {
    Confirm,
    Reject,
}

#[derive(Debug, Clone, Copy, PartialEq, Eq, Structural)]
pub enum ConfirmationResult {
    Confirmed,
    Rejected,
}

#[derive(Debug, Clone, PartialEq, Eq)]
pub enum ConfirmationError {
    NoVotes,
    Other(String),
}

/// Number of confirming votes.
pub open spec fn confirm_count(votes: Seq<(NodeId, Vote)>) -> nat
    decreases votes.len(),
{
    if votes.len() == 0 {
        0
    } else {
        confirm_count(votes.drop_last()) + if votes.last().1 == Vote::Confirm {
            1nat
        } else {
            0nat
        }
    }
}

/// Whether the confirming share reaches `threshold_pct` per cent.
pub open spec fn reaches_threshold(votes: Seq<(NodeId, Vote)>, threshold_pct: nat) -> bool {
    confirm_count(votes) * 100 >= votes.len() * threshold_pct
}

/// `Confirm` when more than half confirm, else `Reject`.
pub open spec fn majority_of(votes: Seq<(NodeId, Vote)>) -> Vote {
    if confirm_count(votes) > votes.len() / 2 {
        Vote::Confirm
    } else {
        Vote::Reject
    }
}

/// Ids of the voters whose vote is not `majority`, in vote order.
pub open spec fn dissenters(votes: Seq<(NodeId, Vote)>, majority: Vote) -> Seq<Seq<char>>
    decreases votes.len(),
{
    if votes.len() == 0 {
        Seq::empty()
    } else if votes.last().1 != majority {
        dissenters(votes.drop_last(), majority).push(votes.last().0@)
    } else {
        dissenters(votes.drop_last(), majority)
    }
}

/// The nodes after each listed id, in order, has been recorded as missing a vote.
pub open spec fn after_missed_votes(s: Seq<Node>, penalized: Seq<Seq<char>>) -> Seq<Node>
    decreases penalized.len(),
{
    if penalized.len() == 0 {
        s
    } else {
        voted(after_missed_votes(s, penalized.drop_last()), penalized.last(), true)
    }
}

/// Counts the votes and lists the dissenters from the majority: whether the
/// confirming share reaches the threshold, and who voted otherwise.
pub fn tally(votes: &[(NodeId, Vote)], threshold_pct: u64) -> (r: (bool, Vec<NodeId>))
    requires
        threshold_pct <= 100,
    ensures
        r.0 == reaches_threshold(votes@, threshold_pct as nat),
        texts(r.1@) == dissenters(votes@, majority_of(votes@)),
{
    let mut confirms: usize = 0;
    let mut i: usize = 0;
    while i < votes.len()
        invariant
            i <= votes@.len(),
            confirms == confirm_count(votes@.subrange(0, i as int)),
            confirms <= i,
        decreases votes.len() - i,
    {
        assert(votes@.subrange(0, i + 1).drop_last() =~= votes@.subrange(0, i as int));
        if votes[i].1 == Vote::Confirm {
            confirms = confirms + 1;
        }
        i = i + 1;
    }
    assert(votes@.subrange(0, votes@.len() as int) =~= votes@);
    let total = votes.len() as u128;
    proof {
        assert(total * (threshold_pct as u128) <= 0xffff_ffff_ffff_ffffu128 * 100) by (nonlinear_arith)
            requires
                total <= 0xffff_ffff_ffff_ffffu128,
                threshold_pct <= 100,
        ;
    }
    let reached = (confirms as u128) * 100 >= total * (threshold_pct as u128);
    let majority = if confirms as u128 > total / 2 {
        Vote::Confirm
    } else {
        Vote::Reject
    };
    let mut penalize: Vec<NodeId> = Vec::new();
    let mut j: usize = 0;
    while j < votes.len()
        invariant
            j <= votes@.len(),
            majority == majority_of(votes@),
            texts(penalize@) == dissenters(votes@.subrange(0, j as int), majority),
        decreases votes.len() - j,
    {
        assert(votes@.subrange(0, j + 1).drop_last() =~= votes@.subrange(0, j as int));
        if votes[j].1 != majority {
            penalize.push(votes[j].0.clone());
            assert(texts(penalize@) =~= dissenters(votes@.subrange(0, j + 1), majority));
        }
        j = j + 1;
    }
    (reached, penalize)
}

/// Whether `tx` would be accepted: valid, and applicable to `state`.
pub fn verify_tx_for_l1(state: &State, tx: &Transaction) -> (r: Result<bool, PlatariumError>)
    requires
        state.wf(),
    ensures
        r == Ok::<bool, PlatariumError>(basic_fault(*tx).is_none() && applicability_text(state@, *tx).is_none()),
{
    let valid = ExecutionLogic::validate_transaction(tx).is_ok();
    if !valid {
        return Ok(false);
    }
    let applicable = ExecutionLogic::check_transaction_applicability(state, tx).is_ok();
    Ok(applicable)
}

/// First-layer aggregation: confirmed when at least 67 % confirm; the
/// dissenters from the majority are listed. Fails on an empty list.
pub fn process_l1_confirmation(votes: &[(NodeId, Vote)]) -> (r: Result<
    (ConfirmationResult, Vec<NodeId>),
    PlatariumError,
>)
    ensures
        votes@.len() == 0 ==> (r matches Err(e) && is_state_error(
            e,
            "ConfirmationLayer: No votes provided"@,
        )),
        votes@.len() > 0 ==> (r matches Ok((res, pen)) && (res == ConfirmationResult::Confirmed
            <==> confirm_count(votes@) * 100 >= votes@.len() * 67) && texts(pen@) == dissenters(
            votes@,
            majority_of(votes@),
        )),
{
    if votes.len() == 0 {
        return Err(PlatariumError::State(String::from_str("ConfirmationLayer: No votes provided")));
    }
    let (reached, penalize) = tally(votes, L1_CONFIRM_THRESHOLD_PCT);
    let result = if reached {
        ConfirmationResult::Confirmed
    } else {
        ConfirmationResult::Rejected
    };
    Ok((result, penalize))
}

/// Checks `tx` (the verdict is advisory) and aggregates the first-layer votes.
pub fn confirm_transaction_l1(state: &State, tx: &Transaction, votes: &[(NodeId, Vote)]) -> (r: Result<
    (ConfirmationResult, Vec<NodeId>),
    PlatariumError,
>)
    requires
        state.wf(),
    ensures
        votes@.len() == 0 ==> r.is_err(),
        votes@.len() > 0 ==> (r matches Ok((res, pen)) && (res == ConfirmationResult::Confirmed
            <==> confirm_count(votes@) * 100 >= votes@.len() * 67) && texts(pen@) == dissenters(
            votes@,
            majority_of(votes@),
        )),
{
    let _valid = verify_tx_for_l1(state, tx)?;
    process_l1_confirmation(votes)
}

/// Records a missed vote for each listed node, in order; stops at the first
/// unknown id with its error.
pub fn record_missed_votes(registry: &mut NodeRegistry, to_penalize: &[NodeId]) -> (r: Result<
    (),
    PlatariumError,
>)
    requires
        old(registry).wf(),
    ensures
        final(registry).wf(),
        ids(final(registry).nodes()) == ids(old(registry).nodes()),
        r.is_ok() == (forall|i: int|
            0 <= i < to_penalize@.len() ==> has_node(old(registry).nodes(), #[trigger] to_penalize@[i]@)),
        r.is_ok() ==> final(registry).nodes() == after_missed_votes(old(registry).nodes(), texts(to_penalize@)),
        r matches Err(e) ==> exists|k: int|
            0 <= k < to_penalize@.len() && !has_node(old(registry).nodes(), #[trigger] to_penalize@[k]@)
                && (forall|j: int| 0 <= j < k ==> has_node(old(registry).nodes(), #[trigger] to_penalize@[j]@))
                && is_state_error(e, not_found_text(to_penalize@[k]@)) && final(registry).nodes()
                == after_missed_votes(old(registry).nodes(), texts(to_penalize@).subrange(0, k)),
{
    let ghost start = registry.nodes();
    let mut i: usize = 0;
    while i < to_penalize.len()
        invariant
            i <= to_penalize@.len(),
            registry.wf(),
            ids(registry.nodes()) == ids(start),
            start == old(registry).nodes(),
            forall|j: int| 0 <= j < i ==> has_node(start, #[trigger] to_penalize@[j]@),
            registry.nodes() == after_missed_votes(start, texts(to_penalize@).subrange(0, i as int)),
        decreases to_penalize.len() - i,
    {
        let ghost before = registry.nodes();
        let id = &to_penalize[i];
        let res = registry.record_vote(id, true);
        proof {
            lemma_has_node_ids(before, start, id@);
        }
        match res {
            Ok(()) => {},
            Err(e) => {
                proof {
                    assert(!has_node(before, id@));
                    assert(registry.nodes() == before);
                    assert(start == old(registry).nodes());
                    assert(!has_node(start, to_penalize@[i as int]@));
                    assert(!has_node(old(registry).nodes(), to_penalize@[i as int]@));
                    assert(0 <= i < to_penalize@.len() && !has_node(start, to_penalize@[i as int]@)
                        && (forall|j: int| 0 <= j < i ==> has_node(start, #[trigger] to_penalize@[j]@))
                        && is_state_error(e, not_found_text(to_penalize@[i as int]@))
                        && registry.nodes() == after_missed_votes(start, texts(to_penalize@).subrange(0, i as int)));
                }
                return Err(e);
            },
        }
        proof {
            lemma_voted_ids(before, id@);
            assert(texts(to_penalize@).subrange(0, i + 1).drop_last() =~= texts(to_penalize@).subrange(
                0,
                i as int,
            ));
            assert(texts(to_penalize@).subrange(0, i + 1).last() == id@);
        }
        i = i + 1;
    }
    assert(texts(to_penalize@).subrange(0, to_penalize@.len() as int) =~= texts(to_penalize@));
    Ok(())
}

/// Presence of an id depends on the ids alone.
pub proof fn lemma_has_node_ids(a: Seq<Node>, b: Seq<Node>, id: Seq<char>)
    requires
        ids(a) == ids(b),
    ensures
        has_node(a, id) == has_node(b, id),
{
    assert(ids(a).len() == a.len());
    assert(ids(b).len() == b.len());
    if has_node(a, id) {
        let i = choose|i: int| 0 <= i < a.len() && #[trigger] a[i].node_id@ == id;
        assert(ids(a)[i] == id);
        assert(b[i].node_id@ == ids(b)[i]);
    }
    if has_node(b, id) {
        let i = choose|i: int| 0 <= i < b.len() && #[trigger] b[i].node_id@ == id;
        assert(ids(b)[i] == id);
        assert(a[i].node_id@ == ids(a)[i]);
    }
}

/// A vote changes no id.
pub proof fn lemma_voted_ids(s: Seq<Node>, id: Seq<char>)
    requires
        has_node(s, id),
    ensures
        ids(voted(s, id, true)) == ids(s),
{
    assert(ids(voted(s, id, true)) =~= ids(s));
}

/// First-layer penalties: a missed vote for each listed node, in order. At
/// the first unknown id it stops with that error; the ids before it have been
/// penalized and the rest are untouched.
pub fn apply_l1_penalties(registry: &mut NodeRegistry, to_penalize: &[NodeId]) -> (r: Result<(), PlatariumError>)
    requires
        old(registry).wf(),
    ensures
        final(registry).wf(),
        r.is_ok() == (forall|i: int|
            0 <= i < to_penalize@.len() ==> has_node(old(registry).nodes(), #[trigger] to_penalize@[i]@)),
        r.is_ok() ==> final(registry).nodes() == after_missed_votes(old(registry).nodes(), texts(to_penalize@)),
        r matches Err(e) ==> exists|k: int|
            0 <= k < to_penalize@.len() && !has_node(old(registry).nodes(), #[trigger] to_penalize@[k]@)
                && (forall|j: int| 0 <= j < k ==> has_node(old(registry).nodes(), #[trigger] to_penalize@[j]@))
                && is_state_error(e, not_found_text(to_penalize@[k]@)) && final(registry).nodes()
                == after_missed_votes(old(registry).nodes(), texts(to_penalize@).subrange(0, k))
{
    record_missed_votes(registry, to_penalize)
}

} // verus!
