//! Slashing: a stake cut and a reputation penalty for misbehaviour, with
//! suspension below a reputation threshold.
use vstd::prelude::*;
use crate::error::{PlatariumError, is_state_error};
use crate::node_registry::{
    NodeId,
    NodeRegistry,
    Node,
    NodeStatus,
    SCORE_SCALE,
    all_reputed,
    has_node,
    max_stake_of,
    node_index,
};
use crate::order::texts;

verus! {

/// Reputation below which a slashed node is suspended.
pub const SUSPENSION_THRESHOLD: u64 = 100_000;

#[derive(Debug, Clone, Copy, PartialEq, Eq, Structural)]
pub enum SlashingReason {
    NoVote,
    AgainstMajority,
    Equivocation,
    InvalidTx,
}

#[derive(Debug, Clone, PartialEq, Eq)]
pub enum SlashingError {
    NodeNotFound(NodeId),
    Other(String),
}

/// Reputation taken for each reason: 2 %, 3 %, 15 % and 10 % of the scale.
pub open spec fn reputation_penalty(reason: SlashingReason) -> u64 {
    match reason {
        SlashingReason::NoVote => 20_000,
        SlashingReason::AgainstMajority => 30_000,
        SlashingReason::Equivocation => 150_000,
        SlashingReason::InvalidTx => 100_000,
    }
}

/// Stake taken for each reason.
pub open spec fn stake_slash(reason: SlashingReason) -> u128 {
    match reason {
        SlashingReason::NoVote => 1,
        SlashingReason::AgainstMajority => 2,
        SlashingReason::Equivocation => 100,
        SlashingReason::InvalidTx => 50,
    }
}

/// The nodes once the node with this id is slashed: its stake cut (not below
/// 0) and every reputation recomputed (less each node's penalties so far),
/// then its reputation lowered (not below 0), the penalty added to its
/// penalties, and the node suspended if its reputation is under `threshold`.
/// Unknown ids change nothing.
pub open spec fn slashed(s: Seq<Node>, id: Seq<char>, reason: SlashingReason, threshold: u64) -> Seq<Node> {
    if !has_node(s, id) {
        s
    } else {
        let i = node_index(s, id);
        let n = s[i];
        let cut = if n.stake >= stake_slash(reason) {
            (n.stake - stake_slash(reason)) as u128
        } else {
            0
        };
        let staked = s.update(i, Node { stake: cut, ..n });
        let r = all_reputed(staked, max_stake_of(staked));
        let m = r[i];
        let rep = if m.reputation_score >= reputation_penalty(reason) {
            (m.reputation_score - reputation_penalty(reason)) as u64
        } else {
            0
        };
        r.update(
            i,
            Node {
                reputation_score: rep,
                status: if rep < threshold {
                    NodeStatus::Suspended
                } else {
                    m.status
                },
                penalty_total: if m.penalty_total as int + reputation_penalty(reason) as int > u64::MAX {
                    u64::MAX
                } else {
                    (m.penalty_total + reputation_penalty(reason)) as u64
                },
                ..m
            },
        )
    }
}

/// The nodes once each listed id in turn has been slashed.
pub open spec fn slashed_all(s: Seq<Node>, ids: Seq<Seq<char>>, reason: SlashingReason) -> Seq<Node>
    decreases ids.len(),
{
    if ids.len() == 0 {
        s
    } else {
        slashed(slashed_all(s, ids.drop_last(), reason), ids.last(), reason, SUSPENSION_THRESHOLD)
    }
}

fn reputation_penalty_for(reason: SlashingReason) -> (r: u64)
    ensures
        r == reputation_penalty(reason),
{
    match reason {
        SlashingReason::NoVote => (SCORE_SCALE * 2) / 100,
        SlashingReason::AgainstMajority => (SCORE_SCALE * 3) / 100,
        SlashingReason::Equivocation => (SCORE_SCALE * 15) / 100,
        SlashingReason::InvalidTx => (SCORE_SCALE * 10) / 100,
    }
}

fn stake_slash_for(reason: SlashingReason) -> (r: u128)
    ensures
        r == stake_slash(reason),
{
    match reason {
        SlashingReason::NoVote => 1,
        SlashingReason::AgainstMajority => 2,
        SlashingReason::Equivocation => 100,
        SlashingReason::InvalidTx => 50,
    }
}

/// Slashes a node with the default suspension threshold.
pub fn apply_slash(registry: &mut NodeRegistry, node_id: &NodeId, reason: SlashingReason) -> (r: Result<
    (),
    PlatariumError,
>)
    requires
        old(registry).wf(),
    ensures
        final(registry).wf(),
        r.is_ok() == has_node(old(registry).nodes(), node_id@),
        r matches Err(e) ==> is_state_error(e, "Slashing: Node not found: "@ + node_id@),
        final(registry).nodes() == slashed(old(registry).nodes(), node_id@, reason, SUSPENSION_THRESHOLD),
{
    apply_slash_with_threshold(registry, node_id, reason, SUSPENSION_THRESHOLD)
}

/// Cuts the node's stake (which recomputes every reputation), then lowers its
/// reputation and suspends it below `suspension_threshold`. Fails, changing
/// nothing, on an unknown id.
pub fn apply_slash_with_threshold(
    registry: &mut NodeRegistry,
    node_id: &NodeId,
    reason: SlashingReason,
    suspension_threshold: u64,
) -> (r: Result<(), PlatariumError>)
    requires
        old(registry).wf(),
    ensures
        final(registry).wf(),
        r.is_ok() == has_node(old(registry).nodes(), node_id@),
        r matches Err(e) ==> is_state_error(e, "Slashing: Node not found: "@ + node_id@),
        final(registry).nodes() == slashed(old(registry).nodes(), node_id@, reason, suspension_threshold),
{
    let node = match registry.get(node_id) {
        Some(n) => n,
        None => {
            let mut m = String::from_str("Slashing: Node not found: ");
            m.append(node_id.as_str());
            return Err(PlatariumError::State(m));
        },
    };
    let rep_penalty = reputation_penalty_for(reason);
    let stake_cut = stake_slash_for(reason);
    let new_stake = node.stake.saturating_sub(stake_cut);
    let ghost s0 = registry.nodes();
    let ghost i = node_index(s0, node_id@);
    let _ = registry.set_stake(node_id, new_stake);
    proof {
        let staked = s0.update(i, Node { stake: new_stake, ..s0[i] });
        assert(registry.nodes() == all_reputed(staked, max_stake_of(staked)));
        assert(registry.nodes()[i].node_id@ == node_id@);
        assert(has_node(registry.nodes(), node_id@));
        registry.lemma_index_of(node_id@, i);
    }
    let _ = registry.apply_reputation_penalty(node_id, rep_penalty, suspension_threshold);
    Ok(())
}

/// Slashes each listed node in turn, passing over unknown ids.
pub fn apply_slash_batch(registry: &mut NodeRegistry, node_ids: &[NodeId], reason: SlashingReason) -> (r:
    Result<(), PlatariumError>)
    requires
        old(registry).wf(),
    ensures
        final(registry).wf(),
        r.is_ok(),
        final(registry).nodes() == slashed_all(old(registry).nodes(), texts(node_ids@), reason),
{
    let ghost start = registry.nodes();
    let mut i: usize = 0;
    while i < node_ids.len()
        invariant
            i <= node_ids@.len(),
            registry.wf(),
            registry.nodes() == slashed_all(start, texts(node_ids@).subrange(0, i as int), reason),
        decreases node_ids.len() - i,
    {
        let _ = apply_slash(registry, &node_ids[i], reason);
        assert(texts(node_ids@).subrange(0, i + 1).drop_last() =~= texts(node_ids@).subrange(0, i as int));
        i = i + 1;
    }
    assert(texts(node_ids@).subrange(0, node_ids@.len() as int) =~= texts(node_ids@));
    Ok(())
}

/// The reputation penalty and the stake cut of a reason.
pub fn penalty_amounts(reason: SlashingReason) -> (r: (u64, u128))
    ensures
        r == (reputation_penalty(reason), stake_slash(reason)),
{
    (reputation_penalty_for(reason), stake_slash_for(reason))
}

} // verus!
