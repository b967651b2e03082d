//! The validator registry: per-node scores, an integer reputation derived from
//! them, and the load-aware selection weights.
use vstd::prelude::*;
use crate::arith::mul_div_floor;
use crate::encoding::{decimal, push_decimal};
use crate::error::{PlatariumError, is_state_error};
use crate::order::{lemma_insert_sorted, lemma_remove_sorted, lemma_text_lt_total, strictly_sorted, text_less, text_lt};

verus! {

/// Fixed-point scale of every score.
pub const SCORE_SCALE: u64 = 1_000_000;

pub const WEIGHT_UPTIME: u64 = 300;
pub const WEIGHT_LATENCY: u64 = 200;
pub const WEIGHT_VOTE_ACCURACY: u64 = 300;
pub const WEIGHT_STAKE: u64 = 200;

#[derive(Debug, Clone, Copy, PartialEq, Eq, Structural)]
pub enum NodeStatus {
    Active,
    Suspended,
}

pub type NodeId = String;

/// A validator and its scores, each in `0..=SCORE_SCALE`.
#[derive(Debug, Clone)]
pub struct Node {
    pub node_id: NodeId,
    pub public_key: String,
    pub stake: u128,
    pub reputation_score: u64,
    pub uptime_score: u64,
    pub latency_score: u64,
    pub load_score: u64,
    pub missed_votes: u64,
    pub total_votes: u64,
    pub current_tasks: u64,
    pub max_capacity: u64,
    pub status: NodeStatus,
    /// Reputation penalties received so far; every recomputed reputation
    /// has them subtracted.
    pub penalty_total: u64,
}

#[derive(Debug, Clone, PartialEq, Eq)]
pub enum NodeRegistryError {
    DuplicateNode(NodeId),
    NodeNotFound(NodeId),
    InvalidScore(u64, u64),
    Other(String),
}

/// Scores within scale and a positive capacity.
pub open spec fn node_wf(n: Node) -> bool {
    &&& n.reputation_score <= SCORE_SCALE
    &&& n.uptime_score <= SCORE_SCALE
    &&& n.latency_score <= SCORE_SCALE
    &&& n.load_score <= SCORE_SCALE
    &&& n.max_capacity >= 1
}

/// Share of votes not missed, scaled; full when there were none.
pub open spec fn vote_accuracy_of(n: Node) -> u64 {
    if n.total_votes == 0 {
        SCORE_SCALE
    } else {
        ((if n.missed_votes <= n.total_votes {
            n.total_votes - n.missed_votes
        } else {
            0
        }) * SCORE_SCALE / (n.total_votes as int)) as u64
    }
}

/// Tasks against capacity, scaled, at most full.
pub open spec fn load_of(current_tasks: u64, max_capacity: u64) -> u64 {
    let cap = if max_capacity >= 1 {
        max_capacity
    } else {
        1
    };
    if current_tasks >= cap {
        SCORE_SCALE
    } else {
        (current_tasks * SCORE_SCALE / (cap as int)) as u64
    }
}

/// Stake against the largest stake, scaled, at most full; full when the largest is 0.
pub open spec fn stake_weight_of(stake: u128, max_stake: u128) -> u64 {
    if max_stake == 0 {
        SCORE_SCALE
    } else if stake >= max_stake {
        SCORE_SCALE
    } else {
        (stake * SCORE_SCALE / (max_stake as int)) as u64
    }
}

/// The weighted score: uptime 300, latency 200, vote accuracy 300, stake 200, per 1000.
pub open spec fn score_of(n: Node, max_stake: u128) -> u64 {
    ((n.uptime_score * WEIGHT_UPTIME + n.latency_score * WEIGHT_LATENCY + vote_accuracy_of(n)
        * WEIGHT_VOTE_ACCURACY + stake_weight_of(n.stake, max_stake) * WEIGHT_STAKE) / 1000) as u64
}

/// The reputation: the weighted score less the penalties received, not below 0.
pub open spec fn reputation_of(n: Node, max_stake: u128) -> u64 {
    if score_of(n, max_stake) >= n.penalty_total {
        (score_of(n, max_stake) - n.penalty_total) as u64
    } else {
        0
    }
}

/// The node with its reputation recomputed against `max_stake`.
pub open spec fn reputed(n: Node, max_stake: u128) -> Node {
    Node { reputation_score: reputation_of(n, max_stake), ..n }
}

/// Reputation reduced by the load share.
pub open spec fn selection_weight_of(n: Node) -> u64 {
    (n.reputation_score * (if n.load_score <= SCORE_SCALE {
        SCORE_SCALE - n.load_score
    } else {
        0
    }) / (SCORE_SCALE as int)) as u64
}

/// Reputation divided by the load (at least 1), scaled.
pub open spec fn selection_weight_ratio_of(n: Node) -> u64 {
    (n.reputation_score * SCORE_SCALE / (if n.load_score >= 1 {
        n.load_score
    } else {
        1
    }) as int) as u64
}

/// The largest stake, 0 for none.
pub open spec fn max_stake_of(s: Seq<Node>) -> u128
    decreases s.len(),
{
    if s.len() == 0 {
        0
    } else {
        let m = max_stake_of(s.drop_last());
        if s.last().stake > m {
            s.last().stake
        } else {
            m
        }
    }
}

/// The ids of a sequence of nodes.
pub open spec fn ids(s: Seq<Node>) -> Seq<Seq<char>> {
    s.map_values(|n: Node| n.node_id@)
}

pub open spec fn has_node(s: Seq<Node>, id: Seq<char>) -> bool {
    exists|i: int| 0 <= i < s.len() && #[trigger] s[i].node_id@ == id
}

/// The position of the node with this id.
pub open spec fn node_index(s: Seq<Node>, id: Seq<char>) -> int {
    choose|i: int| 0 <= i < s.len() && #[trigger] s[i].node_id@ == id
}

/// Every node's reputation recomputed against `max_stake`.
pub open spec fn all_reputed(s: Seq<Node>, max_stake: u128) -> Seq<Node> {
    s.map_values(|n: Node| reputed(n, max_stake))
}

/// The active nodes, order kept.
pub open spec fn active_nodes(s: Seq<Node>) -> Seq<Node>
    decreases s.len(),
{
    if s.len() == 0 {
        s
    } else if s.last().status == NodeStatus::Active {
        active_nodes(s.drop_last()).push(s.last())
    } else {
        active_nodes(s.drop_last())
    }
}

/// The nodes once the node with this id has cast a vote (a missed one where
/// `missed`): counters held at `u64::MAX`, reputation recomputed.
pub open spec fn voted(s: Seq<Node>, id: Seq<char>, missed: bool) -> Seq<Node> {
    let i = node_index(s, id);
    let n = s[i];
    s.update(
        i,
        reputed(
            Node {
                total_votes: if n.total_votes == u64::MAX {
                    u64::MAX
                } else {
                    (n.total_votes + 1) as u64
                },
                missed_votes: if !missed {
                    n.missed_votes
                } else if n.missed_votes == u64::MAX {
                    u64::MAX
                } else {
                    (n.missed_votes + 1) as u64
                },
                ..n
            },
            max_stake_of(s),
        ),
    )
}

pub open spec fn not_found_text(id: Seq<char>) -> Seq<char> {
    "NodeRegistry: Node not found: "@ + id
}

pub open spec fn invalid_score_text(score: u64) -> Seq<char> {
    "NodeRegistry: Invalid score: must be 0..="@ + decimal(SCORE_SCALE as nat) + ", got "@ + decimal(
        score as nat,
    )
}

proof fn lemma_reputation_bound(n: Node, max_stake: u128)
    requires
        node_wf(n),
    ensures
        reputation_of(n, max_stake) <= SCORE_SCALE,
        score_of(n, max_stake) <= SCORE_SCALE,
        vote_accuracy_of(n) <= SCORE_SCALE,
        stake_weight_of(n.stake, max_stake) <= SCORE_SCALE,
{
    if n.total_votes > 0 {
        let c = if n.missed_votes <= n.total_votes {
            n.total_votes - n.missed_votes
        } else {
            0
        };
        assert(c * SCORE_SCALE / (n.total_votes as int) <= SCORE_SCALE as int) by (nonlinear_arith)
            requires
                0 <= c <= n.total_votes,
                n.total_votes > 0,
        ;
    }
    if max_stake > 0 && n.stake < max_stake {
        assert(n.stake * SCORE_SCALE / (max_stake as int) <= SCORE_SCALE as int) by (nonlinear_arith)
            requires
                n.stake < max_stake,
        ;
    }
}

/// A newly registered node: full uptime, latency and reputation, no load; a
/// capacity of 0 counts as 1.
pub open spec fn fresh_node(node_id: NodeId, public_key: String, stake: u128, max_capacity: u64) -> Node {
    Node {
        node_id,
        public_key,
        stake,
        reputation_score: SCORE_SCALE,
        uptime_score: SCORE_SCALE,
        latency_score: SCORE_SCALE,
        load_score: 0,
        missed_votes: 0,
        total_votes: 0,
        current_tasks: 0,
        max_capacity: if max_capacity == 0 {
            1
        } else {
            max_capacity
        },
        status: NodeStatus::Active,
        penalty_total: 0,
    }
}

/// A node as registration stores it: fresh, with its reputation computed
/// against the largest stake, its own included.
pub open spec fn registered_node(
    existing: Seq<Node>,
    node_id: NodeId,
    public_key: String,
    stake: u128,
    max_capacity: u64,
) -> Node {
    reputed(
        fresh_node(node_id, public_key, stake, max_capacity),
        if stake > max_stake_of(existing) {
            stake
        } else {
            max_stake_of(existing)
        },
    )
}

impl Node {
    /// A fresh active node: full uptime, latency and reputation, no load; a
    /// capacity of 0 counts as 1.
    pub fn new(node_id: NodeId, public_key: String, stake: u128, max_capacity: u64) -> (r: Self)
        ensures
            node_wf(r),
            r == fresh_node(node_id, public_key, stake, max_capacity),
    {
        Node {
            node_id,
            public_key,
            stake,
            reputation_score: SCORE_SCALE,
            uptime_score: SCORE_SCALE,
            latency_score: SCORE_SCALE,
            load_score: 0,
            missed_votes: 0,
            total_votes: 0,
            current_tasks: 0,
            max_capacity: if max_capacity == 0 {
                1
            } else {
                max_capacity
            },
            status: NodeStatus::Active,
            penalty_total: 0,
        }
    }

    /// A copy of the node.
    pub fn duplicate(&self) -> (r: Node)
        ensures
            r == *self,
    {
        Node {
            node_id: self.node_id.clone(),
            public_key: self.public_key.clone(),
            stake: self.stake,
            reputation_score: self.reputation_score,
            uptime_score: self.uptime_score,
            latency_score: self.latency_score,
            load_score: self.load_score,
            missed_votes: self.missed_votes,
            total_votes: self.total_votes,
            current_tasks: self.current_tasks,
            max_capacity: self.max_capacity,
            status: self.status,
            penalty_total: self.penalty_total,
        }
    }

    pub fn vote_accuracy(&self) -> (r: u64)
        ensures
            r == vote_accuracy_of(*self),
            r <= SCORE_SCALE,
    {
        if self.total_votes == 0 {
            return SCORE_SCALE;
        }
        let correct = self.total_votes.saturating_sub(self.missed_votes);
        let v = (correct as u128 * SCORE_SCALE as u128) / self.total_votes as u128;
        proof {
            assert(correct as int * SCORE_SCALE as int / (self.total_votes as int) <= SCORE_SCALE as int)
                by (nonlinear_arith)
                requires
                    0 <= correct <= self.total_votes,
                    self.total_votes > 0,
            ;
        }
        v as u64
    }

    /// Sets the load from the current tasks and the capacity (at least 1).
    pub fn recompute_load_score(&mut self)
        ensures
            *final(self) == (Node { load_score: load_of(old(self).current_tasks, old(self).max_capacity), ..*old(self) }),
    {
        let cap = if self.max_capacity >= 1 {
            self.max_capacity
        } else {
            1
        };
        self.load_score = if self.current_tasks >= cap {
            SCORE_SCALE
        } else {
            proof {
                assert(self.current_tasks as int * SCORE_SCALE as int / (cap as int) <= SCORE_SCALE as int)
                    by (nonlinear_arith)
                    requires
                        self.current_tasks < cap,
                ;
            }
            ((self.current_tasks as u128 * SCORE_SCALE as u128) / cap as u128) as u64
        };
    }

    /// Recomputes the reputation against the registry's largest stake.
    pub fn compute_reputation(&mut self, max_stake: u128)
        requires
            node_wf(*old(self)),
        ensures
            *final(self) == reputed(*old(self), max_stake),
            node_wf(*final(self)),
    {
        let vote_acc = self.vote_accuracy();
        let stake_weight: u64 = if max_stake == 0 {
            SCORE_SCALE
        } else if self.stake >= max_stake {
            SCORE_SCALE
        } else {
            let w = mul_div_floor(self.stake, SCORE_SCALE, max_stake);
            proof {
                lemma_reputation_bound(*self, max_stake);
            }
            w as u64
        };
        proof {
            lemma_reputation_bound(*self, max_stake);
        }
        let sum = self.uptime_score as u128 * WEIGHT_UPTIME as u128 + self.latency_score as u128
            * WEIGHT_LATENCY as u128 + vote_acc as u128 * WEIGHT_VOTE_ACCURACY as u128
            + stake_weight as u128 * WEIGHT_STAKE as u128;
        let score = (sum / 1000) as u64;
        self.reputation_score = score.saturating_sub(self.penalty_total);
    }

    /// Reputation reduced by the load share.
    pub fn selection_weight(&self) -> (r: u64)
        requires
            node_wf(*self),
        ensures
            r == selection_weight_of(*self),
    {
        let load_penalty = SCORE_SCALE.saturating_sub(self.load_score);
        proof {
            assert(self.reputation_score * load_penalty / (SCORE_SCALE as int) <= SCORE_SCALE as int) by (nonlinear_arith)
                requires
                    self.reputation_score <= SCORE_SCALE,
                    load_penalty <= SCORE_SCALE,
            ;
        }
        ((self.reputation_score as u128 * load_penalty as u128) / SCORE_SCALE as u128) as u64
    }

    /// Reputation divided by the load (at least 1), scaled.
    pub fn selection_weight_ratio(&self) -> (r: u64)
        requires
            node_wf(*self),
        ensures
            r == selection_weight_ratio_of(*self),
    {
        let denom = if self.load_score >= 1 {
            self.load_score
        } else {
            1
        };
        proof {
            assert(self.reputation_score * SCORE_SCALE / (denom as int) <= SCORE_SCALE * SCORE_SCALE)
                by (nonlinear_arith)
                requires
                    self.reputation_score <= SCORE_SCALE,
                    denom >= 1,
            ;
        }
        ((self.reputation_score as u128 * SCORE_SCALE as u128) / denom as u128) as u64
    }
}

/// The registered nodes, kept in increasing id order.
#[derive(Debug)]
pub struct NodeRegistry {
    nodes: Vec<Node>,
}

fn not_found(node_id: &NodeId) -> (r: PlatariumError)
    ensures
        is_state_error(r, not_found_text(node_id@)),
{
    let mut m = String::from_str("NodeRegistry: Node not found: ");
    m.append(node_id.as_str());
    PlatariumError::State(m)
}

fn invalid_score(score: u64) -> (r: PlatariumError)
    ensures
        is_state_error(r, invalid_score_text(score)),
{
    let mut m = String::from_str("NodeRegistry: Invalid score: must be 0..=");
    push_decimal(&mut m, SCORE_SCALE as u128);
    m.append(", got ");
    push_decimal(&mut m, score as u128);
    PlatariumError::State(m)
}

impl NodeRegistry {
    /// The nodes in increasing id order.
    pub closed spec fn nodes(&self) -> Seq<Node> {
        self.nodes@
    }

    /// Ids increase strictly and every node is well formed.
    pub closed spec fn wf(&self) -> bool {
        &&& strictly_sorted(ids(self.nodes@))
        &&& forall|i: int| 0 <= i < self.nodes@.len() ==> node_wf(#[trigger] self.nodes@[i])
    }

    pub fn new() -> (r: Self)
        ensures
            r.wf(),
            r.nodes() == Seq::<Node>::empty(),
    {
        let r = NodeRegistry { nodes: Vec::new() };
        assert(ids(r.nodes@) =~= Seq::<Seq<char>>::empty());
        r
    }

    /// Where `id` stands, or where it would be inserted.
    fn locate(&self, id: &NodeId) -> (r: (usize, bool))
        requires
            self.wf(),
        ensures
            r.0 <= self.nodes@.len(),
            r.1 == has_node(self.nodes@, id@),
            r.1 ==> r.0 < self.nodes@.len() && self.nodes@[r.0 as int].node_id@ == id@,
            !r.1 ==> (forall|k: int| 0 <= k < r.0 ==> text_lt(#[trigger] ids(self.nodes@)[k], id@)) && (
            forall|k: int| r.0 <= k < self.nodes@.len() ==> text_lt(id@, #[trigger] ids(self.nodes@)[k])),
    {
        let mut p: usize = 0;
        while p < self.nodes.len() && text_less(&self.nodes[p].node_id, id)
            invariant
                p <= self.nodes@.len(),
                forall|k: int| 0 <= k < p ==> text_lt(#[trigger] ids(self.nodes@)[k], id@),
            decreases self.nodes.len() - p,
        {
            p = p + 1;
        }
        let found = p < self.nodes.len() && self.nodes[p].node_id == *id;
        proof {
            let s = ids(self.nodes@);
            if !found {
                if p < s.len() {
                    lemma_text_lt_total(s[p as int], id@);
                }
                assert forall|k: int| p <= k < s.len() implies text_lt(id@, #[trigger] s[k]) by {
                    if k > p {
                        assert(text_lt(s[p as int], s[k]));
                        crate::order::lemma_bytes_lt_transitive(
                            crate::order::text_bytes(id@),
                            crate::order::text_bytes(s[p as int]),
                            crate::order::text_bytes(s[k]),
                        );
                    }
                }
                if has_node(self.nodes@, id@) {
                    let i = choose|i: int| 0 <= i < self.nodes@.len() && #[trigger] self.nodes@[i].node_id@ == id@;
                    assert(s[i] == id@);
                    crate::order::lemma_bytes_lt_irreflexive(crate::order::text_bytes(id@));
                }
            } else {
                assert(self.nodes@[p as int].node_id@ == id@);
            }
        }
        (p, found)
    }

    /// Registers a node; its reputation is computed against the largest stake
    /// including its own. Fails on an id already registered.
    pub fn register(&mut self, node_id: NodeId, public_key: String, stake: u128, max_capacity: u64) -> (r:
        Result<(), PlatariumError>)
        requires
            old(self).wf(),
        ensures
            final(self).wf(),
            has_node(old(self).nodes(), node_id@) ==> r.is_err() && final(self).nodes() == old(self).nodes()
                && (r matches Err(e) && is_state_error(e, "NodeRegistry: Node already exists: "@ + node_id@)),
            !has_node(old(self).nodes(), node_id@) ==> r.is_ok() && exists|p: int|
                0 <= p <= old(self).nodes().len() && final(self).nodes() == #[trigger] old(self).nodes().insert(
                    p,
                    registered_node(old(self).nodes(), node_id, public_key, stake, max_capacity),
                ),
    {
        let (p, found) = self.locate(&node_id);
        if found {
            let mut m = String::from_str("NodeRegistry: Node already exists: ");
            m.append(node_id.as_str());
            return Err(PlatariumError::State(m));
        }
        let existing = self.max_stake();
        let max_stake = if stake > existing {
            stake
        } else {
            existing
        };
        let mut node = Node::new(node_id, public_key, stake, max_capacity);
        node.compute_reputation(max_stake);
        let ghost before = self.nodes@;
        let ghost nid = node.node_id@;
        self.nodes.insert(p, node);
        proof {
            assert(ids(self.nodes@) =~= ids(before).insert(p as int, nid));
            lemma_insert_sorted(ids(before), p as int, nid);
            assert forall|i: int| 0 <= i < self.nodes@.len() implies node_wf(#[trigger] self.nodes@[i]) by {
                if i < p {
                    assert(self.nodes@[i] == before[i]);
                } else if i > p {
                    assert(self.nodes@[i] == before[i - 1]);
                }
            }
        }
        Ok(())
    }

    /// Removes a node; fails where none has the id.
    pub fn unregister(&mut self, node_id: &NodeId) -> (r: Result<(), PlatariumError>)
        requires
            old(self).wf(),
        ensures
            final(self).wf(),
            has_node(old(self).nodes(), node_id@) ==> r.is_ok() && final(self).nodes() == old(self).nodes().remove(
                node_index(old(self).nodes(), node_id@),
            ),
            !has_node(old(self).nodes(), node_id@) ==> final(self).nodes() == old(self).nodes() && (r matches Err(
                e,
            ) && is_state_error(e, not_found_text(node_id@))),
    {
        let (p, found) = self.locate(node_id);
        if !found {
            return Err(not_found(node_id));
        }
        let ghost before = self.nodes@;
        proof {
            self.lemma_index(node_id@, p as int);
        }
        self.nodes.remove(p);
        proof {
            assert(ids(self.nodes@) =~= ids(before).remove(p as int));
            lemma_remove_sorted(ids(before), p as int);
            assert forall|i: int| 0 <= i < self.nodes@.len() implies node_wf(#[trigger] self.nodes@[i]) by {
                if i < p {
                    assert(self.nodes@[i] == before[i]);
                } else {
                    assert(self.nodes@[i] == before[i + 1]);
                }
            }
        }
        Ok(())
    }

    /// In a registry, the node with an id is the one at its index.
    pub proof fn lemma_index_of(&self, id: Seq<char>, p: int)
        requires
            self.wf(),
            0 <= p < self.nodes().len(),
            self.nodes()[p].node_id@ == id,
        ensures
            node_index(self.nodes(), id) == p,
    {
        self.lemma_index(id, p);
    }

    /// Ids are distinct, so the node with an id is the one at its index.
    proof fn lemma_index(&self, id: Seq<char>, p: int)
        requires
            self.wf(),
            0 <= p < self.nodes@.len(),
            self.nodes@[p].node_id@ == id,
        ensures
            node_index(self.nodes@, id) == p,
    {
        let i = node_index(self.nodes@, id);
        assert(has_node(self.nodes@, id));
        if i != p {
            let s = ids(self.nodes@);
            assert(s[i] == s[p]);
            if i < p {
                assert(text_lt(s[i], s[p]));
            } else {
                assert(text_lt(s[p], s[i]));
            }
            crate::order::lemma_bytes_lt_irreflexive(crate::order::text_bytes(id));
        }
    }

    /// A copy of the node with this id.
    pub fn get(&self, node_id: &NodeId) -> (r: Option<Node>)
        requires
            self.wf(),
        ensures
            has_node(self.nodes(), node_id@) ==> r == Some(self.nodes()[node_index(self.nodes(), node_id@)]),
            !has_node(self.nodes(), node_id@) ==> r.is_none(),
    {
        let (p, found) = self.locate(node_id);
        if found {
            proof {
                self.lemma_index(node_id@, p as int);
            }
            Some(self.nodes[p].duplicate())
        } else {
            None
        }
    }

    /// Copies of every node, in increasing id order.
    pub fn get_all(&self) -> (r: Vec<Node>)
        requires
            self.wf(),
        ensures
            r@ == self.nodes(),
            strictly_sorted(ids(r@)),
    {
        let mut r: Vec<Node> = Vec::new();
        let mut i: usize = 0;
        while i < self.nodes.len()
            invariant
                i <= self.nodes@.len(),
                r@ == self.nodes@.subrange(0, i as int),
            decreases self.nodes.len() - i,
        {
            r.push(self.nodes[i].duplicate());
            assert(r@ =~= self.nodes@.subrange(0, i + 1));
            i = i + 1;
        }
        assert(self.nodes@.subrange(0, self.nodes@.len() as int) =~= self.nodes@);
        r
    }

    /// The largest stake of any node, 0 for none.
    fn max_stake(&self) -> (r: u128)
        ensures
            r == max_stake_of(self.nodes@),
    {
        let mut m: u128 = 0;
        let mut i: usize = 0;
        while i < self.nodes.len()
            invariant
                i <= self.nodes@.len(),
                m == max_stake_of(self.nodes@.subrange(0, i as int)),
            decreases self.nodes.len() - i,
        {
            assert(self.nodes@.subrange(0, i + 1).drop_last() =~= self.nodes@.subrange(0, i as int));
            if self.nodes[i].stake > m {
                m = self.nodes[i].stake;
            }
            i = i + 1;
        }
        assert(self.nodes@.subrange(0, self.nodes@.len() as int) =~= self.nodes@);
        m
    }

    /// Recomputes every node's reputation against the largest stake.
    pub fn recompute_all_reputations(&mut self)
        requires
            old(self).wf(),
        ensures
            final(self).wf(),
            final(self).nodes() == all_reputed(old(self).nodes(), max_stake_of(old(self).nodes())),
    {
        let max_stake = self.max_stake();
        self.recompute_with(max_stake);
    }

    fn recompute_with(&mut self, max_stake: u128)
        requires
            old(self).wf(),
        ensures
            final(self).wf(),
            final(self).nodes() == all_reputed(old(self).nodes(), max_stake),
    {
        let ghost start = self.nodes@;
        let mut i: usize = 0;
        while i < self.nodes.len()
            invariant
                i <= self.nodes@.len(),
                self.nodes@.len() == start.len(),
                ids(self.nodes@) == ids(start),
                forall|j: int| 0 <= j < start.len() ==> node_wf(#[trigger] start[j]),
                forall|j: int| 0 <= j < i ==> #[trigger] self.nodes@[j] == reputed(start[j], max_stake),
                forall|j: int| i <= j < start.len() ==> #[trigger] self.nodes@[j] == start[j],
                forall|j: int| 0 <= j < self.nodes@.len() ==> node_wf(#[trigger] self.nodes@[j]),
            decreases self.nodes.len() - i,
        {
            let mut n = self.nodes[i].duplicate();
            n.compute_reputation(max_stake);
            let ghost before = self.nodes@;
            self.nodes.set(i, n);
            assert(ids(self.nodes@) =~= ids(before));
            i = i + 1;
        }
        assert(self.nodes@ =~= all_reputed(start, max_stake));
    }

    /// Replaces the node at `p` by `n` with its reputation recomputed.
    fn replace_reputed(&mut self, p: usize, n: Node, max_stake: u128)
        requires
            old(self).wf(),
            p < old(self).nodes@.len(),
            n.node_id@ == old(self).nodes@[p as int].node_id@,
            node_wf(n),
        ensures
            final(self).wf(),
            final(self).nodes() == old(self).nodes().update(p as int, reputed(n, max_stake)),
    {
        let mut n = n;
        n.compute_reputation(max_stake);
        let ghost before = self.nodes@;
        self.nodes.set(p, n);
        assert(ids(self.nodes@) =~= ids(before));
    }

    /// Sets a node's uptime score and recomputes its reputation. Fails on a
    /// score above `SCORE_SCALE` (checked first) or an unknown id.
    pub fn set_uptime_score(&mut self, node_id: &NodeId, score: u64) -> (r: Result<(), PlatariumError>)
        requires
            old(self).wf(),
        ensures
            final(self).wf(),
            score > SCORE_SCALE ==> final(self).nodes() == old(self).nodes() && (r matches Err(e)
                && is_state_error(e, invalid_score_text(score))),
            score <= SCORE_SCALE && !has_node(old(self).nodes(), node_id@) ==> final(self).nodes()
                == old(self).nodes() && (r matches Err(e) && is_state_error(e, not_found_text(node_id@))),
            score <= SCORE_SCALE && has_node(old(self).nodes(), node_id@) ==> r.is_ok() && ({
                let i = node_index(old(self).nodes(), node_id@);
                final(self).nodes() == old(self).nodes().update(
                    i,
                    reputed(Node { uptime_score: score, ..old(self).nodes()[i] }, max_stake_of(old(self).nodes())),
                )
            }),
    {
        if score > SCORE_SCALE {
            return Err(invalid_score(score));
        }
        let max_stake = self.max_stake();
        let (p, found) = self.locate(node_id);
        if !found {
            return Err(not_found(node_id));
        }
        proof {
            self.lemma_index(node_id@, p as int);
        }
        let mut n = self.nodes[p].duplicate();
        n.uptime_score = score;
        self.replace_reputed(p, n, max_stake);
        Ok(())
    }

    /// Sets a node's latency score and recomputes its reputation. Fails on a
    /// score above `SCORE_SCALE` (checked first) or an unknown id.
    pub fn set_latency_score(&mut self, node_id: &NodeId, score: u64) -> (r: Result<(), PlatariumError>)
        requires
            old(self).wf(),
        ensures
            final(self).wf(),
            score > SCORE_SCALE ==> final(self).nodes() == old(self).nodes() && (r matches Err(e)
                && is_state_error(e, invalid_score_text(score))),
            score <= SCORE_SCALE && !has_node(old(self).nodes(), node_id@) ==> final(self).nodes()
                == old(self).nodes() && (r matches Err(e) && is_state_error(e, not_found_text(node_id@))),
            score <= SCORE_SCALE && has_node(old(self).nodes(), node_id@) ==> r.is_ok() && ({
                let i = node_index(old(self).nodes(), node_id@);
                final(self).nodes() == old(self).nodes().update(
                    i,
                    reputed(Node { latency_score: score, ..old(self).nodes()[i] }, max_stake_of(old(self).nodes())),
                )
            }),
    {
        if score > SCORE_SCALE {
            return Err(invalid_score(score));
        }
        let max_stake = self.max_stake();
        let (p, found) = self.locate(node_id);
        if !found {
            return Err(not_found(node_id));
        }
        proof {
            self.lemma_index(node_id@, p as int);
        }
        let mut n = self.nodes[p].duplicate();
        n.latency_score = score;
        self.replace_reputed(p, n, max_stake);
        Ok(())
    }

    /// Counts a vote of the node (a missed one too where `missed`), counters
    /// held at `u64::MAX`, and recomputes its reputation.
    pub fn record_vote(&mut self, node_id: &NodeId, missed: bool) -> (r: Result<(), PlatariumError>)
        requires
            old(self).wf(),
        ensures
            final(self).wf(),
            !has_node(old(self).nodes(), node_id@) ==> final(self).nodes() == old(self).nodes() && (r matches Err(
                e,
            ) && is_state_error(e, not_found_text(node_id@))),
            has_node(old(self).nodes(), node_id@) ==> r.is_ok() && final(self).nodes() == voted(
                old(self).nodes(),
                node_id@,
                missed,
            ),
    {
        let max_stake = self.max_stake();
        let (p, found) = self.locate(node_id);
        if !found {
            return Err(not_found(node_id));
        }
        proof {
            self.lemma_index(node_id@, p as int);
        }
        let mut n = self.nodes[p].duplicate();
        n.total_votes = n.total_votes.saturating_add(1);
        if missed {
            n.missed_votes = n.missed_votes.saturating_add(1);
        }
        self.replace_reputed(p, n, max_stake);
        Ok(())
    }

    /// Sets a node's tasks and capacity (at least 1), recomputes its load and
    /// then its reputation.
    pub fn set_load(&mut self, node_id: &NodeId, current_tasks: u64, max_capacity: u64) -> (r: Result<
        (),
        PlatariumError,
    >)
        requires
            old(self).wf(),
        ensures
            final(self).wf(),
            !has_node(old(self).nodes(), node_id@) ==> final(self).nodes() == old(self).nodes() && (r matches Err(
                e,
            ) && is_state_error(e, not_found_text(node_id@))),
            has_node(old(self).nodes(), node_id@) ==> r.is_ok() && ({
                let i = node_index(old(self).nodes(), node_id@);
                let cap = if max_capacity >= 1 {
                    max_capacity
                } else {
                    1
                };
                final(self).nodes() == old(self).nodes().update(
                    i,
                    reputed(
                        Node {
                            current_tasks,
                            max_capacity: cap,
                            load_score: load_of(current_tasks, cap),
                            ..old(self).nodes()[i]
                        },
                        max_stake_of(old(self).nodes()),
                    ),
                )
            }),
    {
        let max_stake = self.max_stake();
        let (p, found) = self.locate(node_id);
        if !found {
            return Err(not_found(node_id));
        }
        proof {
            self.lemma_index(node_id@, p as int);
        }
        let mut n = self.nodes[p].duplicate();
        n.current_tasks = current_tasks;
        n.max_capacity = if max_capacity >= 1 {
            max_capacity
        } else {
            1
        };
        n.recompute_load_score();
        proof {
            if current_tasks < n.max_capacity {
                assert(current_tasks as int * SCORE_SCALE as int / (n.max_capacity as int) <= SCORE_SCALE as int)
                    by (nonlinear_arith)
                    requires
                        current_tasks < n.max_capacity,
                ;
            }
        }
        self.replace_reputed(p, n, max_stake);
        Ok(())
    }

    /// Sets a node's stake, then recomputes every reputation against the new
    /// largest stake.
    pub fn set_stake(&mut self, node_id: &NodeId, stake: u128) -> (r: Result<(), PlatariumError>)
        requires
            old(self).wf(),
        ensures
            final(self).wf(),
            !has_node(old(self).nodes(), node_id@) ==> final(self).nodes() == old(self).nodes() && (r matches Err(
                e,
            ) && is_state_error(e, not_found_text(node_id@))),
            has_node(old(self).nodes(), node_id@) ==> r.is_ok() && ({
                let i = node_index(old(self).nodes(), node_id@);
                let staked = old(self).nodes().update(i, Node { stake, ..old(self).nodes()[i] });
                final(self).nodes() == all_reputed(staked, max_stake_of(staked))
            }),
    {
        let (p, found) = self.locate(node_id);
        if !found {
            return Err(not_found(node_id));
        }
        proof {
            self.lemma_index(node_id@, p as int);
        }
        let mut n = self.nodes[p].duplicate();
        n.stake = stake;
        let ghost before = self.nodes@;
        self.nodes.set(p, n);
        assert(ids(self.nodes@) =~= ids(before));
        let max_stake = self.max_stake();
        self.recompute_with(max_stake);
        Ok(())
    }

    pub fn set_status(&mut self, node_id: &NodeId, status: NodeStatus) -> (r: Result<(), PlatariumError>)
        requires
            old(self).wf(),
        ensures
            final(self).wf(),
            !has_node(old(self).nodes(), node_id@) ==> final(self).nodes() == old(self).nodes() && (r matches Err(
                e,
            ) && is_state_error(e, not_found_text(node_id@))),
            has_node(old(self).nodes(), node_id@) ==> r.is_ok() && ({
                let i = node_index(old(self).nodes(), node_id@);
                final(self).nodes() == old(self).nodes().update(i, Node { status, ..old(self).nodes()[i] })
            }),
    {
        let (p, found) = self.locate(node_id);
        if !found {
            return Err(not_found(node_id));
        }
        proof {
            self.lemma_index(node_id@, p as int);
        }
        let mut n = self.nodes[p].duplicate();
        n.status = status;
        let ghost before = self.nodes@;
        self.nodes.set(p, n);
        assert(ids(self.nodes@) =~= ids(before));
        Ok(())
    }

    /// Lowers a node's reputation by `amount` (not below 0), adds `amount` to
    /// its penalties (so later recomputations keep it), and suspends the node
    /// if the result is under `suspension_threshold`.
    pub fn apply_reputation_penalty(&mut self, node_id: &NodeId, amount: u64, suspension_threshold: u64) -> (r:
        Result<(), PlatariumError>)
        requires
            old(self).wf(),
        ensures
            final(self).wf(),
            !has_node(old(self).nodes(), node_id@) ==> final(self).nodes() == old(self).nodes() && (r matches Err(
                e,
            ) && is_state_error(e, not_found_text(node_id@))),
            has_node(old(self).nodes(), node_id@) ==> r.is_ok() && ({
                let i = node_index(old(self).nodes(), node_id@);
                let n = old(self).nodes()[i];
                let rep = if n.reputation_score >= amount {
                    (n.reputation_score - amount) as u64
                } else {
                    0
                };
                final(self).nodes() == old(self).nodes().update(
                    i,
                    Node {
                        reputation_score: rep,
                        status: if rep < suspension_threshold {
                            NodeStatus::Suspended
                        } else {
                            n.status
                        },
                        penalty_total: if n.penalty_total as int + amount as int > u64::MAX {
                            u64::MAX
                        } else {
                            (n.penalty_total + amount) as u64
                        },
                        ..n
                    },
                )
            }),
    {
        let (p, found) = self.locate(node_id);
        if !found {
            return Err(not_found(node_id));
        }
        proof {
            self.lemma_index(node_id@, p as int);
        }
        let mut n = self.nodes[p].duplicate();
        n.reputation_score = n.reputation_score.saturating_sub(amount);
        n.penalty_total = n.penalty_total.saturating_add(amount);
        if n.reputation_score < suspension_threshold {
            n.status = NodeStatus::Suspended;
        }
        let ghost before = self.nodes@;
        self.nodes.set(p, n);
        assert(ids(self.nodes@) =~= ids(before));
        Ok(())
    }

    /// Copies of the active nodes, in increasing id order.
    pub fn get_eligible(&self) -> (r: Vec<Node>)
        requires
            self.wf(),
        ensures
            r@ == active_nodes(self.nodes()),
            forall|i: int| 0 <= i < r@.len() ==> node_wf(#[trigger] r@[i]),
            strictly_sorted(ids(r@)),
    {
        let mut r: Vec<Node> = Vec::new();
        let mut i: usize = 0;
        while i < self.nodes.len()
            invariant
                self.wf(),
                i <= self.nodes@.len(),
                r@ == active_nodes(self.nodes@.subrange(0, i as int)),
                forall|j: int| 0 <= j < r@.len() ==> node_wf(#[trigger] r@[j]),
                strictly_sorted(ids(r@)),
                forall|a: int, k: int|
                    0 <= a < r@.len() && i <= k < self.nodes@.len() ==> text_lt(
                        #[trigger] ids(r@)[a],
                        #[trigger] ids(self.nodes@)[k],
                    ),
            decreases self.nodes.len() - i,
        {
            assert(self.nodes@.subrange(0, i + 1).drop_last() =~= self.nodes@.subrange(0, i as int));
            if self.nodes[i].status == NodeStatus::Active {
                let ghost before = r@;
                r.push(self.nodes[i].duplicate());
                proof {
                    assert(ids(r@) =~= ids(before).push(ids(self.nodes@)[i as int]));
                    assert forall|a: int, k: int|
                        0 <= a < r@.len() && i + 1 <= k < self.nodes@.len() implies text_lt(
                        #[trigger] ids(r@)[a],
                        #[trigger] ids(self.nodes@)[k],
                    ) by {
                        if a < before.len() {
                            assert(ids(r@)[a] == ids(before)[a]);
                        }
                    }
                    assert forall|a: int, b: int| 0 <= a < b < ids(r@).len() implies text_lt(
                        #[trigger] ids(r@)[a],
                        #[trigger] ids(r@)[b],
                    ) by {
                        assert(ids(r@)[a] == ids(before)[a]);
                        if b < before.len() {
                            assert(ids(r@)[b] == ids(before)[b]);
                        }
                    }
                }
            }
            i = i + 1;
        }
        assert(self.nodes@.subrange(0, self.nodes@.len() as int) =~= self.nodes@);
        r
    }

    /// The active nodes with their selection weights, in increasing id order.
    pub fn get_eligible_with_weights(&self) -> (r: Vec<(Node, u64)>)
        requires
            self.wf(),
        ensures
            r@.len() == active_nodes(self.nodes()).len(),
            forall|i: int|
                0 <= i < r@.len() ==> #[trigger] r@[i] == (
                active_nodes(self.nodes())[i],
                selection_weight_of(active_nodes(self.nodes())[i]),
            ),
    {
        let eligible = self.get_eligible();
        let mut r: Vec<(Node, u64)> = Vec::new();
        let mut i: usize = 0;
        while i < eligible.len()
            invariant
                i <= eligible@.len(),
                forall|j: int| 0 <= j < eligible@.len() ==> node_wf(#[trigger] eligible@[j]),
                r@.len() == i,
                forall|j: int|
                    0 <= j < i ==> #[trigger] r@[j] == (eligible@[j], selection_weight_of(eligible@[j])),
            decreases eligible.len() - i,
        {
            let w = eligible[i].selection_weight();
            r.push((eligible[i].duplicate(), w));
            i = i + 1;
        }
        r
    }

    pub fn len(&self) -> (r: usize)
        ensures
            r == self.nodes().len(),
    {
        self.nodes.len()
    }

    pub fn is_empty(&self) -> (r: bool)
        ensures
            r == (self.nodes().len() == 0),
    {
        self.len() == 0
    }
}

} // verus!
