//! Validator selection: how many validators a load calls for, and a
//! deterministic stake-and-reputation-weighted draw seeded by the previous block.
use vstd::prelude::*;
use crate::encoding::{sha256, sha256_of};
use crate::error::{PlatariumError, is_state_error};
use crate::node_registry::{
    Node,
    NodeId,
    NodeRegistry,
    active_nodes,
    node_wf,
    selection_weight_ratio_of,
};
use crate::order::{lemma_bytes_lt_irreflexive, lemma_sorted_is_canonical, sorted_distinct, sorted_members, strictly_sorted, text_bytes, text_lt, texts};
use crate::node_registry::ids;
use crate::mempool::lemma_remove_keeps_distinct;
use crate::state::{le_bytes, push_le_bytes};

verus! {

pub const TIER_LOW_PCT: u64 = 30;
pub const TIER_MID_PCT: u64 = 60;
pub const TIER_HIGH_PCT: u64 = 85;
pub const SELECT_PCT_10: u64 = 10;
pub const SELECT_PCT_15: u64 = 15;
pub const SELECT_PCT_20: u64 = 20;
pub const SELECT_PCT_25: u64 = 25;
pub const L2_SELECT_PCT_10: u64 = 10;
pub const L2_SELECT_PCT_12: u64 = 12;
pub const L2_SELECT_PCT_15: u64 = 15;
pub const L2_SELECT_PCT_20: u64 = 20;

#[derive(Debug, Clone, PartialEq, Eq)]
pub enum SelectionError {
    ZeroCapacity,
    Other(String),
}

/// Load in per cent of the system capacity.
pub open spec fn load_percent(current_tps: u64, system_capacity: u64) -> nat {
    (current_tps * 100 / (system_capacity as int)) as nat
}

/// First-layer share in per cent for a load: 25, 20, 15 or 10.
pub open spec fn l1_percent(load: nat) -> u64 {
    if load < 30 {
        25
    } else if load < 60 {
        20
    } else if load < 85 {
        15
    } else {
        10
    }
}

/// Second-layer share in per cent for a load: 20, 15, 12 or 10.
pub open spec fn l2_percent(load: nat) -> u64 {
    if load < 30 {
        20
    } else if load < 60 {
        15
    } else if load < 85 {
        12
    } else {
        10
    }
}

/// Validators to pick: the share of the eligible, at least 1 and at most all; 0 of none.
pub open spec fn count_for(eligible: nat, percent: nat) -> nat {
    if eligible == 0 {
        0
    } else if eligible * percent / 100 == 0 {
        1
    } else if eligible * percent / 100 > eligible {
        eligible
    } else {
        eligible * percent / 100
    }
}

/// Little-endian value of a byte sequence.
pub open spec fn le_value(b: Seq<u8>) -> nat
    decreases b.len(),
{
    if b.len() == 0 {
        0
    } else {
        b[0] as nat + 256 * le_value(b.drop_first())
    }
}

/// The draw of a round: the first 8 bytes, little-endian, of SHA-256 over the
/// seed and the round number as 4 little-endian bytes.
pub open spec fn round_value(seed: Seq<u8>, round: nat) -> nat {
    le_value(sha256_of(seed + le_bytes(round % 0x1_0000_0000, 4)).subrange(0, 8))
}

/// The views of a list of (text, weight) pairs.
pub open spec fn pair_texts(s: Seq<(String, u64)>) -> Seq<(Seq<char>, u64)> {
    s.map_values(|e: (String, u64)| (e.0@, e.1))
}

/// Sum of the weights.
pub open spec fn total_weight(l: Seq<(Seq<char>, u64)>) -> nat
    decreases l.len(),
{
    if l.len() == 0 {
        0
    } else {
        l[0].1 as nat + total_weight(l.drop_first())
    }
}

/// The first candidate whose cumulative weight exceeds `slot`.
pub open spec fn first_over(l: Seq<(Seq<char>, u64)>, slot: nat) -> int
    decreases l.len(),
{
    if l.len() == 0 {
        0
    } else if l[0].1 > slot {
        0
    } else {
        1 + first_over(l.drop_first(), (slot - l[0].1) as nat)
    }
}

/// Up to `n` rounds of weighted draws without replacement, from round `round` on.
pub open spec fn draw(l: Seq<(Seq<char>, u64)>, seed: Seq<u8>, round: nat, n: nat) -> Seq<Seq<char>>
    decreases n,
{
    if n == 0 || l.len() == 0 || total_weight(l) == 0 {
        Seq::empty()
    } else {
        let i = first_over(l, round_value(seed, round) % total_weight(l));
        seq![l[i].0] + draw(l.remove(i), seed, round + 1, (n - 1) as nat)
    }
}

/// Candidates with their sampling weights: the weight ratio, at least 1.
pub open spec fn weighted(nodes: Seq<Node>) -> Seq<(Seq<char>, u64)> {
    nodes.map_values(
        |n: Node|
            (
                n.node_id@,
                if selection_weight_ratio_of(n) >= 1 {
                    selection_weight_ratio_of(n)
                } else {
                    1
                },
            ),
    )
}

/// The nodes whose ids are not excluded, order kept.
pub open spec fn not_excluded(s: Seq<Node>, excluded: Set<Seq<char>>) -> Seq<Node>
    decreases s.len(),
{
    if s.len() == 0 {
        s
    } else if excluded.contains(s.last().node_id@) {
        not_excluded(s.drop_last(), excluded)
    } else {
        not_excluded(s.drop_last(), excluded).push(s.last())
    }
}

/// The first-layer seed bytes before hashing: block number (8 little-endian bytes), then entropy.
pub open spec fn seed_of(block_number: u64, entropy: Seq<u8>) -> Seq<u8> {
    sha256_of(le_bytes(block_number as nat, 8) + entropy)
}

/// The second-layer seed: as the first, behind the bytes of `L2`.
pub open spec fn seed_l2_of(block_number: u64, entropy: Seq<u8>) -> Seq<u8> {
    sha256_of(seq![76u8, 50u8] + le_bytes(block_number as nat, 8) + entropy)
}

/// The selected ids in increasing order.
pub open spec fn selection(candidates: Seq<Node>, percent: nat, seed: Seq<u8>) -> Seq<Seq<char>> {
    sorted_members(
        draw(weighted(candidates), seed, 0, count_for(candidates.len(), percent)).to_set(),
    )
}

pub open spec fn zero_capacity_text() -> Seq<char> {
    "ValidatorSelection: System capacity must be positive"@
}

fn zero_capacity() -> (r: PlatariumError)
    ensures
        is_state_error(r, zero_capacity_text()),
{
    PlatariumError::State(String::from_str("ValidatorSelection: System capacity must be positive"))
}

/// First-layer share in per cent for the load; fails on a capacity of 0.
pub fn selection_percent_from_load(current_tps: u64, system_capacity: u64) -> (r: Result<u64, PlatariumError>)
    ensures
        system_capacity == 0 ==> (r matches Err(e) && is_state_error(e, zero_capacity_text())),
        system_capacity > 0 ==> r == Ok::<u64, PlatariumError>(
            l1_percent(load_percent(current_tps, system_capacity)),
        ),
{
    if system_capacity == 0 {
        return Err(zero_capacity());
    }
    let load_pct = (current_tps as u128 * 100) / system_capacity as u128;
    let pct = if load_pct < TIER_LOW_PCT as u128 {
        SELECT_PCT_25
    } else if load_pct < TIER_MID_PCT as u128 {
        SELECT_PCT_20
    } else if load_pct < TIER_HIGH_PCT as u128 {
        SELECT_PCT_15
    } else {
        SELECT_PCT_10
    };
    Ok(pct)
}

/// Second-layer share in per cent for the load; fails on a capacity of 0.
pub fn selection_percent_from_load_l2(current_tps: u64, system_capacity: u64) -> (r: Result<u64, PlatariumError>)
    ensures
        system_capacity == 0 ==> (r matches Err(e) && is_state_error(e, zero_capacity_text())),
        system_capacity > 0 ==> r == Ok::<u64, PlatariumError>(
            l2_percent(load_percent(current_tps, system_capacity)),
        ),
{
    if system_capacity == 0 {
        return Err(zero_capacity());
    }
    let load_pct = (current_tps as u128 * 100) / system_capacity as u128;
    let pct = if load_pct < TIER_LOW_PCT as u128 {
        L2_SELECT_PCT_20
    } else if load_pct < TIER_MID_PCT as u128 {
        L2_SELECT_PCT_15
    } else if load_pct < TIER_HIGH_PCT as u128 {
        L2_SELECT_PCT_12
    } else {
        L2_SELECT_PCT_10
    };
    Ok(pct)
}

/// The first-layer seed: SHA-256 of the block number (8 little-endian bytes) and the entropy.
pub fn compute_seed(block_number: u64, global_entropy: &[u8]) -> (r: Vec<u8>)
    ensures
        r@ == seed_of(block_number, global_entropy@),
        r@.len() == 32,
{
    let mut data: Vec<u8> = Vec::new();
    push_le_bytes(&mut data, block_number as u128, 8);
    push_slice(&mut data, global_entropy);
    sha256(data.as_slice())
}

/// The second-layer seed: SHA-256 of `L2`, the block number (8 little-endian
/// bytes) and the entropy.
pub fn compute_seed_l2(block_number: u64, global_entropy: &[u8]) -> (r: Vec<u8>)
    ensures
        r@ == seed_l2_of(block_number, global_entropy@),
        r@.len() == 32,
{
    let mut data: Vec<u8> = Vec::new();
    data.push(76u8);
    data.push(50u8);
    push_le_bytes(&mut data, block_number as u128, 8);
    push_slice(&mut data, global_entropy);
    assert(data@ =~= seq![76u8, 50u8] + le_bytes(block_number as nat, 8) + global_entropy@);
    sha256(data.as_slice())
}

fn push_slice(out: &mut Vec<u8>, b: &[u8])
    ensures
        final(out)@ == old(out)@ + b@,
{
    let mut i: usize = 0;
    while i < b.len()
        invariant
            i <= b@.len(),
            out@ == old(out)@ + b@.subrange(0, i as int),
        decreases b.len() - i,
    {
        out.push(b[i]);
        assert(b@.subrange(0, i + 1) =~= b@.subrange(0, i as int).push(b@[i as int]));
        i = i + 1;
    }
    assert(b@.subrange(0, b@.len() as int) =~= b@);
}

/// The draw of a round.
fn hash_for_round(seed: &[u8], round: u32) -> (r: u64)
    ensures
        r as nat == le_value(sha256_of(seed@ + le_bytes(round as nat, 4)).subrange(0, 8)),
{
    let mut data: Vec<u8> = Vec::new();
    push_slice(&mut data, seed);
    push_le_bytes(&mut data, round as u128, 4);
    let h = sha256(data.as_slice());
    let ghost b = h@.subrange(0, 8);
    let mut acc: u64 = 0;
    let mut k: usize = 8;
    assert(b.subrange(8, 8) =~= Seq::<u8>::empty());
    while k > 0
        invariant
            k <= 8,
            h@.len() == 32,
            b == h@.subrange(0, 8),
            acc as nat == le_value(b.subrange(k as int, 8)),
            (acc as nat) < pow256((8 - k) as nat),
        decreases k,
    {
        k = k - 1;
        proof {
            assert(b.subrange(k as int, 8).drop_first() =~= b.subrange(k + 1, 8));
            assert(pow256((8 - k) as nat) == 256 * pow256((8 - (k + 1)) as nat));
            assert(acc * 256 + h@[k as int] < pow256((8 - k) as nat)) by (nonlinear_arith)
                requires
                    acc < pow256((8 - (k + 1)) as nat),
                    pow256((8 - k) as nat) == 256 * pow256((8 - (k + 1)) as nat),
                    h@[k as int] < 256,
            ;
            lemma_pow256_8();
            lemma_pow256_small((8 - (k + 1)) as nat);
        }
        acc = acc * 256 + h[k] as u64;
    }
    assert(b.subrange(0, 8) =~= b);
    acc
}

pub open spec fn pow256(k: nat) -> nat
    decreases k,
{
    if k == 0 {
        1
    } else {
        256 * pow256((k - 1) as nat)
    }
}

proof fn lemma_pow256_small(j: nat)
    requires
        j <= 7,
    ensures
        pow256(j) <= 0x100_0000_0000_0000,
{
    reveal_with_fuel(pow256, 9);
    if j == 0 {
    } else if j == 1 {
    } else if j == 2 {
    } else if j == 3 {
    } else if j == 4 {
    } else if j == 5 {
    } else if j == 6 {
    } else {
        assert(j == 7);
    }
}

proof fn lemma_pow256_8()
    ensures
        pow256(8) == 0x1_0000_0000_0000_0000,
{
    reveal_with_fuel(pow256, 9);
}

/// How many validators to pick from `eligible_count` at `percent`.
pub fn select_count(eligible_count: usize, percent: u64) -> (r: usize)
    ensures
        r as nat == count_for(eligible_count as nat, percent as nat),
{
    if eligible_count == 0 {
        return 0;
    }
    proof {
        assert(eligible_count as u128 * percent as u128 <= 0xffff_ffff_ffff_ffffu128 * 0xffff_ffff_ffff_ffffu128)
            by (nonlinear_arith)
            requires
                eligible_count <= 0xffff_ffff_ffff_ffffu128,
                percent <= 0xffff_ffff_ffff_ffffu128,
        ;
    }
    let n = (eligible_count as u128 * percent as u128) / 100;
    if n == 0 {
        1
    } else if n > eligible_count as u128 {
        eligible_count
    } else {
        n as usize
    }
}

proof fn lemma_total_remove(l: Seq<(Seq<char>, u64)>, i: int)
    requires
        0 <= i < l.len(),
    ensures
        total_weight(l.remove(i)) + l[i].1 == total_weight(l),
    decreases l.len(),
{
    if i > 0 {
        lemma_total_remove(l.drop_first(), i - 1);
        assert(l.remove(i).drop_first() =~= l.drop_first().remove(i - 1));
    } else {
        assert(l.remove(0) =~= l.drop_first());
    }
}

proof fn lemma_total_bound(l: Seq<(Seq<char>, u64)>)
    ensures
        total_weight(l) <= l.len() * 0xffff_ffff_ffff_ffff,
    decreases l.len(),
{
    if l.len() > 0 {
        lemma_total_bound(l.drop_first());
    }
}

proof fn lemma_first_over_bound(l: Seq<(Seq<char>, u64)>, slot: nat)
    requires
        slot < total_weight(l),
    ensures
        0 <= first_over(l, slot) < l.len(),
    decreases l.len(),
{
    if l.len() > 0 && l[0].1 <= slot {
        lemma_first_over_bound(l.drop_first(), (slot - l[0].1) as nat);
    }
}

/// The first candidate whose cumulative weight exceeds `slot`.
fn first_over_exec(list: &Vec<(String, u64)>, slot: u128) -> (r: usize)
    requires
        (slot as nat) < total_weight(pair_texts(list@)),
    ensures
        r as int == first_over(pair_texts(list@), slot as nat),
        r < list@.len(),
{
    let ghost l = pair_texts(list@);
    let mut k: usize = 0;
    let len = list.len();
    let mut rest: u128 = slot;
    proof {
        assert(l.skip(0) =~= l);
        lemma_first_over_bound(l, slot as nat);
    }
    while list[k].1 as u128 <= rest
        invariant
            k < list@.len(),
            len == list@.len(),
            l == pair_texts(list@),
            first_over(l, slot as nat) == k + first_over(l.skip(k as int), rest as nat),
            (rest as nat) < total_weight(l.skip(k as int)),
        decreases list@.len() - k,
    {
        let ghost t = l.skip(k as int);
        assert(t[0] == l[k as int]);
        assert(t.drop_first() =~= l.skip(k + 1));
        rest = rest - list[k].1 as u128;
        k = k + 1;
        proof {
            lemma_first_over_bound(l.skip(k as int), rest as nat);
        }
    }
    proof {
        let t = l.skip(k as int);
        assert(t[0] == l[k as int]);
    }
    k
}

/// The ids of the candidates.
pub open spec fn candidate_ids(l: Seq<(Seq<char>, u64)>) -> Seq<Seq<char>> {
    l.map_values(|e: (Seq<char>, u64)| e.0)
}

/// Every candidate weighs at least 1.
pub open spec fn weights_positive(l: Seq<(Seq<char>, u64)>) -> bool {
    forall|i: int| 0 <= i < l.len() ==> (#[trigger] l[i]).1 >= 1
}

proof fn lemma_total_positive(l: Seq<(Seq<char>, u64)>)
    requires
        weights_positive(l),
        l.len() > 0,
    ensures
        total_weight(l) >= 1,
{
    assert(l[0].1 >= 1);
}

/// With distinct ids and positive weights, `n` draws give `min(n, |l|)`
/// distinct ids, all of candidates.
pub proof fn lemma_draw_shape(l: Seq<(Seq<char>, u64)>, seed: Seq<u8>, round: nat, n: nat)
    requires
        weights_positive(l),
        candidate_ids(l).no_duplicates(),
    ensures
        draw(l, seed, round, n).len() == if n < l.len() {
            n
        } else {
            l.len()
        },
        draw(l, seed, round, n).no_duplicates(),
        forall|x: Seq<char>| #[trigger] draw(l, seed, round, n).contains(x) ==> candidate_ids(l).contains(x),
    decreases n,
{
    if n > 0 && l.len() > 0 {
        lemma_total_positive(l);
        let slot = round_value(seed, round) % total_weight(l);
        let i = first_over(l, slot);
        lemma_first_over_bound(l, slot);
        let l2 = l.remove(i);
        assert forall|j: int| 0 <= j < l2.len() implies (#[trigger] l2[j]).1 >= 1 by {
            if j < i {
                assert(l2[j] == l[j]);
            } else {
                assert(l2[j] == l[j + 1]);
            }
        }
        assert(candidate_ids(l2) =~= candidate_ids(l).remove(i));
        lemma_remove_keeps_distinct(candidate_ids(l), i);
        lemma_draw_shape(l2, seed, round + 1, (n - 1) as nat);
        let d2 = draw(l2, seed, round + 1, (n - 1) as nat);
        let d = draw(l, seed, round, n);
        assert(d == seq![l[i].0] + d2);
        assert(!d2.contains(l[i].0)) by {
            if d2.contains(l[i].0) {
                assert(candidate_ids(l2).contains(l[i].0));
                let j = choose|j: int| 0 <= j < candidate_ids(l2).len() && candidate_ids(l2)[j] == l[i].0;
                if j < i {
                    assert(candidate_ids(l)[j] == candidate_ids(l)[i]);
                } else {
                    assert(candidate_ids(l)[j + 1] == candidate_ids(l)[i]);
                }
            }
        }
        assert forall|a: int, b: int| 0 <= a < d.len() && 0 <= b < d.len() && a != b implies d[a] != d[b] by {
            if a == 0 {
                assert(d[b] == d2[b - 1]);
            } else if b == 0 {
                assert(d[a] == d2[a - 1]);
            } else {
                assert(d[a] == d2[a - 1] && d[b] == d2[b - 1]);
            }
        }
        assert forall|x: Seq<char>| #[trigger] d.contains(x) implies candidate_ids(l).contains(x) by {
            let k = choose|k: int| 0 <= k < d.len() && d[k] == x;
            if k == 0 {
                assert(candidate_ids(l)[i] == x);
            } else {
                assert(d2[k - 1] == x);
                assert(d2.contains(x));
                assert(candidate_ids(l2).contains(x));
                let j = choose|j: int| 0 <= j < candidate_ids(l2).len() && candidate_ids(l2)[j] == x;
                if j < i {
                    assert(candidate_ids(l)[j] == x);
                } else {
                    assert(candidate_ids(l)[j + 1] == x);
                }
            }
        }
    }
}

/// A strictly sorted sequence has no repetition.
pub proof fn lemma_sorted_distinct(s: Seq<Seq<char>>)
    requires
        strictly_sorted(s),
    ensures
        s.no_duplicates(),
{
    assert forall|a: int, b: int| 0 <= a < s.len() && 0 <= b < s.len() && a != b implies s[a] != s[b] by {
        lemma_bytes_lt_irreflexive(text_bytes(s[a]));
        if a < b {
            assert(text_lt(s[a], s[b]));
        } else {
            assert(text_lt(s[b], s[a]));
        }
    }
}

/// `n` rounds of weighted draws without replacement; the picked ids in increasing order.
fn weighted_select_n(list: Vec<(String, u64)>, n: usize, seed: &[u8]) -> (r: Vec<NodeId>)
    requires
        weights_positive(pair_texts(list@)),
        candidate_ids(pair_texts(list@)).no_duplicates(),
    ensures
        texts(r@) == sorted_members(draw(pair_texts(list@), seed@, 0, n as nat).to_set()),
        texts(r@).len() == if n < list@.len() {
            n as int
        } else {
            list@.len() as int
        },
        strictly_sorted(texts(r@)),
        forall|x: Seq<char>| #[trigger] texts(r@).contains(x) ==> candidate_ids(pair_texts(list@)).contains(x),
{
    let ghost start = pair_texts(list@);
    let mut list = list;
    let mut current_total: u128 = 0;
    let mut i: usize = list.len();
    let n0 = list.len();
    assert(start.skip(start.len() as int) =~= Seq::<(Seq<char>, u64)>::empty());
    while i > 0
        invariant
            i <= list@.len(),
            pair_texts(list@) == start,
            start.len() == n0,
            current_total as nat == total_weight(start.skip(i as int)),
            total_weight(start.skip(i as int)) <= (start.len() - i) * 0xffff_ffff_ffff_ffffnat,
        decreases i,
    {
        i = i - 1;
        proof {
            assert(start.skip(i as int).drop_first() =~= start.skip(i + 1));
            assert(start.skip(i as int)[0] == start[i as int]);
            assert((start.len() - i) * 0xffff_ffff_ffff_ffffnat <= 0x1_0000_0000_0000_0000 * 0x1_0000_0000_0000_0000)
                by (nonlinear_arith)
                requires
                    start.len() - i <= 0x1_0000_0000_0000_0000,
            ;
        }
        current_total = current_total + list[i].1 as u128;
    }
    assert(start.skip(0) =~= start);
    let mut selected: Vec<NodeId> = Vec::new();
    let mut round: usize = 0;
    assert(texts(selected@) + draw(start, seed@, 0, n as nat) =~= draw(start, seed@, 0, n as nat));
    while round < n
        invariant_except_break
            round <= n,
            current_total as nat == total_weight(pair_texts(list@)),
            draw(start, seed@, 0, n as nat) == texts(selected@) + draw(
                pair_texts(list@),
                seed@,
                round as nat,
                (n - round) as nat,
            ),
        ensures
            draw(start, seed@, 0, n as nat) == texts(selected@),
        decreases n - round,
    {
        let ghost l = pair_texts(list@);
        if list.len() == 0 || current_total == 0 {
            assert(texts(selected@) + Seq::<Seq<char>>::empty() =~= texts(selected@));
            break;
        }
        let r32 = (round as u64 % 0x1_0000_0000) as u32;
        let h = hash_for_round(seed, r32);
        let slot = h as u128 % current_total;
        let idx = first_over_exec(&list, slot);
        proof {
            assert(r32 as nat == (round as nat) % 0x1_0000_0000);
            lemma_total_remove(l, idx as int);
        }
        let picked = list.remove(idx);
        current_total = current_total - picked.1 as u128;
        let ghost sv = texts(selected@);
        selected.push(picked.0);
        proof {
            assert(pair_texts(list@) =~= l.remove(idx as int));
            assert(texts(selected@) =~= sv.push(l[idx as int].0));
            assert(sv + (seq![l[idx as int].0] + draw(l.remove(idx as int), seed@, (round + 1) as nat, (n - round - 1) as nat))
                =~= sv.push(l[idx as int].0) + draw(l.remove(idx as int), seed@, (round + 1) as nat, (n - round - 1) as nat));
        }
        round = round + 1;
        proof {
            if round == n {
                assert(texts(selected@) + draw(pair_texts(list@), seed@, round as nat, 0) =~= texts(selected@));
            }
        }
    }
    let sorted = sorted_distinct(&selected);
    proof {
        lemma_sorted_is_canonical(texts(sorted@));
        let d = draw(start, seed@, 0, n as nat);
        lemma_draw_shape(start, seed@, 0, n as nat);
        lemma_sorted_distinct(texts(sorted@));
        texts(sorted@).unique_seq_to_set();
        d.unique_seq_to_set();
        assert forall|x: Seq<char>| #[trigger] texts(sorted@).contains(x) implies candidate_ids(start).contains(x) by {
            assert(texts(sorted@).to_set().contains(x));
            assert(d.to_set().contains(x));
        }
    }
    sorted
}

/// The candidates with their sampling weights.
fn weigh(nodes: &Vec<Node>) -> (r: Vec<(String, u64)>)
    requires
        forall|i: int| 0 <= i < nodes@.len() ==> node_wf(#[trigger] nodes@[i]),
    ensures
        pair_texts(r@) == weighted(nodes@),
        weights_positive(pair_texts(r@)),
        candidate_ids(pair_texts(r@)) == ids(nodes@),
{
    let mut r: Vec<(String, u64)> = Vec::new();
    let mut i: usize = 0;
    while i < nodes.len()
        invariant
            i <= nodes@.len(),
            forall|j: int| 0 <= j < nodes@.len() ==> node_wf(#[trigger] nodes@[j]),
            pair_texts(r@) == weighted(nodes@.subrange(0, i as int)),
            r@.len() == i,
        decreases nodes.len() - i,
    {
        let w = nodes[i].selection_weight_ratio();
        let w = if w >= 1 {
            w
        } else {
            1
        };
        let ghost before = r@;
        r.push((nodes[i].node_id.clone(), w));
        assert forall|j: int| 0 <= j < i + 1 implies #[trigger] pair_texts(r@)[j] == weighted(
            nodes@.subrange(0, i + 1),
        )[j] by {
            if j < i {
                assert(r@[j] == before[j]);
                assert(pair_texts(before)[j] == weighted(nodes@.subrange(0, i as int))[j]);
            }
        }
        assert(pair_texts(r@) =~= weighted(nodes@.subrange(0, i + 1)));
        i = i + 1;
    }
    assert(nodes@.subrange(0, nodes@.len() as int) =~= nodes@);
    assert(candidate_ids(pair_texts(r@)) =~= ids(nodes@));
    r
}

/// The first-layer validators for a block: `count` draws among the active
/// nodes (the share for the load), weighted by their weight ratio, seeded by
/// the block number and the previous block's entropy; ids in increasing order.
/// Fails on a capacity of 0.
pub fn select_validators(
    registry: &NodeRegistry,
    current_tps: u64,
    system_capacity: u64,
    block_number: u64,
    global_entropy: &[u8],
) -> (r: Result<Vec<NodeId>, PlatariumError>)
    requires
        registry.wf(),
    ensures
        system_capacity == 0 ==> (r matches Err(e) && is_state_error(e, zero_capacity_text())),
        system_capacity > 0 ==> (r matches Ok(v) && texts(v@) == selection(
            active_nodes(registry.nodes()),
            l1_percent(load_percent(current_tps, system_capacity)) as nat,
            seed_of(block_number, global_entropy@),
        )),
        r matches Ok(v) ==> picked_from(
            texts(v@),
            active_nodes(registry.nodes()),
            l1_percent(load_percent(current_tps, system_capacity)) as nat,
        ),
{
    let percent = selection_percent_from_load(current_tps, system_capacity)?;
    let eligible = registry.get_eligible();
    let count = select_count(eligible.len(), percent);
    let list = weigh(&eligible);
    let seed = compute_seed(block_number, global_entropy);
    proof {
        lemma_sorted_distinct(ids(eligible@));
    }
    Ok(weighted_select_n(list, count, seed.as_slice()))
}

/// The second-layer validators: as the first layer, among the active nodes
/// not excluded (the first-layer pool), with the second-layer shares and seed.
pub fn select_validators_l2(
    registry: &NodeRegistry,
    current_tps: u64,
    system_capacity: u64,
    block_number: u64,
    global_entropy: &[u8],
    exclude: &[NodeId],
) -> (r: Result<Vec<NodeId>, PlatariumError>)
    requires
        registry.wf(),
    ensures
        system_capacity == 0 ==> (r matches Err(e) && is_state_error(e, zero_capacity_text())),
        system_capacity > 0 ==> (r matches Ok(v) && texts(v@) == selection(
            not_excluded(active_nodes(registry.nodes()), texts(exclude@).to_set()),
            l2_percent(load_percent(current_tps, system_capacity)) as nat,
            seed_l2_of(block_number, global_entropy@),
        )),
        r matches Ok(v) ==> picked_from(
            texts(v@),
            not_excluded(active_nodes(registry.nodes()), texts(exclude@).to_set()),
            l2_percent(load_percent(current_tps, system_capacity)) as nat,
        ),
{
    let percent = selection_percent_from_load_l2(current_tps, system_capacity)?;
    let all = registry.get_eligible();
    let ghost ex = texts(exclude@).to_set();
    let mut eligible: Vec<Node> = Vec::new();
    let mut i: usize = 0;
    while i < all.len()
        invariant
            i <= all@.len(),
            forall|j: int| 0 <= j < all@.len() ==> node_wf(#[trigger] all@[j]),
            forall|j: int| 0 <= j < eligible@.len() ==> node_wf(#[trigger] eligible@[j]),
            eligible@ == not_excluded(all@.subrange(0, i as int), ex),
            ex == texts(exclude@).to_set(),
            strictly_sorted(ids(all@)),
            strictly_sorted(ids(eligible@)),
            forall|a: int, k: int|
                0 <= a < eligible@.len() && i <= k < all@.len() ==> text_lt(
                    #[trigger] ids(eligible@)[a],
                    #[trigger] ids(all@)[k],
                ),
        decreases all.len() - i,
    {
        assert(all@.subrange(0, i + 1).drop_last() =~= all@.subrange(0, i as int));
        let skip = crate::mempool::list_contains(exclude, all[i].node_id.as_str());
        assert(ex.contains(all@[i as int].node_id@) == texts(exclude@).contains(all@[i as int].node_id@));
        if !skip {
            let ghost before = eligible@;
            eligible.push(all[i].duplicate());
            proof {
                assert(ids(eligible@) =~= ids(before).push(ids(all@)[i as int]));
                assert forall|a: int, k: int|
                    0 <= a < eligible@.len() && i + 1 <= k < all@.len() implies text_lt(
                    #[trigger] ids(eligible@)[a],
                    #[trigger] ids(all@)[k],
                ) by {
                    if a < before.len() {
                        assert(ids(eligible@)[a] == ids(before)[a]);
                    } else {
                        assert(text_lt(ids(all@)[i as int], ids(all@)[k]));
                    }
                }
                assert forall|a: int, b: int| 0 <= a < b < ids(eligible@).len() implies text_lt(
                    #[trigger] ids(eligible@)[a],
                    #[trigger] ids(eligible@)[b],
                ) by {
                    assert(ids(eligible@)[a] == ids(before)[a]);
                    if b < before.len() {
                        assert(ids(eligible@)[b] == ids(before)[b]);
                    }
                }
            }
        }
        i = i + 1;
    }
    assert(all@.subrange(0, all@.len() as int) =~= all@);
    let count = select_count(eligible.len(), percent);
    let list = weigh(&eligible);
    let seed = compute_seed_l2(block_number, global_entropy);
    proof {
        lemma_sorted_distinct(ids(eligible@));
    }
    Ok(weighted_select_n(list, count, seed.as_slice()))
}

/// `v` has as many ids as the share calls for, in increasing order, each the
/// id of a candidate.
pub open spec fn picked_from(v: Seq<Seq<char>>, candidates: Seq<Node>, percent: nat) -> bool {
    &&& v.len() == count_for(candidates.len(), percent)
    &&& strictly_sorted(v)
    &&& forall|x: Seq<char>| #[trigger] v.contains(x) ==> ids(candidates).contains(x)
}

/// Selection is a function of its inputs: the same eligible nodes, share and
/// seed give the same sorted sequence of ids.
pub proof fn lemma_selection_determined(
    a: Seq<Node>,
    b: Seq<Node>,
    percent: nat,
    seed: Seq<u8>,
)
    requires
        a == b,
    ensures
        selection(a, percent, seed) == selection(b, percent, seed),
{
}

} // verus!
