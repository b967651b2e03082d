//! Block assembly: load-dependent limits, the Merkle root of a block's
//! transactions, the block hash, and second-layer vote aggregation.
use vstd::prelude::*;
use crate::confirmation::{
    Vote,
    after_missed_votes,
    confirm_count,
    dissenters,
    majority_of,
    record_missed_votes,
    tally,
};
use crate::encoding::{hex_bytes, hex_decode, hex_encode, hex_of, is_hex_text, sha256, sha256_of};
use crate::error::{PlatariumError, is_state_error};
use crate::node_registry::{NodeId, NodeRegistry, has_node, not_found_text};
use crate::order::{bytes_less, bytes_lt, text_bytes, texts};
use crate::state::{StateSnapshot, le_bytes, push_le_bytes, push_text_bytes, state_root_of};

verus! {

/// Per cent of confirming votes a block needs at the second layer.
pub const L2_CONFIRM_THRESHOLD_PCT: u64 = 70;

pub const BLOCK_TIME_MIN_SEC: u64 = 2;

pub const BLOCK_TIME_MAX_SEC: u64 = 5;

pub const DEFAULT_MAX_TXS_PER_BLOCK: usize = 500;

pub const DEFAULT_MAX_BLOCK_SIZE: u64 = 256 * 1024;

#[derive(Debug, Clone, PartialEq, Eq)]
pub enum BlockAssemblyError {
    Other(String),
}

/// A block header with its transaction hashes.
#[derive(Debug, Clone)]
pub struct Block {
    pub block_number: u64,
    pub previous_hash: String,
    pub timestamp: i64,
    pub transaction_hashes: Vec<String>,
    pub merkle_root: String,
    pub state_root: String,
    pub block_hash: String,
    pub producer_id: NodeId,
    pub producer_sig: String,
}

#[derive(Debug, Clone, Copy, PartialEq, Eq, Structural)]
pub enum BlockConfirmationResult {
    Confirmed,
    Rejected,
}

/// The views of a list of byte vectors.
pub open spec fn byte_views(s: Seq<Vec<u8>>) -> Seq<Seq<u8>> {
    s.map_values(|v: Vec<u8>| v@)
}

/// The 32-byte digests that the texts denote, in order; other texts are skipped.
pub open spec fn leaves(hs: Seq<Seq<char>>) -> Seq<Seq<u8>>
    decreases hs.len(),
{
    if hs.len() == 0 {
        Seq::empty()
    } else if is_hex_text(hs.last()) && hex_bytes(hs.last()).len() == 32 {
        leaves(hs.drop_last()).push(hex_bytes(hs.last()))
    } else {
        leaves(hs.drop_last())
    }
}

/// `x` put into the ascending sequence `s`, after any equal element.
pub open spec fn insert_ascending(s: Seq<Seq<u8>>, x: Seq<u8>) -> Seq<Seq<u8>>
    decreases s.len(),
{
    if s.len() == 0 {
        seq![x]
    } else if !bytes_lt(x, s.last()) {
        s.push(x)
    } else {
        insert_ascending(s.drop_last(), x).push(s.last())
    }
}

/// `s` in ascending byte order.
pub open spec fn sort_ascending(s: Seq<Seq<u8>>) -> Seq<Seq<u8>>
    decreases s.len(),
{
    if s.len() == 0 {
        s
    } else {
        insert_ascending(sort_ascending(s.drop_last()), s.last())
    }
}

/// One Merkle level: SHA-256 of each adjacent pair, the last element paired
/// with itself when alone.
pub open spec fn next_level(l: Seq<Seq<u8>>) -> Seq<Seq<u8>>
    decreases l.len(),
{
    if l.len() == 0 {
        l
    } else if l.len() == 1 {
        seq![sha256_of(l[0] + l[0])]
    } else {
        seq![sha256_of(l[0] + l[1])] + next_level(l.skip(2))
    }
}

/// Levels built and sorted until one node is left (at most `fuel` levels).
pub open spec fn merkle_levels(l: Seq<Seq<u8>>, fuel: nat) -> Seq<Seq<u8>>
    decreases fuel,
{
    if l.len() <= 1 || fuel == 0 {
        l
    } else {
        merkle_levels(sort_ascending(next_level(l)), (fuel - 1) as nat)
    }
}

/// The Merkle root text: `0` without any valid digest, else the hex of the
/// last node of the sorted levels.
pub open spec fn merkle_root_of(hs: Seq<Seq<char>>) -> Seq<char> {
    let l = sort_ascending(leaves(hs));
    if l.len() == 0 {
        "0"@
    } else {
        hex_of(merkle_levels(l, l.len())[0])
    }
}

/// A timestamp's two's complement value as 64 bits.
pub open spec fn timestamp_bits(t: i64) -> nat {
    if t >= 0 {
        t as nat
    } else {
        (t + 0x1_0000_0000_0000_0000) as nat
    }
}

/// The block hash: hex SHA-256 of the number and timestamp (8 little-endian
/// bytes each) and the texts of the header, in header order.
pub open spec fn block_hash_of(
    block_number: u64,
    previous_hash: Seq<char>,
    timestamp: i64,
    merkle_root: Seq<char>,
    state_root: Seq<char>,
    producer_id: Seq<char>,
) -> Seq<char> {
    hex_of(
        sha256_of(
            le_bytes(block_number as nat, 8) + text_bytes(previous_hash) + le_bytes(timestamp_bits(timestamp), 8)
                + text_bytes(merkle_root) + text_bytes(state_root) + text_bytes(producer_id),
        ),
    )
}

proof fn lemma_insert_len(s: Seq<Seq<u8>>, x: Seq<u8>)
    ensures
        insert_ascending(s, x).len() == s.len() + 1,
    decreases s.len(),
{
    if s.len() > 0 && bytes_lt(x, s.last()) {
        lemma_insert_len(s.drop_last(), x);
    }
}

proof fn lemma_sort_len(s: Seq<Seq<u8>>)
    ensures
        sort_ascending(s).len() == s.len(),
    decreases s.len(),
{
    if s.len() > 0 {
        lemma_sort_len(s.drop_last());
        lemma_insert_len(sort_ascending(s.drop_last()), s.last());
    }
}

proof fn lemma_next_level_len(l: Seq<Seq<u8>>)
    ensures
        next_level(l).len() == (l.len() + 1) / 2,
    decreases l.len(),
{
    if l.len() >= 2 {
        lemma_next_level_len(l.skip(2));
    }
}

/// Every element has `n` bytes.
pub open spec fn all_len(s: Seq<Seq<u8>>, n: nat) -> bool {
    forall|i: int| 0 <= i < s.len() ==> (#[trigger] s[i]).len() == n
}

proof fn lemma_insert_all_len(s: Seq<Seq<u8>>, x: Seq<u8>, n: nat)
    requires
        all_len(s, n),
        x.len() == n,
    ensures
        all_len(insert_ascending(s, x), n),
    decreases s.len(),
{
    if s.len() > 0 && bytes_lt(x, s.last()) {
        lemma_insert_all_len(s.drop_last(), x, n);
        let t = insert_ascending(s.drop_last(), x);
        assert forall|i: int| 0 <= i < t.push(s.last()).len() implies (#[trigger] t.push(s.last())[i]).len()
            == n by {
            if i < t.len() {
                assert(t.push(s.last())[i] == t[i]);
            }
        }
    } else if s.len() > 0 {
        assert forall|i: int| 0 <= i < s.push(x).len() implies (#[trigger] s.push(x)[i]).len() == n by {
            if i < s.len() {
                assert(s.push(x)[i] == s[i]);
            }
        }
    }
}

proof fn lemma_sort_all_len(s: Seq<Seq<u8>>, n: nat)
    requires
        all_len(s, n),
    ensures
        all_len(sort_ascending(s), n),
    decreases s.len(),
{
    if s.len() > 0 {
        assert(all_len(s.drop_last(), n)) by {
            assert forall|i: int| 0 <= i < s.drop_last().len() implies (#[trigger] s.drop_last()[i]).len() == n by {
                assert(s.drop_last()[i] == s[i]);
            }
        }
        lemma_sort_all_len(s.drop_last(), n);
        lemma_insert_all_len(sort_ascending(s.drop_last()), s.last(), n);
    }
}

fn insert_ascending_exec(v: Vec<Vec<u8>>, x: Vec<u8>) -> (r: Vec<Vec<u8>>)
    ensures
        byte_views(r@) == insert_ascending(byte_views(v@), x@),
    decreases v@.len(),
{
    let mut v = v;
    if v.len() == 0 {
        v.push(x);
        assert(byte_views(v@) =~= seq![x@]);
        return v;
    }
    let ghost vs = byte_views(v@);
    let last = v.pop().unwrap();
    assert(byte_views(v@) =~= vs.drop_last());
    if !bytes_less(x.as_slice(), last.as_slice()) {
        v.push(last);
        v.push(x);
        assert(byte_views(v@) =~= vs.push(x@));
        v
    } else {
        let mut r = insert_ascending_exec(v, x);
        let ghost rs = byte_views(r@);
        r.push(last);
        assert(byte_views(r@) =~= rs.push(vs.last()));
        r
    }
}

fn sort_ascending_exec(v: Vec<Vec<u8>>) -> (r: Vec<Vec<u8>>)
    ensures
        byte_views(r@) == sort_ascending(byte_views(v@)),
{
    let mut r: Vec<Vec<u8>> = Vec::new();
    let mut i: usize = 0;
    let n = v.len();
    let mut rest = v;
    let ghost all = byte_views(rest@);
    // take elements from the front in order
    let mut front: Vec<Vec<u8>> = Vec::new();
    while rest.len() > 0
        invariant
            byte_views(front@) + byte_views(rest@) == all,
            byte_views(r@) == sort_ascending(byte_views(front@)),
        decreases rest@.len(),
    {
        let x = rest.remove(0);
        let ghost fv = byte_views(front@);
        let ghost rv = byte_views(rest@);
        proof {
            assert(byte_views(rest@) =~= rv);
        }
        let xc = copy_bytes(&x);
        front.push(x);
        assert(byte_views(front@) =~= fv.push(xc@));
        assert(byte_views(front@).drop_last() =~= fv);
        r = insert_ascending_exec(r, xc);
        proof {
            assert(all =~= byte_views(front@) + byte_views(rest@));
        }
    }
    assert(byte_views(front@) =~= all);
    r
}

fn copy_bytes(v: &Vec<u8>) -> (r: Vec<u8>)
    ensures
        r@ == v@,
{
    let mut r: Vec<u8> = Vec::new();
    let mut i: usize = 0;
    while i < v.len()
        invariant
            i <= v@.len(),
            r@ == v@.subrange(0, i as int),
        decreases v.len() - i,
    {
        r.push(v[i]);
        assert(r@ =~= v@.subrange(0, i + 1));
        i = i + 1;
    }
    assert(v@.subrange(0, v@.len() as int) =~= v@);
    r
}

fn next_level_exec(l: &Vec<Vec<u8>>) -> (r: Vec<Vec<u8>>)
    ensures
        byte_views(r@) == next_level(byte_views(l@)),
        all_len(byte_views(r@), 32),
{
    let mut r: Vec<Vec<u8>> = Vec::new();
    let mut i: usize = 0;
    assert(byte_views(l@).skip(0) =~= byte_views(l@));
    assert(byte_views(r@) + next_level(byte_views(l@)) =~= next_level(byte_views(l@)));
    while i < l.len()
        invariant
            i <= l@.len(),
            byte_views(r@) + next_level(byte_views(l@).skip(i as int)) == next_level(byte_views(l@)),
            all_len(byte_views(r@), 32),
        decreases l.len() - i,
    {
        let ghost s = byte_views(l@).skip(i as int);
        let mut data = copy_bytes(&l[i]);
        let second = if i + 1 < l.len() {
            i + 1
        } else {
            i
        };
        let mut k: usize = 0;
        let ghost first = data@;
        while k < l[second].len()
            invariant
                second < l@.len(),
                k <= l[second as int]@.len(),
                data@ == first + l[second as int]@.subrange(0, k as int),
            decreases l[second as int]@.len() - k,
        {
            data.push(l[second][k]);
            assert(data@ =~= first + l[second as int]@.subrange(0, k + 1));
            k = k + 1;
        }
        assert(l[second as int]@.subrange(0, l[second as int]@.len() as int) =~= l[second as int]@);
        let h = sha256(data.as_slice());
        let ghost rv = byte_views(r@);
        r.push(h);
        proof {
            assert(byte_views(r@) =~= rv.push(h@));
            assert forall|k: int| 0 <= k < byte_views(r@).len() implies (#[trigger] byte_views(r@)[k]).len() == 32 by {
                if k < rv.len() {
                    assert(byte_views(r@)[k] == rv[k]);
                }
            }
            if i + 1 < l.len() {
                assert(s.skip(2) =~= byte_views(l@).skip(i + 2));
                assert(s[0] == l[i as int]@ && s[1] == l[i + 1]@);
                assert(next_level(s) == seq![sha256_of(s[0] + s[1])] + next_level(s.skip(2)));
                assert(rv.push(h@) + next_level(s.skip(2)) =~= rv + next_level(s));
            } else {
                assert(s.len() == 1);
                assert(byte_views(l@).skip(i + 1) =~= Seq::<Seq<u8>>::empty());
                assert(rv.push(h@) =~= rv + next_level(s));
            }
        }
        i = if l.len() - i >= 2 {
            i + 2
        } else {
            l.len()
        };
        proof {
            if i == l.len() {
                assert(byte_views(l@).skip(i as int) =~= Seq::<Seq<u8>>::empty());
            }
        }
    }
    assert(byte_views(l@).skip(l@.len() as int) =~= Seq::<Seq<u8>>::empty());
    assert(byte_views(r@) + Seq::<Seq<u8>>::empty() =~= byte_views(r@));
    r
}

/// The Merkle root of a block's transaction hashes: the hashes that are hex
/// text of 32 bytes are sorted; each level hashes adjacent pairs (the last
/// with itself when alone) and is sorted again, until one node is left, whose
/// hex is the root. `0` when no hash is usable.
pub fn compute_merkle_root(tx_hashes: &[String]) -> (r: String)
    ensures
        r@ == merkle_root_of(texts(tx_hashes@)),
        leaves(texts(tx_hashes@)).len() > 0 ==> r@.len() == 64,
{
    let mut decoded: Vec<Vec<u8>> = Vec::new();
    let mut i: usize = 0;
    while i < tx_hashes.len()
        invariant
            i <= tx_hashes@.len(),
            byte_views(decoded@) == leaves(texts(tx_hashes@).subrange(0, i as int)),
            all_len(byte_views(decoded@), 32),
        decreases tx_hashes.len() - i,
    {
        assert(texts(tx_hashes@).subrange(0, i + 1).drop_last() =~= texts(tx_hashes@).subrange(0, i as int));
        assert(texts(tx_hashes@).subrange(0, i + 1).last() == tx_hashes@[i as int]@);
        match hex_decode(tx_hashes[i].as_str()) {
            Some(b) => {
                if b.len() == 32 {
                    let ghost dv = byte_views(decoded@);
                    decoded.push(b);
                    assert(byte_views(decoded@) =~= dv.push(hex_bytes(tx_hashes@[i as int]@)));
                    assert forall|k: int| 0 <= k < byte_views(decoded@).len() implies (#[trigger] byte_views(
                        decoded@,
                    )[k]).len() == 32 by {
                        if k < dv.len() {
                            assert(byte_views(decoded@)[k] == dv[k]);
                        }
                    }
                }
            },
            None => {},
        }
        i = i + 1;
    }
    assert(texts(tx_hashes@).subrange(0, tx_hashes@.len() as int) =~= texts(tx_hashes@));
    let ghost all = byte_views(decoded@);
    if decoded.len() == 0 {
        proof {
            lemma_sort_len(all);
            reveal_strlit("0");
        }
        return String::from_str("0");
    }
    let mut layer = sort_ascending_exec(decoded);
    proof {
        lemma_sort_len(all);
        lemma_sort_all_len(all, 32);
    }
    let ghost start = byte_views(layer@);
    let mut fuel: usize = layer.len();
    while layer.len() > 1
        invariant
            fuel + 1 >= layer@.len(),
            layer@.len() >= 1,
            merkle_levels(byte_views(layer@), fuel as nat) == merkle_levels(start, start.len()),
            start.len() == all.len(),
            all_len(byte_views(layer@), 32),
        decreases layer@.len(),
    {
        let next = next_level_exec(&layer);
        proof {
            lemma_next_level_len(byte_views(layer@));
            lemma_sort_len(next_level(byte_views(layer@)));
        }
        proof {
            lemma_sort_all_len(byte_views(next@), 32);
        }
        layer = sort_ascending_exec(next);
        fuel = fuel - 1;
    }
    proof {
        assert(merkle_levels(byte_views(layer@), fuel as nat) == byte_views(layer@));
        assert(byte_views(layer@)[0].len() == 32);
    }
    hex_encode(layer[0].as_slice())
}

/// The block hash over the header fields, in header order.
pub fn compute_block_hash_inner(
    block_number: u64,
    previous_hash: &str,
    timestamp: i64,
    merkle_root: &str,
    state_root: &str,
    producer_id: &str,
) -> (r: String)
    ensures
        r@ == block_hash_of(block_number, previous_hash@, timestamp, merkle_root@, state_root@, producer_id@),
{
    let mut data: Vec<u8> = Vec::new();
    push_le_bytes(&mut data, block_number as u128, 8);
    push_text_bytes(&mut data, previous_hash);
    let bits: u128 = if timestamp >= 0 {
        timestamp as u128
    } else {
        (timestamp as i128 + 0x1_0000_0000_0000_0000i128) as u128
    };
    push_le_bytes(&mut data, bits, 8);
    push_text_bytes(&mut data, merkle_root);
    push_text_bytes(&mut data, state_root);
    push_text_bytes(&mut data, producer_id);
    let d = sha256(data.as_slice());
    hex_encode(d.as_slice())
}

/// Most transactions in a block: with no throughput measured, 500 or the
/// mempool size if smaller; otherwise the least of 500, five seconds of
/// throughput and the mempool size (at least 1).
pub fn max_transactions_per_block(mempool_size: usize, avg_tps: u64, _network_load_pct: u64) -> (r: usize)
    ensures
        avg_tps == 0 ==> r == if mempool_size < 500 {
            mempool_size
        } else {
            500
        },
        avg_tps > 0 ==> r as int == vstd::math::min(
            vstd::math::min(500, avg_tps * 5),
            vstd::math::max(mempool_size as int, 1),
        ),
{
    if avg_tps == 0 {
        return if mempool_size < DEFAULT_MAX_TXS_PER_BLOCK {
            mempool_size
        } else {
            DEFAULT_MAX_TXS_PER_BLOCK
        };
    }
    let cap: u128 = (avg_tps as u128) * 5;
    let limit: usize = if cap < DEFAULT_MAX_TXS_PER_BLOCK as u128 {
        cap as usize
    } else {
        DEFAULT_MAX_TXS_PER_BLOCK
    };
    let floor: usize = if mempool_size >= 1 {
        mempool_size
    } else {
        1
    };
    if limit < floor {
        limit
    } else {
        floor
    }
}

/// Block size limit: 256 KiB, three quarters of it from 50 % load, half from 80 %.
pub fn max_block_size_bytes(_mempool_size: usize, _avg_tps: u64, network_load_pct: u64) -> (r: u64)
    ensures
        r == if network_load_pct >= 80 {
            131_072
        } else if network_load_pct >= 50 {
            196_608
        } else {
            262_144u64
        },
{
    let base = DEFAULT_MAX_BLOCK_SIZE;
    if network_load_pct >= 80 {
        base / 2
    } else if network_load_pct >= 50 {
        (base * 3) / 4
    } else {
        base
    }
}

/// Block time: 5 s, 3 s from 50 % load, 2 s from 80 %.
pub fn max_block_time_sec(network_load_pct: u64) -> (r: u64)
    ensures
        r == if network_load_pct >= 80 {
            2
        } else if network_load_pct >= 50 {
            3
        } else {
            5u64
        },
{
    if network_load_pct >= 80 {
        BLOCK_TIME_MIN_SEC
    } else if network_load_pct >= 50 {
        (BLOCK_TIME_MIN_SEC + BLOCK_TIME_MAX_SEC) / 2
    } else {
        BLOCK_TIME_MAX_SEC
    }
}

/// Assembles a block: Merkle root of the hashes, state root of the snapshot,
/// and the block hash over the header.
pub fn assemble_block(
    block_number: u64,
    previous_hash: String,
    timestamp: i64,
    transaction_hashes: Vec<String>,
    state_snapshot: &StateSnapshot,
    producer_id: NodeId,
    producer_sig: String,
) -> (r: Block)
    ensures
        r.block_number == block_number,
        r.previous_hash == previous_hash,
        r.timestamp == timestamp,
        r.transaction_hashes == transaction_hashes,
        r.merkle_root@ == merkle_root_of(texts(transaction_hashes@)),
        r.state_root@ == state_root_of(state_snapshot@),
        r.block_hash@ == block_hash_of(
            block_number,
            previous_hash@,
            timestamp,
            r.merkle_root@,
            r.state_root@,
            producer_id@,
        ),
        r.producer_id == producer_id,
        r.producer_sig == producer_sig,
{
    let merkle_root = compute_merkle_root(transaction_hashes.as_slice());
    let state_root = state_snapshot.compute_state_root();
    let block_hash = compute_block_hash_inner(
        block_number,
        previous_hash.as_str(),
        timestamp,
        merkle_root.as_str(),
        state_root.as_str(),
        producer_id.as_str(),
    );
    Block {
        block_number,
        previous_hash,
        timestamp,
        transaction_hashes,
        merkle_root,
        state_root,
        block_hash,
        producer_id,
        producer_sig,
    }
}

/// Second-layer aggregation: confirmed when at least 70 % confirm; the
/// dissenters from the majority are listed. Fails on an empty list.
pub fn process_l2_block_votes(votes: &[(NodeId, Vote)]) -> (r: Result<
    (BlockConfirmationResult, Vec<NodeId>),
    PlatariumError,
>)
    ensures
        votes@.len() == 0 ==> (r matches Err(e) && is_state_error(
            e,
            "BlockAssembly: Block assembly error: No L2 votes"@,
        )),
        votes@.len() > 0 ==> (r matches Ok((res, pen)) && (res == BlockConfirmationResult::Confirmed
            <==> confirm_count(votes@) * 100 >= votes@.len() * 70) && texts(pen@) == dissenters(
            votes@,
            majority_of(votes@),
        )),
{
    if votes.len() == 0 {
        return Err(
            PlatariumError::State(String::from_str("BlockAssembly: Block assembly error: No L2 votes")),
        );
    }
    let (reached, penalize) = tally(votes, L2_CONFIRM_THRESHOLD_PCT);
    let result = if reached {
        BlockConfirmationResult::Confirmed
    } else {
        BlockConfirmationResult::Rejected
    };
    Ok((result, penalize))
}

/// Second-layer penalties: a missed vote for each listed node, in order. At
/// the first unknown id it stops with that error; the ids before it have been
/// penalized and the rest are untouched.
pub fn apply_l2_block_penalties(registry: &mut NodeRegistry, to_penalize: &[NodeId]) -> (r: Result<
    (),
    PlatariumError,
>)
    requires
        old(registry).wf(),
    ensures
        final(registry).wf(),
        r.is_ok() == (forall|i: int|
            0 <= i < to_penalize@.len() ==> has_node(old(registry).nodes(), #[trigger] to_penalize@[i]@)),
        r.is_ok() ==> final(registry).nodes() == after_missed_votes(old(registry).nodes(), texts(to_penalize@)),
        r matches Err(e) ==> exists|k: int|
            0 <= k < to_penalize@.len() && !has_node(old(registry).nodes(), #[trigger] to_penalize@[k]@)
                && (forall|j: int| 0 <= j < k ==> has_node(old(registry).nodes(), #[trigger] to_penalize@[j]@))
                && is_state_error(e, not_found_text(to_penalize@[k]@)) && final(registry).nodes()
                == after_missed_votes(old(registry).nodes(), texts(to_penalize@).subrange(0, k))
{
    record_missed_votes(registry, to_penalize)
}

} // verus!
