//! The authoritative state: asset balances, μPLP fee balances and nonces, with
//! snapshots that later changes cannot reach.
use vstd::prelude::*;
use std::sync::Arc;
use crate::asset::{Asset, canonical};
use crate::encoding::{decimal, hex_encode, hex_of, push_decimal, sha256, sha256_of};
use crate::error::{PlatariumError, is_state_error, state_error};
use crate::transaction::{Transaction, basic_fault, basic_fault_text, validation_text};
use crate::ledger::Ledger;
use crate::order::{lemma_sorted_is_canonical, sorted_distinct, sorted_members, strictly_sorted, text_bytes, texts};

verus! {

/// The account that receives every fee.
pub const TREASURY_ADDRESS: &'static str = "treasury";

pub type Address = String;

/// What a state holds: balances keyed by (address, canonical asset), μPLP
/// balances and nonces keyed by address.
pub struct Balances {
    pub assets: Map<(Seq<char>, Seq<char>), u128>,
    pub uplp: Map<Seq<char>, u128>,
    pub nonces: Map<Seq<char>, u64>,
}

pub open spec fn treasury() -> Seq<char> {
    "treasury"@
}

pub open spec fn amount_or_zero<K>(m: Map<K, u128>, k: K) -> u128 {
    if m.contains_key(k) {
        m[k]
    } else {
        0
    }
}

pub open spec fn asset_balance(b: Balances, addr: Seq<char>, asset: Seq<char>) -> u128 {
    amount_or_zero(b.assets, (addr, asset))
}

pub open spec fn uplp_balance(b: Balances, addr: Seq<char>) -> u128 {
    amount_or_zero(b.uplp, addr)
}

pub open spec fn nonce_of(b: Balances, addr: Seq<char>) -> u64 {
    if b.nonces.contains_key(addr) {
        b.nonces[addr]
    } else {
        0
    }
}

/// Why a transfer cannot be applied.
#[derive(Debug, Clone, Copy, PartialEq, Eq)]
pub enum StateError {
    InsufficientBalance { required: u128, available: u128 },
    InvalidNonce { expected: u64, got: u64 },
    Overflow,
}

/// Asset balances once `amount` has left `from`.
pub open spec fn assets_debited(b: Balances, from: Seq<char>, asset: Seq<char>, amount: u128) -> Map<
    (Seq<char>, Seq<char>),
    u128,
> {
    b.assets.insert((from, asset), (asset_balance(b, from, asset) - amount) as u128)
}

/// μPLP balances once `fee` has left `from`.
pub open spec fn uplp_debited(b: Balances, from: Seq<char>, fee: u128) -> Map<Seq<char>, u128> {
    b.uplp.insert(from, (uplp_balance(b, from) - fee) as u128)
}

/// The first check that a transfer fails, in the order nonce, asset balance,
/// μPLP balance, and last that no balance or nonce would leave its integer type.
pub open spec fn transfer_fault(
    b: Balances,
    from: Seq<char>,
    to: Seq<char>,
    asset: Seq<char>,
    amount: u128,
    fee: u128,
    expected_nonce: Option<u64>,
) -> Option<StateError> {
    if expected_nonce.is_some() && nonce_of(b, from) != expected_nonce.unwrap() {
        Some(StateError::InvalidNonce { expected: expected_nonce.unwrap(), got: nonce_of(b, from) })
    } else if asset_balance(b, from, asset) < amount {
        Some(StateError::InsufficientBalance { required: amount, available: asset_balance(b, from, asset) })
    } else if uplp_balance(b, from) < fee {
        Some(StateError::InsufficientBalance { required: fee, available: uplp_balance(b, from) })
    } else if amount_or_zero(assets_debited(b, from, asset, amount), (to, asset)) + amount
        > u128::MAX || amount_or_zero(uplp_debited(b, from, fee), treasury()) + fee > u128::MAX
        || expected_nonce == Some(u64::MAX) {
        Some(StateError::Overflow)
    } else {
        None
    }
}

/// The state after a transfer that passed its checks: the amount moves from
/// `from` to `to`, the fee from `from` to the treasury, and the nonce of `from`
/// becomes one past the expected one where one was given.
pub open spec fn transferred(
    b: Balances,
    from: Seq<char>,
    to: Seq<char>,
    asset: Seq<char>,
    amount: u128,
    fee: u128,
    expected_nonce: Option<u64>,
) -> Balances {
    let a1 = assets_debited(b, from, asset, amount);
    let u1 = uplp_debited(b, from, fee);
    Balances {
        assets: a1.insert((to, asset), (amount_or_zero(a1, (to, asset)) + amount) as u128),
        uplp: u1.insert(treasury(), (amount_or_zero(u1, treasury()) + fee) as u128),
        nonces: if expected_nonce.is_some() {
            b.nonces.insert(from, (expected_nonce.unwrap() + 1) as u64)
        } else {
            b.nonces
        },
    }
}

/// The contents after `apply_transaction(tx)`: the transfer where `tx` is
/// valid and passes its checks, else unchanged.
pub open spec fn after_transaction(b: Balances, tx: Transaction) -> Balances {
    if basic_fault(tx).is_some() || transfer_fault(
        b,
        tx.from@,
        tx.to@,
        canonical(tx.asset),
        tx.amount,
        tx.fee_uplp,
        Some(tx.nonce),
    ).is_some() {
        b
    } else {
        transferred(b, tx.from@, tx.to@, canonical(tx.asset), tx.amount, tx.fee_uplp, Some(tx.nonce))
    }
}

/// The contents after applying each transaction of a batch in order.
pub open spec fn after_batch(b: Balances, txs: Seq<Transaction>) -> Balances
    decreases txs.len(),
{
    if txs.len() == 0 {
        b
    } else {
        after_transaction(after_batch(b, txs.drop_last()), txs.last())
    }
}

/// Restoring a state from its own snapshot gives back the same contents:
/// `snapshot` hands out the state's contents and `restore` installs the
/// snapshot's, so every balance and nonce reads as before.
pub proof fn lemma_restore_own_snapshot(before: Balances, taken: Balances, after: Balances)
    requires
        taken == before,
        after == taken,
    ensures
        after == before,
        forall|a: Seq<char>, c: Seq<char>| asset_balance(after, a, c) == asset_balance(before, a, c),
        forall|a: Seq<char>| uplp_balance(after, a) == uplp_balance(before, a),
        forall|a: Seq<char>| nonce_of(after, a) == nonce_of(before, a),
{
}

/// Replaying one ordered batch on two equal states gives equal state roots.
pub proof fn lemma_replay_same_root(a: Balances, b: Balances, txs: Seq<Transaction>)
    requires
        a == b,
    ensures
        state_root_of(after_batch(a, txs)) == state_root_of(after_batch(b, txs)),
{
}

/// The message of a failed transfer.
pub open spec fn fault_text(f: StateError) -> Seq<char> {
    match f {
        StateError::InvalidNonce { expected, got } => "Invalid nonce: expected "@ + decimal(
            expected as nat,
        ) + ", got "@ + decimal(got as nat),
        StateError::InsufficientBalance { required, available } => "Insufficient balance: required "@
            + decimal(required as nat) + ", available "@ + decimal(available as nat),
        StateError::Overflow => "State error: balance overflow"@,
    }
}

impl StateError {
    pub fn message(&self) -> (r: String)
        ensures
            r@ == fault_text(*self),
    {
        let mut s = String::new();
        match self {
            StateError::InvalidNonce { expected, got } => {
                s.append("Invalid nonce: expected ");
                push_decimal(&mut s, *expected as u128);
                s.append(", got ");
                push_decimal(&mut s, *got as u128);
            },
            StateError::InsufficientBalance { required, available } => {
                s.append("Insufficient balance: required ");
                push_decimal(&mut s, *required);
                s.append(", available ");
                push_decimal(&mut s, *available);
            },
            StateError::Overflow => {
                s.append("State error: balance overflow");
            },
        }
        assert(s@ =~= fault_text(*self));
        s
    }
}

/// PLP balances by address: the entries of `assets` under the PLP asset.
pub open spec fn plp_balances(b: Balances) -> Map<Seq<char>, u128> {
    Map::new(
        |a: Seq<char>| b.assets.contains_key((a, canonical(Asset::PLP))),
        |a: Seq<char>| b.assets[(a, canonical(Asset::PLP))],
    )
}

/// Each key paired with its value in `m`.
pub open spec fn with_values<V>(keys: Seq<Seq<char>>, m: Map<Seq<char>, V>) -> Seq<(Seq<char>, V)> {
    keys.map_values(|a: Seq<char>| (a, m[a]))
}

/// The views of a list of (text, value) pairs.
pub open spec fn pair_views<V>(r: Seq<(String, V)>) -> Seq<(Seq<char>, V)> {
    r.map_values(|e: (String, V)| (e.0@, e.1))
}

/// Every PLP balance entry, by address in increasing order.
pub open spec fn balance_listing(b: Balances) -> Seq<(Seq<char>, u128)> {
    with_values(sorted_members(plp_balances(b).dom()), plp_balances(b))
}

/// Every nonce entry, by address in increasing order.
pub open spec fn nonce_listing(b: Balances) -> Seq<(Seq<char>, u64)> {
    with_values(sorted_members(b.nonces.dom()), b.nonces)
}

/// The `width` low bytes of `v`, least significant first.
pub open spec fn le_bytes(v: nat, width: nat) -> Seq<u8>
    decreases width,
{
    if width == 0 {
        Seq::empty()
    } else {
        seq![(v % 256) as u8] + le_bytes(v / 256, (width - 1) as nat)
    }
}

/// Each address's bytes followed by its balance as 16 little-endian bytes.
pub open spec fn balance_bytes(l: Seq<(Seq<char>, u128)>) -> Seq<u8>
    decreases l.len(),
{
    if l.len() == 0 {
        Seq::empty()
    } else {
        balance_bytes(l.drop_last()) + text_bytes(l.last().0) + le_bytes(l.last().1 as nat, 16)
    }
}

/// Each address's bytes followed by its nonce as 8 little-endian bytes.
pub open spec fn nonce_bytes(l: Seq<(Seq<char>, u64)>) -> Seq<u8>
    decreases l.len(),
{
    if l.len() == 0 {
        Seq::empty()
    } else {
        nonce_bytes(l.drop_last()) + text_bytes(l.last().0) + le_bytes(l.last().1 as nat, 8)
    }
}

/// The state root: hex of SHA-256 over the PLP balances, then the nonces, each by address.
pub open spec fn state_root_of(b: Balances) -> Seq<char> {
    hex_of(sha256_of(balance_bytes(balance_listing(b)) + nonce_bytes(nonce_listing(b))))
}

/// Appends the `width` low bytes of `v`, least significant first.
pub fn push_le_bytes(out: &mut Vec<u8>, v: u128, width: usize)
    requires
        width <= 16,
    ensures
        final(out)@ == old(out)@ + le_bytes(v as nat, width as nat),
    decreases width,
{
    if width > 0 {
        out.push((v % 256) as u8);
        push_le_bytes(out, v / 256, width - 1);
    }
    assert(final(out)@ =~= old(out)@ + le_bytes(v as nat, width as nat));
}

/// Appends the bytes of `s`.
pub fn push_text_bytes(out: &mut Vec<u8>, s: &str)
    ensures
        final(out)@ == old(out)@ + text_bytes(s@),
{
    let b = s.as_bytes();
    let mut i: usize = 0;
    while i < b.len()
        invariant
            i <= b@.len(),
            b@ == text_bytes(s@),
            out@ == old(out)@ + b@.subrange(0, i as int),
        decreases b.len() - i,
    {
        out.push(b[i]);
        assert(b@.subrange(0, i + 1) =~= b@.subrange(0, i as int).push(b@[i as int]));
        i = i + 1;
    }
    assert(b@.subrange(0, b@.len() as int) =~= b@);
}

/// Every entry of `m`, by key in increasing order.
fn listing_of<V: Copy>(m: &Ledger<String, V>) -> (r: Vec<(String, V)>)
    requires
        m.wf(),
    ensures
        pair_views(r@) == with_values(sorted_members(m@.dom()), m@),
{
    proof {
        m.lemma_items();
    }
    let mut keys: Vec<String> = Vec::new();
    let n = m.entry_count();
    let mut i: usize = 0;
    while i < n
        invariant
            n == m.items().len(),
            i <= n,
            keys@.len() == i,
            forall|j: int| 0 <= j < i ==> #[trigger] texts(keys@)[j] == m.items()[j].0,
        decreases n - i,
    {
        let (k, _v) = m.entry(i);
        let ghost before = keys@;
        keys.push(k.clone());
        assert forall|j: int| 0 <= j < i + 1 implies #[trigger] texts(keys@)[j] == m.items()[j].0 by {
            if j < i {
                assert(keys@[j] == before[j]);
                assert(texts(before)[j] == m.items()[j].0);
            }
        }
        i = i + 1;
    }
    let sorted = sorted_distinct(&keys);
    proof {
        assert(texts(keys@).to_set() =~= m@.dom()) by {
            assert forall|a: Seq<char>| texts(keys@).to_set().contains(a) implies m@.dom().contains(a) by {
                let j = choose|j: int| 0 <= j < texts(keys@).len() && texts(keys@)[j] == a;
                assert(m@.contains_key(m.items()[j].0));
            }
            assert forall|a: Seq<char>| m@.dom().contains(a) implies texts(keys@).to_set().contains(a) by {
                assert(m@.contains_key(a));
                let j = choose|j: int| 0 <= j < m.items().len() && #[trigger] m.items()[j].0 == a;
                assert(texts(keys@)[j] == a);
            }
        }
        lemma_sorted_is_canonical(texts(sorted@));
    }
    let mut r: Vec<(String, V)> = Vec::new();
    let mut i: usize = 0;
    while i < sorted.len()
        invariant
            i <= sorted@.len(),
            m.wf(),
            texts(sorted@).to_set() == m@.dom(),
            r@.len() == i,
            pair_views(r@) == with_values(texts(sorted@).subrange(0, i as int), m@),
        decreases sorted.len() - i,
    {
        let k = &sorted[i];
        assert(texts(sorted@).to_set().contains(texts(sorted@)[i as int]));
        let v = m.get(k).unwrap();
        let ghost before = r@;
        r.push((k.clone(), v));
        assert forall|j: int| 0 <= j < i + 1 implies #[trigger] pair_views(r@)[j] == with_values(
            texts(sorted@).subrange(0, i + 1),
            m@,
        )[j] by {
            if j < i {
                assert(r@[j] == before[j]);
                assert(pair_views(before)[j] == with_values(texts(sorted@).subrange(0, i as int), m@)[j]);
            }
        }
        assert(pair_views(r@) =~= with_values(texts(sorted@).subrange(0, i + 1), m@));
        i = i + 1;
    }
    assert(texts(sorted@).subrange(0, sorted@.len() as int) =~= texts(sorted@));
    r
}

/// The PLP entries of `ab`, keyed by address.
fn plp_entries(ab: &Ledger<(String, String), u128>, plp: &String) -> (r: Ledger<String, u128>)
    requires
        ab.wf(),
        plp@ == canonical(Asset::PLP),
    ensures
        r.wf(),
        r@ == plp_balances(Balances { assets: ab@, uplp: Map::empty(), nonces: Map::empty() }),
{
    let ghost b = Balances { assets: ab@, uplp: Map::empty(), nonces: Map::empty() };
    proof {
        ab.lemma_items();
    }
    let mut r: Ledger<String, u128> = Ledger::new();
    let n = ab.entry_count();
    let mut i: usize = 0;
    while i < n
        invariant
            n == ab.items().len(),
            i <= n,
            ab.wf(),
            r.wf(),
            plp@ == canonical(Asset::PLP),
            forall|a: Seq<char>|
                #[trigger] r@.contains_key(a) <==> exists|j: int|
                    0 <= j < i && #[trigger] ab.items()[j].0 == (a, canonical(Asset::PLP)),
            forall|a: Seq<char>| #[trigger] r@.contains_key(a) ==> r@[a] == ab@[(a, canonical(Asset::PLP))],
        decreases n - i,
    {
        let (k, v) = ab.entry(i);
        proof {
            ab.lemma_items();
        }
        assert(ab.items()[i as int].0 == (k.0@, k.1@));
        assert(ab@.contains_key(ab.items()[i as int].0));
        if k.1 == *plp {
            let ghost before = r@;
            r.insert(k.0.clone(), v);
            assert forall|a: Seq<char>| #[trigger] r@.contains_key(a) <==> exists|j: int|
                0 <= j < i + 1 && #[trigger] ab.items()[j].0 == (a, canonical(Asset::PLP)) by {
                if a == k.0@ {
                    assert(ab.items()[i as int].0 == (a, canonical(Asset::PLP)));
                } else if exists|j: int| 0 <= j < i + 1 && #[trigger] ab.items()[j].0 == (a, canonical(Asset::PLP)) {
                    let j = choose|j: int| 0 <= j < i + 1 && #[trigger] ab.items()[j].0 == (a, canonical(Asset::PLP));
                    assert(j != i);
                    assert(before.contains_key(a));
                }
            }
            assert(ab@.contains_key(ab.items()[i as int].0));
        } else {
            assert forall|a: Seq<char>| #[trigger] r@.contains_key(a) <==> exists|j: int|
                0 <= j < i + 1 && #[trigger] ab.items()[j].0 == (a, canonical(Asset::PLP)) by {
                if exists|j: int| 0 <= j < i + 1 && #[trigger] ab.items()[j].0 == (a, canonical(Asset::PLP)) {
                    let j = choose|j: int| 0 <= j < i + 1 && #[trigger] ab.items()[j].0 == (a, canonical(Asset::PLP));
                    assert(j != i);
                }
            }
        }
        i = i + 1;
    }
    proof {
        ab.lemma_items();
        assert forall|a: Seq<char>| #[trigger] r@.contains_key(a) <==> plp_balances(b).contains_key(a) by {
            if plp_balances(b).contains_key(a) {
                assert(ab@.contains_key((a, canonical(Asset::PLP))));
                let j = choose|j: int| 0 <= j < ab.items().len() && #[trigger] ab.items()[j].0 == (a, canonical(Asset::PLP));
            }
            if r@.contains_key(a) {
                let j = choose|j: int| 0 <= j < n && #[trigger] ab.items()[j].0 == (a, canonical(Asset::PLP));
                assert(ab@.contains_key(ab.items()[j].0));
            }
        }
        assert(r@ =~= plp_balances(b));
    }
    r
}

/// Something that can hand out snapshots of its contents.
pub trait SnapshotableState {
    /// Whether a snapshot can be taken now.
    spec fn can_snapshot(&self) -> bool;

    /// The contents a snapshot would hold.
    spec fn contents(&self) -> Balances;

    fn snapshot(&self) -> (r: StateSnapshot)
        requires
            self.can_snapshot(),
        ensures
            r@ == self.contents();
}

/// An immutable view of the state at one moment.
#[derive(Debug)]
pub struct StateSnapshot {
    asset_balances: Arc<Ledger<(String, String), u128>>,
    uplp_balances: Arc<Ledger<String, u128>>,
    nonces: Arc<Ledger<String, u64>>,
}

impl View for StateSnapshot {
    type V = Balances;

    closed spec fn view(&self) -> Balances {
        Balances {
            assets: (*self.asset_balances)@,
            uplp: (*self.uplp_balances)@,
            nonces: (*self.nonces)@,
        }
    }
}

/// The current state.
#[derive(Debug)]
pub struct State {
    asset_balances: Arc<Ledger<(String, String), u128>>,
    uplp_balances: Arc<Ledger<String, u128>>,
    nonces: Arc<Ledger<String, u64>>,
}

impl View for State {
    type V = Balances;

    closed spec fn view(&self) -> Balances {
        Balances {
            assets: (*self.asset_balances)@,
            uplp: (*self.uplp_balances)@,
            nonces: (*self.nonces)@,
        }
    }
}

impl Clone for StateSnapshot {
    /// Another handle on the same contents; nothing is copied.
    fn clone(&self) -> (r: StateSnapshot)
        ensures
            r@ == self@,
    {
        proof {
            use_type_invariant(self);
        }
        StateSnapshot {
            asset_balances: self.asset_balances.clone(),
            uplp_balances: self.uplp_balances.clone(),
            nonces: self.nonces.clone(),
        }
    }
}

impl PartialEq for StateSnapshot {
    /// Equal when the contents are equal.
    fn eq(&self, other: &StateSnapshot) -> (r: bool) {
        proof {
            use_type_invariant(self);
            use_type_invariant(other);
        }
        self.asset_balances.same_contents(&other.asset_balances) && self.uplp_balances.same_contents(
            &other.uplp_balances,
        ) && self.nonces.same_contents(&other.nonces)
    }
}

impl vstd::std_specs::cmp::PartialEqSpecImpl for StateSnapshot {
    open spec fn obeys_eq_spec() -> bool {
        true
    }

    open spec fn eq_spec(&self, other: &StateSnapshot) -> bool {
        self@ == other@
    }
}

impl StateSnapshot {
    pub closed spec fn wf(&self) -> bool {
        self.asset_balances.wf() && self.uplp_balances.wf() && self.nonces.wf()
    }

    #[verifier::type_invariant]
    closed spec fn inv(&self) -> bool {
        self.wf()
    }


    /// The PLP balance of `address`.
    pub fn get_balance(&self, address: &Address) -> (r: u128)
        ensures
            r == asset_balance(self@, address@, canonical(Asset::PLP)),
    {
        proof {
            use_type_invariant(self);
        }
        match self.asset_balances.get(&(address.clone(), Asset::PLP.as_canonical())) {
            Some(v) => v,
            None => 0,
        }
    }

    pub fn get_nonce(&self, address: &Address) -> (r: u64)
        ensures
            r == nonce_of(self@, address@),
    {
        proof {
            use_type_invariant(self);
        }
        match self.nonces.get(address) {
            Some(v) => v,
            None => 0,
        }
    }

    /// Every PLP balance, by address in increasing order.
    pub fn get_all_balances(&self) -> (r: Vec<(Address, u128)>)
        ensures
            pair_views(r@) == balance_listing(self@),
    {
        proof {
            use_type_invariant(self);
        }
        let plp = Asset::PLP.as_canonical();
        let entries = plp_entries(&self.asset_balances, &plp);
        listing_of(&entries)
    }

    /// Every nonce, by address in increasing order.
    pub fn get_all_nonces(&self) -> (r: Vec<(Address, u64)>)
        ensures
            pair_views(r@) == nonce_listing(self@),
    {
        proof {
            use_type_invariant(self);
        }
        listing_of(&self.nonces)
    }

    /// Hex SHA-256 over every PLP balance (address bytes, then 16 little-endian
    /// bytes) followed by every nonce (address bytes, then 8 little-endian
    /// bytes), each by address in increasing order. Other assets are not covered.
    pub fn compute_state_root(&self) -> (r: String)
        ensures
            r@ == state_root_of(self@),
    {
        proof {
            use_type_invariant(self);
        }
        let balances = self.get_all_balances();
        let nonces = self.get_all_nonces();
        let mut data: Vec<u8> = Vec::new();
        let mut i: usize = 0;
        while i < balances.len()
            invariant
                i <= balances@.len(),
                data@ == balance_bytes(pair_views(balances@).subrange(0, i as int)),
            decreases balances.len() - i,
        {
            push_text_bytes(&mut data, balances[i].0.as_str());
            push_le_bytes(&mut data, balances[i].1, 16);
            assert(pair_views(balances@).subrange(0, i + 1).drop_last() =~= pair_views(
                balances@,
            ).subrange(0, i as int));
            i = i + 1;
        }
        assert(pair_views(balances@).subrange(0, balances@.len() as int) =~= pair_views(balances@));
        let ghost head = data@;
        let mut i: usize = 0;
        while i < nonces.len()
            invariant
                i <= nonces@.len(),
                data@ == head + nonce_bytes(pair_views(nonces@).subrange(0, i as int)),
            decreases nonces.len() - i,
        {
            push_text_bytes(&mut data, nonces[i].0.as_str());
            push_le_bytes(&mut data, nonces[i].1 as u128, 8);
            assert(pair_views(nonces@).subrange(0, i + 1).drop_last() =~= pair_views(
                nonces@,
            ).subrange(0, i as int));
            assert(data@ =~= head + nonce_bytes(pair_views(nonces@).subrange(0, i + 1)));
            i = i + 1;
        }
        assert(pair_views(nonces@).subrange(0, nonces@.len() as int) =~= pair_views(nonces@));
        let digest = sha256(data.as_slice());
        hex_encode(digest.as_slice())
    }

    /// Holds no entry at all.
    pub fn is_empty(&self) -> (r: bool)
        ensures
            r == (self@.assets.dom().len() == 0 && self@.uplp.dom().len() == 0
                && self@.nonces.dom().len() == 0),
    {
        proof {
            use_type_invariant(self);
        }
        self.asset_balances.len() == 0 && self.uplp_balances.len() == 0 && self.nonces.len() == 0
    }

    /// Number of (address, asset) balance entries.
    pub fn balance_count(&self) -> (r: usize)
        ensures
            r == self@.assets.dom().len(),
    {
        proof {
            use_type_invariant(self);
        }
        self.asset_balances.len()
    }

    /// Number of nonce entries.
    pub fn nonce_count(&self) -> (r: usize)
        ensures
            r == self@.nonces.dom().len(),
    {
        proof {
            use_type_invariant(self);
        }
        self.nonces.len()
    }
}

impl State {
    pub closed spec fn wf(&self) -> bool {
        self.asset_balances.wf() && self.uplp_balances.wf() && self.nonces.wf()
    }

    /// An empty state: every balance and nonce reads 0.
    pub fn new() -> (r: Self)
        ensures
            r.wf(),
            r@.assets == Map::<(Seq<char>, Seq<char>), u128>::empty(),
            r@.uplp == Map::<Seq<char>, u128>::empty(),
            r@.nonces == Map::<Seq<char>, u64>::empty(),
    {
        State {
            asset_balances: Arc::new(Ledger::new()),
            uplp_balances: Arc::new(Ledger::new()),
            nonces: Arc::new(Ledger::new()),
        }
    }

    pub fn get_asset_balance(&self, address: &Address, asset: &Asset) -> (r: u128)
        requires
            self.wf(),
        ensures
            r == asset_balance(self@, address@, canonical(*asset)),
    {
        match self.asset_balances.get(&(address.clone(), asset.as_canonical())) {
            Some(v) => v,
            None => 0,
        }
    }

    pub fn get_uplp_balance(&self, address: &Address) -> (r: u128)
        requires
            self.wf(),
        ensures
            r == uplp_balance(self@, address@),
    {
        match self.uplp_balances.get(address) {
            Some(v) => v,
            None => 0,
        }
    }

    /// The PLP balance of `address`.
    pub fn get_balance(&self, address: &Address) -> (r: u128)
        requires
            self.wf(),
        ensures
            r == asset_balance(self@, address@, canonical(Asset::PLP)),
    {
        self.get_asset_balance(address, &Asset::PLP)
    }

    pub fn get_nonce(&self, address: &Address) -> (r: u64)
        requires
            self.wf(),
        ensures
            r == nonce_of(self@, address@),
    {
        match self.nonces.get(address) {
            Some(v) => v,
            None => 0,
        }
    }

    pub fn set_asset_balance(&mut self, address: &Address, asset: &Asset, balance: u128)
        requires
            old(self).wf(),
        ensures
            final(self).wf(),
            final(self)@ == (Balances {
                assets: old(self)@.assets.insert((address@, canonical(*asset)), balance),
                ..old(self)@
            }),
    {
        let mut t = self.asset_balances.duplicate();
        t.insert((address.clone(), asset.as_canonical()), balance);
        self.asset_balances = Arc::new(t);
    }

    pub fn set_uplp_balance(&mut self, address: &Address, balance: u128)
        requires
            old(self).wf(),
        ensures
            final(self).wf(),
            final(self)@ == (Balances { uplp: old(self)@.uplp.insert(address@, balance), ..old(self)@ }),
    {
        let mut t = self.uplp_balances.duplicate();
        t.insert(address.clone(), balance);
        self.uplp_balances = Arc::new(t);
    }

    /// Sets the PLP balance of `address`.
    pub fn set_balance(&mut self, address: &Address, balance: u128)
        requires
            old(self).wf(),
        ensures
            final(self).wf(),
            final(self)@ == (Balances {
                assets: old(self)@.assets.insert((address@, canonical(Asset::PLP)), balance),
                ..old(self)@
            }),
    {
        self.set_asset_balance(address, &Asset::PLP, balance);
    }

    pub fn set_nonce(&mut self, address: &Address, nonce: u64)
        requires
            old(self).wf(),
        ensures
            final(self).wf(),
            final(self)@ == (Balances { nonces: old(self)@.nonces.insert(address@, nonce), ..old(self)@ }),
    {
        let mut t = self.nonces.duplicate();
        t.insert(address.clone(), nonce);
        self.nonces = Arc::new(t);
    }

    /// Moves `amount` of `asset` from `from` to `to` and `fee_uplp` μPLP from
    /// `from` to the treasury, and advances the nonce of `from` where one is
    /// expected. All or nothing: on an error the state is unchanged.
    pub fn apply_transfer(
        &mut self,
        from: &Address,
        to: &Address,
        asset: &Asset,
        amount: u128,
        fee_uplp: u128,
        expected_nonce: Option<u64>,
    ) -> (r: Result<(), PlatariumError>)
        requires
            old(self).wf(),
        ensures
            final(self).wf(),
            ({
                let fault = transfer_fault(
                    old(self)@,
                    from@,
                    to@,
                    canonical(*asset),
                    amount,
                    fee_uplp,
                    expected_nonce,
                );
                match r {
                    Ok(()) => fault.is_none() && final(self)@ == transferred(
                        old(self)@,
                        from@,
                        to@,
                        canonical(*asset),
                        amount,
                        fee_uplp,
                        expected_nonce,
                    ),
                    Err(e) => fault.is_some() && is_state_error(e, fault_text(fault.unwrap()))
                        && final(self)@ == old(self)@,
                }
            }),
    {
        let ghost c = canonical(*asset);
        let ghost b = self@;
        let canon = asset.as_canonical();
        if let Some(expected) = expected_nonce {
            let cur = self.get_nonce(from);
            if cur != expected {
                let f = StateError::InvalidNonce { expected, got: cur };
                return Err(PlatariumError::State(f.message()));
            }
        }
        let asset_bal = self.get_asset_balance(from, asset);
        if asset_bal < amount {
            let f = StateError::InsufficientBalance { required: amount, available: asset_bal };
            return Err(PlatariumError::State(f.message()));
        }
        let uplp_bal = self.get_uplp_balance(from);
        if uplp_bal < fee_uplp {
            let f = StateError::InsufficientBalance { required: fee_uplp, available: uplp_bal };
            return Err(PlatariumError::State(f.message()));
        }
        let to_bal = if *to == *from {
            asset_bal - amount
        } else {
            self.get_asset_balance(to, asset)
        };
        let treasury = String::from_str(TREASURY_ADDRESS);
        let treasury_bal = if *from == treasury {
            uplp_bal - fee_uplp
        } else {
            self.get_uplp_balance(&treasury)
        };
        let nonce_overflow = match expected_nonce {
            Some(e) => e == u64::MAX,
            None => false,
        };
        if to_bal > u128::MAX - amount || treasury_bal > u128::MAX - fee_uplp || nonce_overflow {
            let f = StateError::Overflow;
            return Err(PlatariumError::State(f.message()));
        }
        let mut ab = self.asset_balances.duplicate();
        ab.insert((from.clone(), canon.clone()), asset_bal - amount);
        ab.insert((to.clone(), canon), to_bal + amount);
        let mut ub = self.uplp_balances.duplicate();
        ub.insert(from.clone(), uplp_bal - fee_uplp);
        ub.insert(treasury, treasury_bal + fee_uplp);
        self.asset_balances = Arc::new(ab);
        self.uplp_balances = Arc::new(ub);
        if let Some(expected) = expected_nonce {
            let mut nc = self.nonces.duplicate();
            nc.insert(from.clone(), expected + 1);
            self.nonces = Arc::new(nc);
        }
        proof {
            let t = transferred(b, from@, to@, c, amount, fee_uplp, expected_nonce);
            assert(self@.assets =~= t.assets);
            assert(self@.uplp =~= t.uplp);
            assert(self@.nonces =~= t.nonces);
        }
        Ok(())
    }

    /// Every PLP balance, by address in increasing order.
    pub fn get_all_balances(&self) -> (r: Vec<(Address, u128)>)
        requires
            self.wf(),
        ensures
            pair_views(r@) == balance_listing(self@),
    {
        let plp = Asset::PLP.as_canonical();
        let entries = plp_entries(&self.asset_balances, &plp);
        listing_of(&entries)
    }

    /// Every nonce, by address in increasing order.
    pub fn get_all_nonces(&self) -> (r: Vec<(Address, u64)>)
        requires
            self.wf(),
        ensures
            pair_views(r@) == nonce_listing(self@),
    {
        listing_of(&self.nonces)
    }

    /// Validates `tx` and applies it as a transfer that expects its nonce.
    /// All or nothing: on an error the state is unchanged.
    pub fn apply_transaction(&mut self, tx: &Transaction) -> (r: Result<(), PlatariumError>)
        requires
            old(self).wf(),
        ensures
            final(self).wf(),
            final(self)@ == after_transaction(old(self)@, *tx),
            basic_fault(*tx).is_some() ==> r.is_err() && final(self)@ == old(self)@ && (r matches Err(
                e,
            ) && is_state_error(e, "Transaction validation error: "@ + basic_fault_text(*tx).unwrap())),
            basic_fault(*tx).is_none() ==> {
                let fault = transfer_fault(
                    old(self)@,
                    tx.from@,
                    tx.to@,
                    canonical(tx.asset),
                    tx.amount,
                    tx.fee_uplp,
                    Some(tx.nonce),
                );
                match r {
                    Ok(()) => fault.is_none() && final(self)@ == transferred(
                        old(self)@,
                        tx.from@,
                        tx.to@,
                        canonical(tx.asset),
                        tx.amount,
                        tx.fee_uplp,
                        Some(tx.nonce),
                    ),
                    Err(e) => fault.is_some() && is_state_error(e, fault_text(fault.unwrap()))
                        && final(self)@ == old(self)@,
                }
            },
    {
        match tx.validate_basic() {
            Ok(()) => {},
            Err(e) => {
                let m = e.message();
                let err = state_error("Transaction validation error: ", &m);
                return Err(err);
            },
        }
        self.apply_transfer(&tx.from, &tx.to, &tx.asset, tx.amount, tx.fee_uplp, Some(tx.nonce))
    }

    /// A snapshot with the state's present contents.
    pub fn snapshot(&self) -> (r: StateSnapshot)
        requires
            self.wf(),
        ensures
            r.wf(),
            r@ == self@,
    {
        self.create_snapshot()
    }

    /// Same as `snapshot`.
    pub fn create_snapshot(&self) -> (r: StateSnapshot)
        requires
            self.wf(),
        ensures
            r.wf(),
            r@ == self@,
    {
        StateSnapshot {
            asset_balances: self.asset_balances.clone(),
            uplp_balances: self.uplp_balances.clone(),
            nonces: self.nonces.clone(),
        }
    }

    /// Replaces the whole contents by those of `snapshot`.
    pub fn restore(&mut self, snapshot: &StateSnapshot)
        ensures
            final(self).wf(),
            final(self)@ == snapshot@,
    {
        proof {
            use_type_invariant(snapshot);
        }
        self.asset_balances = snapshot.asset_balances.clone();
        self.uplp_balances = snapshot.uplp_balances.clone();
        self.nonces = snapshot.nonces.clone();
    }
}

impl SnapshotableState for State {
    open spec fn can_snapshot(&self) -> bool {
        self.wf()
    }

    open spec fn contents(&self) -> Balances {
        self@
    }

    fn snapshot(&self) -> (r: StateSnapshot) {
        self.create_snapshot()
    }
}

} // verus!
