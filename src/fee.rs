//! The fee schedule: integer fees in μPLP that grow with mempool load.
use vstd::prelude::*;
use crate::encoding::{decimal, decimal_digit, push_decimal};

verus! {

/// μPLP in one PLP.
pub const MICRO_PLP_PER_PLP: u64 = 1_000_000;

/// Base fee of a transaction in μPLP.
pub const BASE_TX_FEE_MICRO_PLP: u64 = 1;

/// Pending transactions that count as full load.
pub const MAX_BATCH_SIZE: usize = 1000;

pub const MULTIPLIER_1X: u64 = 1;
pub const MULTIPLIER_2X: u64 = 2;
pub const MULTIPLIER_3X: u64 = 3;
pub const MULTIPLIER_5X: u64 = 5;

/// An amount in μPLP, the unit of all fees.
#[derive(Debug, Clone, Copy, PartialEq, Eq, PartialOrd, Ord)]
pub struct MicroPLP(pub u64);

impl MicroPLP {
    pub fn new(value: u64) -> (r: Self)
        ensures
            r.0 == value,
    {
        MicroPLP(value)
    }

    pub fn as_u64(&self) -> (r: u64)
        ensures
            r == self.0,
    {
        self.0
    }

    /// Whole PLP in the amount.
    pub fn as_plp(&self) -> (r: u64)
        ensures
            r == self.0 / MICRO_PLP_PER_PLP,
    {
        self.0 / MICRO_PLP_PER_PLP
    }

    /// μPLP left over after the whole PLP.
    pub fn remainder_micro_plp(&self) -> (r: u64)
        ensures
            r == self.0 % MICRO_PLP_PER_PLP,
    {
        self.0 % MICRO_PLP_PER_PLP
    }
}

fn saturating_product(a: u64, b: u64) -> (r: u64)
    ensures
        r == if a * b > u64::MAX { u64::MAX as int } else { a * b },
{
    proof {
        assert(a * b <= u64::MAX * u64::MAX) by (nonlinear_arith)
            requires
                a <= u64::MAX,
                b <= u64::MAX,
        ;
    }
    let p = (a as u128) * (b as u128);
    if p > u64::MAX as u128 {
        u64::MAX
    } else {
        p as u64
    }
}

pub open spec fn saturated(v: int) -> u64 {
    if v > u64::MAX {
        u64::MAX
    } else {
        v as u64
    }
}

impl vstd::std_specs::ops::AddSpecImpl for MicroPLP {
    open spec fn obeys_add_spec() -> bool {
        true
    }

    open spec fn add_req(self, rhs: MicroPLP) -> bool {
        true
    }

    open spec fn add_spec(self, rhs: MicroPLP) -> MicroPLP {
        MicroPLP(saturated(self.0 + rhs.0))
    }
}

impl vstd::std_specs::ops::MulSpecImpl<u64> for MicroPLP {
    open spec fn obeys_mul_spec() -> bool {
        true
    }

    open spec fn mul_req(self, rhs: u64) -> bool {
        true
    }

    open spec fn mul_spec(self, rhs: u64) -> MicroPLP {
        MicroPLP(saturated(self.0 * rhs))
    }
}

impl vstd::std_specs::ops::MulSpecImpl<MicroPLP> for u64 {
    open spec fn obeys_mul_spec() -> bool {
        true
    }

    open spec fn mul_req(self, rhs: MicroPLP) -> bool {
        true
    }

    open spec fn mul_spec(self, rhs: MicroPLP) -> MicroPLP {
        MicroPLP(saturated(self * rhs.0))
    }
}

impl std::ops::Add for MicroPLP {
    type Output = Self;

    /// Sum of two amounts, held at `u64::MAX` where it would not fit.
    fn add(self, other: Self) -> Self {
        MicroPLP(self.0.saturating_add(other.0))
    }
}

impl std::ops::Mul<u64> for MicroPLP {
    type Output = Self;

    /// Product with a multiplier, held at `u64::MAX` where it would not fit.
    fn mul(self, multiplier: u64) -> Self {
        MicroPLP(saturating_product(self.0, multiplier))
    }
}

impl std::ops::Mul<MicroPLP> for u64 {
    type Output = MicroPLP;

    /// Product with a multiplier, held at `u64::MAX` where it would not fit.
    fn mul(self, micro_plp: MicroPLP) -> MicroPLP {
        MicroPLP(saturating_product(self, micro_plp.0))
    }
}

/// Mempool load in percent: pending transactions against a full batch, at most 100.
pub open spec fn load_percentage(pending: nat) -> nat {
    if pending >= MAX_BATCH_SIZE {
        100
    } else {
        (pending * 100) / (MAX_BATCH_SIZE as nat)
    }
}

/// Fee multiplier of a load bucket: 0-30 %, 31-60 %, 61-80 %, above 80 %.
pub open spec fn multiplier_for(load_pct: nat) -> u64 {
    if load_pct <= 30 {
        MULTIPLIER_1X
    } else if load_pct <= 60 {
        MULTIPLIER_2X
    } else if load_pct <= 80 {
        MULTIPLIER_3X
    } else {
        MULTIPLIER_5X
    }
}

/// The fee in μPLP when `pending` transactions wait.
pub open spec fn fee_from_load(pending: nat) -> u64 {
    (BASE_TX_FEE_MICRO_PLP * multiplier_for(load_percentage(pending))) as u64
}

pub fn calculate_load_multiplier(pending_tx_count: usize) -> (r: u64)
    ensures
        r == multiplier_for(load_percentage(pending_tx_count as nat)),
{
    let load_percentage: usize = if pending_tx_count >= MAX_BATCH_SIZE {
        100
    } else {
        (pending_tx_count * 100) / MAX_BATCH_SIZE
    };
    if load_percentage <= 30 {
        MULTIPLIER_1X
    } else if load_percentage <= 60 {
        MULTIPLIER_2X
    } else if load_percentage <= 80 {
        MULTIPLIER_3X
    } else {
        MULTIPLIER_5X
    }
}

pub fn calculate_fee(base_fee: u64, load_multiplier: u64) -> (r: u64)
    requires
        base_fee * load_multiplier <= u64::MAX,
    ensures
        r == base_fee * load_multiplier,
{
    base_fee * load_multiplier
}

pub fn calculate_fee_micro_plp(base_fee: MicroPLP, load_multiplier: u64) -> (r: MicroPLP)
    requires
        base_fee.0 * load_multiplier <= u64::MAX,
    ensures
        r.0 == base_fee.0 * load_multiplier,
{
    MicroPLP(base_fee.0 * load_multiplier)
}

pub fn calculate_fee_from_load(pending_tx_count: usize) -> (r: u64)
    ensures
        r == fee_from_load(pending_tx_count as nat),
{
    let multiplier = calculate_load_multiplier(pending_tx_count);
    calculate_fee(BASE_TX_FEE_MICRO_PLP, multiplier)
}

pub fn calculate_fee_from_load_micro_plp(pending_tx_count: usize) -> (r: MicroPLP)
    ensures
        r.0 == fee_from_load(pending_tx_count as nat),
{
    let multiplier = calculate_load_multiplier(pending_tx_count);
    let base_fee = MicroPLP::new(BASE_TX_FEE_MICRO_PLP);
    calculate_fee_micro_plp(base_fee, multiplier)
}

/// The fee never falls to zero: it is 1, 2, 3 or 5 μPLP whatever the load.
pub proof fn lemma_fee_buckets(pending: nat)
    ensures
        fee_from_load(pending) > 0,
        fee_from_load(pending) == 1 || fee_from_load(pending) == 2 || fee_from_load(pending) == 3
            || fee_from_load(pending) == 5,
{
}

/// The last `k` decimal digits of `n`, zeros to the left where it is shorter.
pub open spec fn fixed_digits(n: nat, k: nat) -> Seq<char>
    decreases k,
{
    if k == 0 {
        Seq::empty()
    } else {
        fixed_digits(n / 10, (k - 1) as nat) + seq![decimal_digit(n % 10)]
    }
}

/// The text of a μPLP amount in PLP with six decimals.
pub open spec fn plp_text(fee: nat) -> Seq<char> {
    decimal(fee / 1_000_000) + "."@ + fixed_digits(fee % 1_000_000, 6)
}

fn push_fixed_digits(out: &mut String, n: u64, k: u64)
    requires
        k <= 6,
    ensures
        final(out)@ == old(out)@ + fixed_digits(n as nat, k as nat),
    decreases k,
{
    if k > 0 {
        push_fixed_digits(out, n / 10, k - 1);
        push_decimal(out, (n % 10) as u128);
        assert(decimal((n % 10) as nat) =~= seq![decimal_digit((n % 10) as nat)]);
    }
    assert(final(out)@ =~= old(out)@ + fixed_digits(n as nat, k as nat));
}

/// Renders μPLP as PLP with exactly six decimals (`1234567` gives `1.234567`).
pub fn fee_to_plp_string(fee_micro_plp: u64) -> (r: String)
    ensures
        r@ == plp_text(fee_micro_plp as nat),
{
    let plp = fee_micro_plp / MICRO_PLP_PER_PLP;
    let remainder = fee_micro_plp % MICRO_PLP_PER_PLP;
    let mut s = String::new();
    push_decimal(&mut s, plp as u128);
    s.append(".");
    push_fixed_digits(&mut s, remainder, 6);
    assert(s@ =~= plp_text(fee_micro_plp as nat));
    s
}

} // verus!
