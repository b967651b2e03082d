//! Transactions: the canonical record, its content hash and basic validation.
use vstd::prelude::*;
use crate::asset::{Asset, canonical};
use crate::encoding::{decimal, hex_encode, hex_of, json_quoted, json_string, push_decimal, sha256, sha256_of};
use crate::error::PlatariumError;
use crate::order::{sorted_distinct, sorted_members, lemma_sorted_is_canonical, text_bytes, texts};
use crate::signature::{signature_verdict, verify_signature};

verus! {

/// The least fee a transaction may carry, in μPLP.
pub const MIN_FEE_UPLP: u128 = 1;

/// Prefix of every hashed or signed message.
pub const DOMAIN_SEPARATOR: &'static str = "PlatariumSignature:";

#[derive(Debug, Clone, PartialEq, Eq)]
pub enum TransactionValidationError {
    InvalidSignature(String),
    InvalidAmount,
    InvalidFee(u128, u128),
    HashMismatch(String, String),
}

/// The message of a validation error.
pub open spec fn validation_text(e: TransactionValidationError) -> Seq<char> {
    match e {
        TransactionValidationError::InvalidSignature(m) => "Invalid signature: "@ + m@,
        TransactionValidationError::InvalidAmount => "Invalid amount: amount must be greater than 0"@,
        TransactionValidationError::InvalidFee(min, got) => "Invalid fee: fee must be in μPLP and at least "@
            + decimal(min as nat) + ", got "@ + decimal(got as nat),
        TransactionValidationError::HashMismatch(a, b) => "Hash mismatch: expected "@ + a@ + ", got "@
            + b@,
    }
}

impl TransactionValidationError {
    pub fn message(&self) -> (r: String)
        ensures
            r@ == validation_text(*self),
    {
        let mut s = String::new();
        match self {
            TransactionValidationError::InvalidSignature(m) => {
                s.append("Invalid signature: ");
                s.append(m.as_str());
            },
            TransactionValidationError::InvalidAmount => {
                s.append("Invalid amount: amount must be greater than 0");
            },
            TransactionValidationError::InvalidFee(min, got) => {
                s.append("Invalid fee: fee must be in μPLP and at least ");
                push_decimal(&mut s, *min);
                s.append(", got ");
                push_decimal(&mut s, *got);
            },
            TransactionValidationError::HashMismatch(a, b) => {
                s.append("Hash mismatch: expected ");
                s.append(a.as_str());
                s.append(", got ");
                s.append(b.as_str());
            },
        }
        assert(s@ =~= validation_text(*self));
        s
    }
}

pub type ValidationResult = std::result::Result<(), TransactionValidationError>;

/// A transfer of `amount` of `asset` from `from` to `to`, paying `fee_uplp` μPLP.
/// `reads` and `writes` are sets of addresses; only their members count.
#[derive(Debug, Clone, PartialEq, Eq)]
pub struct Transaction {
    pub hash: String,
    pub from: String,
    pub to: String,
    pub asset: Asset,
    pub amount: u128,
    pub fee_uplp: u128,
    pub nonce: u64,
    pub reads: Vec<String>,
    pub writes: Vec<String>,
    pub sig_main: String,
    pub sig_derived: String,
}

/// JSON array items: each text quoted, separated by commas.
pub open spec fn json_items(s: Seq<Seq<char>>) -> Seq<char>
    decreases s.len(),
{
    if s.len() == 0 {
        Seq::empty()
    } else if s.len() == 1 {
        json_quoted(s[0])
    } else {
        json_items(s.drop_last()) + ","@ + json_quoted(s.last())
    }
}

/// The JSON record that a transaction's hash and signatures cover.
pub open spec fn message_text(
    from: Seq<char>,
    to: Seq<char>,
    asset: Seq<char>,
    amount: u128,
    fee: u128,
    nonce: u64,
    reads: Seq<Seq<char>>,
    writes: Seq<Seq<char>>,
) -> Seq<char> {
    "{\"from\":"@ + json_quoted(from) + ",\"to\":"@ + json_quoted(to) + ",\"asset\":"@
        + json_quoted(asset) + ",\"amount\":"@ + decimal(amount as nat) + ",\"fee_uplp\":"@
        + decimal(fee as nat) + ",\"nonce\":"@ + decimal(nonce as nat) + ",\"reads\":["@
        + json_items(reads) + "],\"writes\":["@ + json_items(writes) + "]}"@
}

/// The record of `tx`, with its read and write sets in increasing order.
pub open spec fn tx_message(tx: Transaction) -> Seq<char> {
    message_text(
        tx.from@,
        tx.to@,
        canonical(tx.asset),
        tx.amount,
        tx.fee_uplp,
        tx.nonce,
        sorted_members(texts(tx.reads@).to_set()),
        sorted_members(texts(tx.writes@).to_set()),
    )
}

/// SHA-256 of the domain separator followed by the record.
pub open spec fn tx_digest(tx: Transaction) -> Seq<u8> {
    sha256_of(text_bytes("PlatariumSignature:"@ + tx_message(tx)))
}

/// The transaction hash: hex of its digest.
pub open spec fn tx_hash(tx: Transaction) -> Seq<char> {
    hex_of(tx_digest(tx))
}

/// Both signatures verify against `from`: `None` where one of them is not
/// hexadecimal text (the main signature is looked at first).
pub open spec fn signatures_verdict(tx: Transaction) -> Option<bool> {
    let main = signature_verdict(tx_digest(tx), tx.sig_main@, tx.from@);
    if main.is_none() {
        None
    } else if !main.unwrap() {
        Some(false)
    } else {
        signature_verdict(tx_digest(tx), tx.sig_derived@, tx.from@)
    }
}

/// What `validate_basic` decides: `None` for a valid transaction.
pub open spec fn basic_fault(tx: Transaction) -> Option<TransactionValidationError> {
    if tx.amount == 0 {
        Some(TransactionValidationError::InvalidAmount)
    } else if tx.fee_uplp < MIN_FEE_UPLP {
        Some(TransactionValidationError::InvalidFee(MIN_FEE_UPLP, tx.fee_uplp))
    } else if signatures_verdict(tx) == Some(true) {
        None
    } else {
        Some(TransactionValidationError::InvalidSignature(arbitrary()))
    }
}

/// The message of the error that `validate_basic` returns, `None` for a valid transaction.
pub open spec fn basic_fault_text(tx: Transaction) -> Option<Seq<char>> {
    if tx.amount == 0 {
        Some("Invalid amount: amount must be greater than 0"@)
    } else if tx.fee_uplp < MIN_FEE_UPLP {
        Some(
            "Invalid fee: fee must be in μPLP and at least "@ + decimal(MIN_FEE_UPLP as nat) + ", got "@
                + decimal(tx.fee_uplp as nat),
        )
    } else if signatures_verdict(tx) == Some(true) {
        None
    } else if signatures_verdict(tx) == Some(false) {
        Some("Invalid signature: "@ + "One or both signatures are invalid"@)
    } else {
        Some("Invalid signature: "@ + "Signature verification error"@)
    }
}

/// `e` is the error that `basic_fault` names, up to the message of an invalid signature.
pub open spec fn same_fault(e: TransactionValidationError, f: TransactionValidationError) -> bool {
    match (e, f) {
        (TransactionValidationError::InvalidAmount, TransactionValidationError::InvalidAmount) => true,
        (TransactionValidationError::InvalidFee(a, b), TransactionValidationError::InvalidFee(c, d)) => a
            == c && b == d,
        (
            TransactionValidationError::InvalidSignature(_),
            TransactionValidationError::InvalidSignature(_),
        ) => true,
        _ => false,
    }
}

fn push_json_items(out: &mut String, items: &Vec<String>)
    ensures
        final(out)@ == old(out)@ + json_items(texts(items@)),
{
    let mut i: usize = 0;
    while i < items.len()
        invariant
            i <= items@.len(),
            out@ == old(out)@ + json_items(texts(items@).subrange(0, i as int)),
        decreases items.len() - i,
    {
        if i > 0 {
            out.append(",");
        }
        let q = json_string(items[i].as_str());
        out.append(q.as_str());
        proof {
            let s = texts(items@).subrange(0, i + 1);
            assert(s.drop_last() =~= texts(items@).subrange(0, i as int));
            assert(s.last() == items@[i as int]@);
        }
        assert(out@ =~= old(out)@ + json_items(texts(items@).subrange(0, i + 1)));
        i = i + 1;
    }
    assert(texts(items@).subrange(0, items@.len() as int) =~= texts(items@));
}

fn push_json_field(out: &mut String, key: &str, value: &String)
    ensures
        final(out)@ == old(out)@ + key@ + json_quoted(value@),
{
    out.append(key);
    let q = json_string(value.as_str());
    out.append(q.as_str());
    assert(final(out)@ =~= old(out)@ + key@ + json_quoted(value@));
}

/// `a` and `b` hold the same values, field by field.
pub open spec fn same_tx(a: Transaction, b: Transaction) -> bool {
    &&& a.hash@ == b.hash@
    &&& a.from@ == b.from@
    &&& a.to@ == b.to@
    &&& a.asset == b.asset
    &&& a.amount == b.amount
    &&& a.fee_uplp == b.fee_uplp
    &&& a.nonce == b.nonce
    &&& a.reads@ == b.reads@
    &&& a.writes@ == b.writes@
    &&& a.sig_main@ == b.sig_main@
    &&& a.sig_derived@ == b.sig_derived@
}

/// A copy of a list of strings.
pub fn copy_texts(v: &Vec<String>) -> (r: Vec<String>)
    ensures
        r@ == v@,
{
    let mut r: Vec<String> = Vec::new();
    let mut i: usize = 0;
    while i < v.len()
        invariant
            i <= v@.len(),
            r@ == v@.subrange(0, i as int),
        decreases v.len() - i,
    {
        r.push(v[i].clone());
        assert(r@ =~= v@.subrange(0, i + 1));
        i = i + 1;
    }
    assert(v@.subrange(0, v@.len() as int) =~= v@);
    r
}

impl Asset {
    /// A copy of the asset.
    pub fn duplicate(&self) -> (r: Asset)
        ensures
            r == *self,
    {
        match self {
            Asset::PLP => Asset::PLP,
            Asset::Token(name) => Asset::Token(name.clone()),
        }
    }
}

impl Transaction {
    /// A copy of the transaction.
    pub fn duplicate(&self) -> (r: Transaction)
        ensures
            same_tx(r, *self),
    {
        Transaction {
            hash: self.hash.clone(),
            from: self.from.clone(),
            to: self.to.clone(),
            asset: self.asset.duplicate(),
            amount: self.amount,
            fee_uplp: self.fee_uplp,
            nonce: self.nonce,
            reads: copy_texts(&self.reads),
            writes: copy_texts(&self.writes),
            sig_main: self.sig_main.clone(),
            sig_derived: self.sig_derived.clone(),
        }
    }

    /// Builds a transaction and fills in its hash. The read and write sets are
    /// kept in increasing order, each member once.
    pub fn new(
        from: String,
        to: String,
        asset: Asset,
        amount: u128,
        fee_uplp: u128,
        nonce: u64,
        reads: Vec<String>,
        writes: Vec<String>,
        sig_main: String,
        sig_derived: String,
    ) -> (r: Result<Self, PlatariumError>)
        ensures
            r.is_ok(),
            r.is_ok() ==> {
                let tx = r.unwrap();
                &&& tx.from == from
                &&& tx.to == to
                &&& tx.asset == asset
                &&& tx.amount == amount
                &&& tx.fee_uplp == fee_uplp
                &&& tx.nonce == nonce
                &&& texts(tx.reads@) == sorted_members(texts(reads@).to_set())
                &&& texts(tx.writes@) == sorted_members(texts(writes@).to_set())
                &&& tx.sig_main == sig_main
                &&& tx.sig_derived == sig_derived
                &&& tx.hash@ == tx_hash(tx)
                &&& tx.hash@.len() == 64
            },
    {
        let sorted_reads = sorted_distinct(&reads);
        let sorted_writes = sorted_distinct(&writes);
        proof {
            lemma_sorted_is_canonical(texts(sorted_reads@));
            lemma_sorted_is_canonical(texts(sorted_writes@));
        }
        let mut tx = Transaction {
            hash: String::new(),
            from,
            to,
            asset,
            amount,
            fee_uplp,
            nonce,
            reads: sorted_reads,
            writes: sorted_writes,
            sig_main,
            sig_derived,
        };
        let h = tx.hash_hex();
        tx.hash = h;
        Ok(tx)
    }

    /// The record that the hash and the signatures cover.
    fn message(&self) -> (r: String)
        ensures
            r@ == tx_message(*self),
    {
        let reads = sorted_distinct(&self.reads);
        let writes = sorted_distinct(&self.writes);
        proof {
            lemma_sorted_is_canonical(texts(reads@));
            lemma_sorted_is_canonical(texts(writes@));
        }
        let mut s = String::new();
        push_json_field(&mut s, "{\"from\":", &self.from);
        push_json_field(&mut s, ",\"to\":", &self.to);
        push_json_field(&mut s, ",\"asset\":", &self.asset.as_canonical());
        s.append(",\"amount\":");
        push_decimal(&mut s, self.amount);
        s.append(",\"fee_uplp\":");
        push_decimal(&mut s, self.fee_uplp);
        s.append(",\"nonce\":");
        push_decimal(&mut s, self.nonce as u128);
        s.append(",\"reads\":[");
        push_json_items(&mut s, &reads);
        s.append("],\"writes\":[");
        push_json_items(&mut s, &writes);
        s.append("]}");
        assert(s@ =~= tx_message(*self));
        s
    }

    /// SHA-256 of the domain separator and the record.
    fn digest(&self) -> (r: Vec<u8>)
        ensures
            r@ == tx_digest(*self),
            r@.len() == 32,
    {
        let mut text = String::from_str(DOMAIN_SEPARATOR);
        let m = self.message();
        text.append(m.as_str());
        sha256(text.as_str().as_bytes())
    }

    fn hash_hex(&self) -> (r: String)
        ensures
            r@ == tx_hash(*self),
            r@.len() == 64,
    {
        let d = self.digest();
        hex_encode(d.as_slice())
    }

    /// The hash that the transaction's contents give (the `hash` field is not read).
    pub fn compute_hash(&self) -> (r: Result<String, PlatariumError>)
        ensures
            r.is_ok(),
            r.is_ok() ==> r.unwrap()@ == tx_hash(*self) && r.unwrap()@.len() == 64,
    {
        Ok(self.hash_hex())
    }

    /// Whether both signatures verify against `from` as a public key; an error
    /// where one of them, or the key, is not hexadecimal.
    pub fn verify_signatures(&self) -> (r: Result<bool, PlatariumError>)
        ensures
            match r {
                Ok(v) => signatures_verdict(*self) == Some(v),
                Err(_) => signatures_verdict(*self).is_none(),
            },
    {
        let d = self.digest();
        let main_verified = verify_signature(d.as_slice(), self.sig_main.as_str(), self.from.as_str())?;
        if !main_verified {
            return Ok(false);
        }
        let derived_verified = verify_signature(
            d.as_slice(),
            self.sig_derived.as_str(),
            self.from.as_str(),
        )?;
        Ok(main_verified && derived_verified)
    }

    /// Whether the `hash` field is the hash of the contents.
    pub fn validate_hash(&self) -> (r: Result<bool, PlatariumError>)
        ensures
            r == Ok::<bool, PlatariumError>(self.hash@ == tx_hash(*self)),
    {
        let h = self.hash_hex();
        Ok(self.hash == h)
    }

    /// Checks, in order, a positive amount, a fee of at least `MIN_FEE_UPLP` and
    /// both signatures.
    pub fn validate_basic(&self) -> (r: ValidationResult)
        ensures
            match r {
                Ok(()) => basic_fault(*self).is_none(),
                Err(e) => basic_fault(*self).is_some() && same_fault(e, basic_fault(*self).unwrap()),
            },
            r matches Err(e) ==> basic_fault_text(*self) == Some(validation_text(e)),
            r.is_ok() ==> basic_fault_text(*self).is_none(),
    {
        if self.amount == 0 {
            return Err(TransactionValidationError::InvalidAmount);
        }
        if self.fee_uplp < MIN_FEE_UPLP {
            return Err(TransactionValidationError::InvalidFee(MIN_FEE_UPLP, self.fee_uplp));
        }
        match self.verify_signatures() {
            Ok(true) => {},
            Ok(false) => {
                return Err(
                    TransactionValidationError::InvalidSignature(
                        String::from_str("One or both signatures are invalid"),
                    ),
                );
            },
            Err(_) => {
                return Err(
                    TransactionValidationError::InvalidSignature(
                        String::from_str("Signature verification error"),
                    ),
                );
            },
        }
        Ok(())
    }
}

/// The hash depends on the read and write sets only through their members:
/// two transactions that agree on every hashed field and on those members have
/// the same hash, whatever order or repetition their lists have.
pub proof fn lemma_hash_ignores_set_order(a: Transaction, b: Transaction)
    requires
        a.from@ == b.from@,
        a.to@ == b.to@,
        canonical(a.asset) == canonical(b.asset),
        a.amount == b.amount,
        a.fee_uplp == b.fee_uplp,
        a.nonce == b.nonce,
        texts(a.reads@).to_set() == texts(b.reads@).to_set(),
        texts(a.writes@).to_set() == texts(b.writes@).to_set(),
    ensures
        tx_hash(a) == tx_hash(b),
{
}

} // verus!
