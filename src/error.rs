//! The library's common error envelope: a category and a message.
use vstd::prelude::*;

verus! {

/// An error with its category; each component's own error is carried as its message.
#[derive(Debug, Clone, PartialEq, Eq)]
pub enum PlatariumError {
    Validation(String),
    Crypto(String),
    Bip39(String),
    Bip32(String),
    Signature(String),
    KeyDerivation(String),
    State(String),
}

pub type Result<T> = std::result::Result<T, PlatariumError>;

/// A `State` error whose message has the view `text`.
pub open spec fn is_state_error(e: PlatariumError, text: Seq<char>) -> bool {
    match e {
        PlatariumError::State(m) => m@ == text,
        _ => false,
    }
}

/// The text of an error: its category, then its message.
pub open spec fn error_text(e: PlatariumError) -> Seq<char> {
    match e {
        PlatariumError::Validation(m) => "Validation error: "@ + m@,
        PlatariumError::Crypto(m) => "Cryptographic error: "@ + m@,
        PlatariumError::Bip39(m) => "BIP39 error: "@ + m@,
        PlatariumError::Bip32(m) => "BIP32 error: "@ + m@,
        PlatariumError::Signature(m) => "Signature error: "@ + m@,
        PlatariumError::KeyDerivation(m) => "Key derivation error: "@ + m@,
        PlatariumError::State(m) => "State error: "@ + m@,
    }
}

impl PlatariumError {
    /// The category followed by the message, as the error is shown to a user.
    pub fn to_string(&self) -> (r: String)
        ensures
            r@ == error_text(*self),
    {
        let (prefix, m) = match self {
            PlatariumError::Validation(m) => ("Validation error: ", m),
            PlatariumError::Crypto(m) => ("Cryptographic error: ", m),
            PlatariumError::Bip39(m) => ("BIP39 error: ", m),
            PlatariumError::Bip32(m) => ("BIP32 error: ", m),
            PlatariumError::Signature(m) => ("Signature error: ", m),
            PlatariumError::KeyDerivation(m) => ("Key derivation error: ", m),
            PlatariumError::State(m) => ("State error: ", m),
        };
        let mut s = String::from_str(prefix);
        s.append(m.as_str());
        s
    }
}

/// `prefix` followed by a component's message.
pub fn state_error(prefix: &str, message: &String) -> (r: PlatariumError)
    ensures
        is_state_error(r, prefix@ + message@),
{
    let mut m = String::from_str(prefix);
    m.append(message.as_str());
    PlatariumError::State(m)
}

} // verus!
