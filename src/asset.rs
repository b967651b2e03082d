//! Asset identifiers: the native currency or a named token.
use vstd::prelude::*;

verus! {

/// The native currency PLP, or a token known by its name.
#[derive(Debug, Clone, PartialEq, Eq, Hash)]
pub enum Asset {
    PLP,
    Token(String),
}

/// The canonical text of an asset: `PLP` or `Token:<name>`.
pub open spec fn canonical(a: Asset) -> Seq<char> {
    match a {
        Asset::PLP => "PLP"@,
        Asset::Token(name) => "Token:"@ + name@,
    }
}

impl Asset {
    /// The canonical text, which is the key under which balances of the asset are kept.
    pub fn as_canonical(&self) -> (r: String)
        ensures
            r@ == canonical(*self),
    {
        match self {
            Asset::PLP => String::from_str("PLP"),
            Asset::Token(name) => {
                let mut s = String::from_str("Token:");
                s.append(name.as_str());
                s
            },
        }
    }

    /// The canonical text, as the asset is shown.
    pub fn to_string(&self) -> (r: String)
        ensures
            r@ == canonical(*self),
    {
        self.as_canonical()
    }
}

} // verus!
