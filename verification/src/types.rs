//! The closed token vocabularies of the wire format: key types and
//! encryption preferences.

use vstd::prelude::*;
use vstd::string::StringExecFns;
use crate::strutil::str_eq;

verus! {

/// What type of key an advertisement carries.
#[derive(Debug, Clone, PartialEq, Eq)]
pub enum KeyType {
    /// An OpenPGP key; its wire token is `1`.
    OpenPGP,
    /// Any other token, preserved verbatim. It renders the header
    /// semantically untrusted but is not a parse failure.
    Unknown(String),
}

/// Mathematical image of a [`KeyType`].
pub ghost enum KeyTypeView {
    OpenPGP,
    Unknown(Seq<char>),
}

impl View for KeyType {
    type V = KeyTypeView;

    open spec fn view(&self) -> KeyTypeView {
        match self {
            KeyType::OpenPGP => KeyTypeView::OpenPGP,
            KeyType::Unknown(s) => KeyTypeView::Unknown(s@),
        }
    }
}

/// The wire token that a key type serializes to.
pub open spec fn key_type_token(t: KeyTypeView) -> Seq<char> {
    match t {
        KeyTypeView::OpenPGP => "1"@,
        KeyTypeView::Unknown(s) => s,
    }
}

/// The key type that a wire token parses to. Unrecognized tokens never
/// fail; they map to `Unknown`.
pub open spec fn key_type_of_token(s: Seq<char>) -> KeyTypeView {
    if s == "1"@ {
        KeyTypeView::OpenPGP
    } else {
        KeyTypeView::Unknown(s)
    }
}

impl KeyType {
    /// Parses a wire token; total, by design of the wire vocabulary.
    pub fn from_token(s: &str) -> (t: KeyType)
        ensures
            t@ == key_type_of_token(s@),
    {
        if str_eq(s, "1") {
            KeyType::OpenPGP
        } else {
            KeyType::Unknown(String::from_str(s))
        }
    }

    /// Renders the wire token.
    pub fn to_token(&self) -> (r: String)
        ensures
            r@ == key_type_token(self@),
    {
        match self {
            KeyType::OpenPGP => String::from_str("1"),
            KeyType::Unknown(s) => s.clone(),
        }
    }
}

/// The encryption preference an advertisement announces.
#[derive(Debug, Clone, Copy, PartialEq, Eq, Structural)]
pub enum EncryptPreference {
    /// Wire token `mutual`.
    Mutual,
    /// Wire token `nopreference`; also the fallback for any unrecognized
    /// or absent token.
    NoPreference,
}

/// The wire token that a preference serializes to.
pub open spec fn pref_token(p: EncryptPreference) -> Seq<char> {
    match p {
        EncryptPreference::Mutual => "mutual"@,
        EncryptPreference::NoPreference => "nopreference"@,
    }
}

/// The preference that a wire token parses to: `Mutual` exactly for the
/// token `mutual`, `None` for everything else.
pub open spec fn pref_of_token(s: Seq<char>) -> EncryptPreference {
    if s == "mutual"@ {
        EncryptPreference::Mutual
    } else {
        EncryptPreference::NoPreference
    }
}

impl EncryptPreference {
    /// Parses a wire token; total, by design of the wire vocabulary.
    pub fn from_token(s: &str) -> (p: EncryptPreference)
        ensures
            p == pref_of_token(s@),
    {
        if str_eq(s, "mutual") {
            EncryptPreference::Mutual
        } else {
            EncryptPreference::NoPreference
        }
    }

    /// Renders the wire token.
    pub fn to_token(&self) -> (r: String)
        ensures
            r@ == pref_token(*self),
    {
        match self {
            EncryptPreference::Mutual => String::from_str("mutual"),
            EncryptPreference::NoPreference => String::from_str("nopreference"),
        }
    }
}

/// The decision whether outgoing mail to one or more recipients should be
/// encrypted, by increasing willingness to encrypt.
#[derive(Debug, Clone, Copy, PartialEq, Eq, Structural)]
pub enum Recommendation {
    Disable,
    Discourage,
    Available,
    Encrypt,
}

} // verus!
