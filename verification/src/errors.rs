//! Typed errors. No error carries free-form text; callers match on the
//! variants.

use vstd::prelude::*;

verus! {

/// The attributes that a valid advertisement must carry.
#[derive(Debug, Clone, Copy, PartialEq, Eq, Structural)]
pub enum RequiredAttribute {
    Addr,
    Keydata,
}

/// Why a raw advertisement header failed to parse, or could not be
/// extracted from a message.
#[derive(Debug, Clone, Copy, PartialEq, Eq, Structural)]
pub enum HeaderParseError {
    /// An attribute key the parser does not understand and that is not an
    /// ignorable `_`-prefixed extension was present.
    UnknownCriticalAttributes,
    /// A required attribute was absent.
    MissingCriticalAttribute(RequiredAttribute),
    /// No advertisement header was found; callers treat this as the
    /// "no header" success case, not a hard failure.
    MissingHeader,
    /// More than one advertisement header was found, which the protocol
    /// always rejects.
    TooManyHeaders,
    /// The underlying message header value could not be read as a string.
    InvalidHeader,
}

/// Why folding a message into a peer record failed. Either way the record
/// is left unmodified.
#[derive(Debug, Clone, Copy, PartialEq, Eq, Structural)]
pub enum PeerInfoParseError {
    /// The message layer could not supply a needed envelope header.
    MimeError,
    /// The advertisement header was present but unusable.
    HeaderError(HeaderParseError),
}

} // verus!
