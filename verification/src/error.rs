//! The error type shared by the codec, the recoverer and the validator.

use vstd::prelude::*;

use crate::uint256::Uint256;

verus! {

/// Every failure this crate can report, each carrying enough context to
/// render a precise message.
#[derive(Clone, Debug, PartialEq, Eq)]
pub enum X402Error {
    /// Malformed base64, invalid UTF-8, or malformed/mismatched JSON during decode.
    InvalidHeader(String),
    /// Wrong-length signature, invalid recovery id, cryptographic recovery
    /// failure, or an address mismatch found during verification.
    InvalidSignature(String),
    /// Malformed address string.
    InvalidAddress(String),
    /// Serialization failure while encoding a record (defensive; unreachable
    /// for well-formed records).
    EncodingError(String),
    /// The payload's expiry has passed.
    PaymentExpired,
    /// The amount check failed; both exact 256-bit values are carried.
    InsufficientAmount { required: Uint256, provided: Uint256 },
    /// The payload's chain id does not match the requirements' network.
    UnsupportedNetwork(String),
}

} // verus!
