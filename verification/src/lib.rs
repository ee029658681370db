//! Short-lived proxy authorization tokens.
//!
//! A token binds an expiry time (seconds since the Unix epoch) to a subject
//! (an agent name) and carries a signature over the canonical binary encoding
//! of that pair. The codec module defines the canonical encoding, the auth
//! module signs and verifies tokens with one of two backends (Ed25519 over the
//! raw payload, or ECDSA/secp256k1 over a SHA3-256 prehash), and the tasks
//! module refreshes the tokens of a roster of agents, signing once per
//! distinct agent name.
use vstd::prelude::*;

pub mod auth;
pub mod codec;
pub mod crypto;
pub mod tasks;

verus! {

/// Clock drift (in seconds) tolerated between the token issuer and a
/// verifier: a token is accepted until `expire_at + PERMITTED_DRIFT`.
pub const PERMITTED_DRIFT: u64 = 10;

/// Safety margin (in seconds) added beyond the refresh interval when a
/// refresh pass issues tokens, so a token outlives scheduling jitter of the
/// next pass.
pub const REFRESH_MARGIN: u64 = 120;

/// A decoded token: expiry in seconds since the Unix epoch, the agent name it
/// authorizes, and a signature over the canonical encoding of the first two
/// fields.
#[derive(Debug, PartialEq, Eq, Clone)]
pub struct Token(pub u64, pub String, pub Vec<u8>);

impl View for Token {
    type V = (u64, Seq<char>, Seq<u8>);

    open spec fn view(&self) -> (u64, Seq<char>, Seq<u8>) {
        (self.0, self.1@, self.2@)
    }
}

/// The token bytes are not a well-formed canonical token record.
#[derive(Debug, PartialEq, Eq, Clone, Copy)]
pub struct DecodeError;

/// Why verification rejected a token.
#[derive(Debug, PartialEq, Eq, Clone, Copy)]
pub enum VerifyError {
    /// The bytes do not decode to a token record.
    Malformed,
    /// The token's validity window, drift tolerance included, has passed.
    Expired,
    /// No configured verification key validates the signature.
    BadSignature,
}

/// A signing backend failed to produce a signature.
#[derive(Debug, PartialEq, Eq, Clone, Copy)]
pub struct SigningError;

} // verus!
