//! Trusted boundary to the cryptographic primitives.
//!
//! Every signature and digest is computed by an outside crate (`sha3`,
//! `ed25519-dalek`, `k256`). Each operation is deterministic in its byte
//! inputs, so its result is given a name here (an uninterpreted spec
//! function), and a thin wrapper states what the outside call returns in
//! terms of that name. Everything above this module is verified against
//! those contracts.
use vstd::prelude::*;

use ed25519_dalek::Signer;
use k256::ecdsa::signature::hazmat::PrehashSigner;
use k256::ecdsa::signature::hazmat::PrehashVerifier;
use sha3::Digest;

use crate::SigningError;

verus! {

/// The SHA3-256 digest of `data`: 32 bytes, a function of `data` alone.
pub uninterp spec fn sha3_256_of(data: Seq<u8>) -> Seq<u8>;

/// The Ed25519 signature over `msg` by the secret key `key` (32 seed bytes).
/// Ed25519 signing is deterministic, so this is a function of its arguments.
pub uninterp spec fn ed25519_sig_of(key: Seq<u8>, msg: Seq<u8>) -> Seq<u8>;

/// The Ed25519 public key (32 bytes) of the secret key `key`.
pub uninterp spec fn ed25519_pubkey_of(key: Seq<u8>) -> Seq<u8>;

/// Whether strict Ed25519 verification accepts `sig` as a signature over
/// `msg` by the public key `pk`; false whenever `pk` is not a valid public
/// key or `sig` is not 64 bytes.
pub uninterp spec fn ed25519_accepts(pk: Seq<u8>, msg: Seq<u8>, sig: Seq<u8>) -> bool;

/// The ECDSA/secp256k1 signature (64 bytes, RFC 6979 deterministic nonce)
/// over the digest `digest` by the secret scalar `key` (32 bytes).
pub uninterp spec fn ecdsa_sig_of(key: Seq<u8>, digest: Seq<u8>) -> Seq<u8>;

/// The compressed SEC1 encoding (33 bytes) of the public key of the secret
/// scalar `key`.
pub uninterp spec fn ecdsa_pubkey_of(key: Seq<u8>) -> Seq<u8>;

/// Whether ECDSA/secp256k1 verification accepts `sig` as a signature over the
/// digest `digest` by the SEC1-encoded public key `pk`; false whenever `pk`
/// or `sig` does not parse.
pub uninterp spec fn ecdsa_accepts(pk: Seq<u8>, digest: Seq<u8>, sig: Seq<u8>) -> bool;

/// Whether the outside key parser accepts `key` as a secp256k1 secret
/// scalar: a nonzero scalar below the group order (byte strings shorter than
/// the field size are zero-padded by that parser).
pub uninterp spec fn ecdsa_scalar_ok(key: Seq<u8>) -> bool;

/// Whether the ECDSA/secp256k1 signing call succeeds on `(key, digest)`.
/// Parsing the key and the RFC 6979 signing path are both deterministic, so
/// the verdict, like the signature, is a function of the arguments alone.
pub uninterp spec fn ecdsa_sign_ok(key: Seq<u8>, digest: Seq<u8>) -> bool;

/// Relies on `sha3::Sha3_256`: the digest is 32 bytes and depends on the
/// input bytes alone.
#[verifier::external_body]
pub fn sha3_256(data: &[u8]) -> (r: [u8; 32])
    ensures
        r@ == sha3_256_of(data@),
{
    let mut hasher = sha3::Sha3_256::new();
    hasher.update(data);
    hasher.finalize().into()
}

/// Relies on `ed25519_dalek::SigningKey::sign` (RFC 8032): deterministic in
/// key and message, 64 signature bytes, and `verify_strict` under the
/// corresponding public key accepts the result.
#[verifier::external_body]
pub(crate) fn ed25519_sign_raw(key: &[u8], msg: &[u8]) -> (r: Vec<u8>)
    requires
        key@.len() == 32,
    ensures
        r@ == ed25519_sig_of(key@, msg@),
        r@.len() == 64,
        ed25519_accepts(ed25519_pubkey_of(key@), msg@, r@),
{
    let secret: [u8; 32] = key.try_into().unwrap();
    let sk = ed25519_dalek::SigningKey::from_bytes(&secret);
    sk.sign(msg).to_bytes().to_vec()
}

/// Relies on `ed25519_dalek::SigningKey::verifying_key`: the public key is 32
/// bytes and a function of the secret key alone.
#[verifier::external_body]
pub(crate) fn ed25519_pubkey_raw(key: &[u8]) -> (r: Vec<u8>)
    requires
        key@.len() == 32,
    ensures
        r@ == ed25519_pubkey_of(key@),
        r@.len() == 32,
{
    let secret: [u8; 32] = key.try_into().unwrap();
    let sk = ed25519_dalek::SigningKey::from_bytes(&secret);
    sk.verifying_key().to_bytes().to_vec()
}

/// Relies on `ed25519_dalek::VerifyingKey::from_bytes`,
/// `ed25519::Signature::from_slice` and `VerifyingKey::verify_strict`: all
/// deterministic in their byte inputs; an unparseable key or signature
/// verifies nothing.
#[verifier::external_body]
pub(crate) fn ed25519_accepts_raw(pk: &[u8], msg: &[u8], sig: &[u8]) -> (r: bool)
    ensures
        r == ed25519_accepts(pk@, msg@, sig@),
{
    let pk_bytes: [u8; 32] = match pk.try_into() {
        Ok(a) => a,
        Err(_) => return false,
    };
    let vk = match ed25519_dalek::VerifyingKey::from_bytes(&pk_bytes) {
        Ok(k) => k,
        Err(_) => return false,
    };
    let s = match ed25519_dalek::Signature::from_slice(sig) {
        Ok(s) => s,
        Err(_) => return false,
    };
    vk.verify_strict(msg, &s).is_ok()
}

/// Relies on `k256::ecdsa::SigningKey::from_slice` and
/// `SigningKey::sign_prehash` (RFC 6979, deterministic): whether the call
/// succeeds, like the signature itself, is a function of key and digest
/// alone. On success the signature is 64 bytes and `verify_prehash` under the
/// corresponding public key accepts it; a key that is not a valid scalar is
/// rejected.
#[verifier::external_body]
pub(crate) fn ecdsa_sign_raw(key: &[u8], digest: &[u8]) -> (r: Result<Vec<u8>, SigningError>)
    ensures
        r is Ok <==> ecdsa_sign_ok(key@, digest@),
        r is Ok ==> r->Ok_0@ == ecdsa_sig_of(key@, digest@),
        r is Ok ==> r->Ok_0@.len() == 64,
        r is Ok ==> ecdsa_accepts(ecdsa_pubkey_of(key@), digest@, ecdsa_sig_of(key@, digest@)),
        !ecdsa_scalar_ok(key@) ==> r is Err,
{
    let sk = match k256::ecdsa::SigningKey::from_slice(key) {
        Ok(k) => k,
        Err(_) => return Err(SigningError),
    };
    let sig: k256::ecdsa::Signature = match sk.sign_prehash(digest) {
        Ok(s) => s,
        Err(_) => return Err(SigningError),
    };
    Ok(sig.to_vec())
}

/// Relies on `k256::ecdsa::SigningKey::from_slice` (succeeds exactly on a
/// valid scalar) and `VerifyingKey::to_sec1_bytes`: the compressed public key
/// is a function of the secret key alone.
#[verifier::external_body]
pub(crate) fn ecdsa_pubkey_raw(key: &[u8]) -> (r: Option<Vec<u8>>)
    ensures
        r is Some <==> ecdsa_scalar_ok(key@),
        r is Some ==> r->0@ == ecdsa_pubkey_of(key@),
{
    let sk = match k256::ecdsa::SigningKey::from_slice(key) {
        Ok(k) => k,
        Err(_) => return None,
    };
    let vk = k256::ecdsa::VerifyingKey::from(&sk);
    Some(vk.to_sec1_bytes().into_vec())
}

/// Relies on `k256::ecdsa::VerifyingKey::from_sec1_bytes`,
/// `Signature::from_slice` and `VerifyingKey::verify_prehash`: all
/// deterministic in their byte inputs; an unparseable key or signature
/// verifies nothing.
#[verifier::external_body]
pub(crate) fn ecdsa_accepts_raw(pk: &[u8], digest: &[u8], sig: &[u8]) -> (r: bool)
    ensures
        r == ecdsa_accepts(pk@, digest@, sig@),
{
    let vk = match k256::ecdsa::VerifyingKey::from_sec1_bytes(pk) {
        Ok(k) => k,
        Err(_) => return false,
    };
    let s = match k256::ecdsa::Signature::from_slice(sig) {
        Ok(s) => s,
        Err(_) => return false,
    };
    vk.verify_prehash(digest, &s).is_ok()
}

/// Relies on `std::time::SystemTime::now`: the current time in seconds since
/// the Unix epoch, or 0 if the clock reads before the epoch.
#[verifier::external_body]
pub(crate) fn unix_now_seconds() -> u64 {
    match std::time::SystemTime::now().duration_since(std::time::UNIX_EPOCH) {
        Ok(d) => d.as_secs(),
        Err(_) => 0,
    }
}

} // verus!
