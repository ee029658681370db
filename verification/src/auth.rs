//! Signing and verifying proxy tokens.
//!
//! Two backends produce the same token shape: Ed25519 signs the canonical
//! payload bytes directly; ECDSA/secp256k1 signs a SHA3-256 prehash of them,
//! so only a fixed-size digest ever crosses to the key holder. A verifier
//! decodes the record, rejects stale tokens first (tolerating
//! `PERMITTED_DRIFT` seconds of clock skew), rebuilds the canonical payload,
//! and accepts the token if any key in its rotation set validates the
//! signature.
use vstd::prelude::*;
use vstd::utf8::encode_utf8;

use crate::codec::decode_token;
use crate::codec::encode_payload;
use crate::codec::encode_token;
use crate::codec::lemma_decode_token_bytes;
use crate::codec::spec_decode_token;
use crate::codec::spec_payload_bytes;
use crate::codec::spec_token_bytes;
use crate::crypto::ecdsa_accepts;
use crate::crypto::ecdsa_accepts_raw;
use crate::crypto::ecdsa_pubkey_of;
use crate::crypto::ecdsa_pubkey_raw;
use crate::crypto::ecdsa_scalar_ok;
use crate::crypto::ecdsa_sig_of;
use crate::crypto::ecdsa_sign_ok;
use crate::crypto::ecdsa_sign_raw;
use crate::crypto::ed25519_accepts;
use crate::crypto::ed25519_accepts_raw;
use crate::crypto::ed25519_pubkey_of;
use crate::crypto::ed25519_pubkey_raw;
use crate::crypto::ed25519_sig_of;
use crate::crypto::ed25519_sign_raw;
use crate::crypto::sha3_256;
use crate::crypto::sha3_256_of;
use crate::crypto::unix_now_seconds;
use crate::PERMITTED_DRIFT;
use crate::SigningError;
use crate::Token;
use crate::VerifyError;

verus! {

/// An Ed25519 secret key: 32 seed bytes.
pub struct Ed25519SigningKey {
    pub bytes: Vec<u8>,
}

/// An Ed25519 public key: 32 bytes.
pub struct Ed25519VerifyingKey {
    pub bytes: Vec<u8>,
}

/// A secp256k1 secret scalar: 32 bytes.
pub struct EcdsaSigningKey {
    pub bytes: Vec<u8>,
}

/// A secp256k1 public key in SEC1 encoding.
pub struct EcdsaVerifyingKey {
    pub bytes: Vec<u8>,
}

impl Ed25519SigningKey {
    /// A well-formed key holds exactly 32 seed bytes.
    pub open spec fn wf(&self) -> bool {
        self.bytes@.len() == 32
    }

    /// The public key that verifies this key's signatures.
    pub fn verifying_key(&self) -> (r: Ed25519VerifyingKey)
        requires
            self.wf(),
        ensures
            r.bytes@ == ed25519_pubkey_of(self.bytes@),
    {
        Ed25519VerifyingKey { bytes: ed25519_pubkey_raw(self.bytes.as_slice()) }
    }
}

impl EcdsaSigningKey {
    /// A well-formed key holds exactly 32 scalar bytes.
    pub open spec fn wf(&self) -> bool {
        self.bytes@.len() == 32
    }

    /// The SEC1 public key that verifies this key's signatures, or `None`
    /// when the bytes are not a valid secret scalar.
    pub fn verifying_key(&self) -> (r: Option<EcdsaVerifyingKey>)
        ensures
            r is Some <==> ecdsa_scalar_ok(self.bytes@),
            r is Some ==> r->0.bytes@ == ecdsa_pubkey_of(self.bytes@),
    {
        match ecdsa_pubkey_raw(self.bytes.as_slice()) {
            Some(b) => Some(EcdsaVerifyingKey { bytes: b }),
            None => None,
        }
    }
}

/// Whether a token that expires at `expire_at` is stale at `now_sec`, the
/// drift tolerance included: stale exactly when `expire_at + PERMITTED_DRIFT`
/// lies before `now_sec`.
pub open spec fn spec_expired(expire_at: u64, now_sec: u64) -> bool {
    expire_at + PERMITTED_DRIFT < now_sec
}

/// The byte views of a rotation set of Ed25519 keys.
pub open spec fn spec_ed25519_keys(keys: Seq<Ed25519VerifyingKey>) -> Seq<Seq<u8>> {
    keys.map_values(|k: Ed25519VerifyingKey| k.bytes@)
}

/// The byte views of a rotation set of ECDSA keys.
pub open spec fn spec_ecdsa_keys(keys: Seq<EcdsaVerifyingKey>) -> Seq<Seq<u8>> {
    keys.map_values(|k: EcdsaVerifyingKey| k.bytes@)
}

/// Whether some key of the rotation set accepts `sig` over the canonical
/// payload of `(expire_at, agent)`, Ed25519 scheme.
pub open spec fn spec_ed25519_sig_ok(
    keys: Seq<Seq<u8>>,
    expire_at: u64,
    agent: Seq<char>,
    sig: Seq<u8>,
) -> bool {
    exists|i: int|
        0 <= i < keys.len() && ed25519_accepts(keys[i], spec_payload_bytes(expire_at, agent), sig)
}

/// Whether some key of the rotation set accepts `sig` over the SHA3-256
/// digest of the canonical payload of `(expire_at, agent)`, ECDSA scheme.
pub open spec fn spec_ecdsa_sig_ok(
    keys: Seq<Seq<u8>>,
    expire_at: u64,
    agent: Seq<char>,
    sig: Seq<u8>,
) -> bool {
    exists|i: int|
        0 <= i < keys.len() && ecdsa_accepts(
            keys[i],
            sha3_256_of(spec_payload_bytes(expire_at, agent)),
            sig,
        )
}

/// What Ed25519 verification returns on `data` at time `now_sec`: decode,
/// then the expiry check, then the signature check against the rotation set.
pub open spec fn spec_verify_ed25519(keys: Seq<Seq<u8>>, data: Seq<u8>, now_sec: u64) -> Result<
    (u64, Seq<char>, Seq<u8>),
    VerifyError,
> {
    match spec_decode_token(data) {
        None => Err(VerifyError::Malformed),
        Some((expire_at, agent, sig)) => {
            if spec_expired(expire_at, now_sec) {
                Err(VerifyError::Expired)
            } else if spec_ed25519_sig_ok(keys, expire_at, agent, sig) {
                Ok((expire_at, agent, sig))
            } else {
                Err(VerifyError::BadSignature)
            }
        },
    }
}

/// What ECDSA verification returns on `data` at time `now_sec`.
pub open spec fn spec_verify_ecdsa(keys: Seq<Seq<u8>>, data: Seq<u8>, now_sec: u64) -> Result<
    (u64, Seq<char>, Seq<u8>),
    VerifyError,
> {
    match spec_decode_token(data) {
        None => Err(VerifyError::Malformed),
        Some((expire_at, agent, sig)) => {
            if spec_expired(expire_at, now_sec) {
                Err(VerifyError::Expired)
            } else if spec_ecdsa_sig_ok(keys, expire_at, agent, sig) {
                Ok((expire_at, agent, sig))
            } else {
                Err(VerifyError::BadSignature)
            }
        },
    }
}

/// A signed, unexpired token verifies against any rotation set that contains
/// the signer's public key: the Ed25519 round-trip law.
pub proof fn lemma_ed25519_round_trip(
    keys: Seq<Seq<u8>>,
    pk: Seq<u8>,
    expire_at: u64,
    agent: Seq<char>,
    sig: Seq<u8>,
    now_sec: u64,
)
    requires
        keys.contains(pk),
        ed25519_accepts(pk, spec_payload_bytes(expire_at, agent), sig),
        !spec_expired(expire_at, now_sec),
        encode_utf8(agent).len() <= u64::MAX,
        sig.len() <= u64::MAX,
    ensures
        spec_verify_ed25519(keys, spec_token_bytes(expire_at, agent, sig), now_sec) == Ok::<
            _,
            VerifyError,
        >((expire_at, agent, sig)),
{
    lemma_decode_token_bytes(expire_at, agent, sig);
    let i = choose|i: int| 0 <= i < keys.len() && keys[i] == pk;
    assert(spec_ed25519_sig_ok(keys, expire_at, agent, sig));
}

/// A signed, unexpired token verifies against any rotation set that contains
/// the signer's public key: the ECDSA round-trip law.
pub proof fn lemma_ecdsa_round_trip(
    keys: Seq<Seq<u8>>,
    pk: Seq<u8>,
    expire_at: u64,
    agent: Seq<char>,
    sig: Seq<u8>,
    now_sec: u64,
)
    requires
        keys.contains(pk),
        ecdsa_accepts(pk, sha3_256_of(spec_payload_bytes(expire_at, agent)), sig),
        !spec_expired(expire_at, now_sec),
        encode_utf8(agent).len() <= u64::MAX,
        sig.len() <= u64::MAX,
    ensures
        spec_verify_ecdsa(keys, spec_token_bytes(expire_at, agent, sig), now_sec) == Ok::<
            _,
            VerifyError,
        >((expire_at, agent, sig)),
{
    lemma_decode_token_bytes(expire_at, agent, sig);
    let i = choose|i: int| 0 <= i < keys.len() && keys[i] == pk;
    assert(spec_ecdsa_sig_ok(keys, expire_at, agent, sig));
}

/// A token expiring `PERMITTED_DRIFT + 1` seconds ago is rejected as expired;
/// one expiring exactly `PERMITTED_DRIFT` seconds ago is not: the drift
/// tolerance is inclusive at the boundary.
pub proof fn lemma_expiry_boundary(
    keys: Seq<Seq<u8>>,
    agent: Seq<char>,
    sig: Seq<u8>,
    now_sec: u64,
)
    requires
        PERMITTED_DRIFT < now_sec,
        encode_utf8(agent).len() <= u64::MAX,
        sig.len() <= u64::MAX,
    ensures
        spec_verify_ed25519(
            keys,
            spec_token_bytes((now_sec - PERMITTED_DRIFT - 1) as u64, agent, sig),
            now_sec,
        ) == Err::<(u64, Seq<char>, Seq<u8>), _>(VerifyError::Expired),
        spec_verify_ed25519(
            keys,
            spec_token_bytes((now_sec - PERMITTED_DRIFT) as u64, agent, sig),
            now_sec,
        ) != Err::<(u64, Seq<char>, Seq<u8>), _>(VerifyError::Expired),
{
    lemma_decode_token_bytes((now_sec - PERMITTED_DRIFT - 1) as u64, agent, sig);
    lemma_decode_token_bytes((now_sec - PERMITTED_DRIFT) as u64, agent, sig);
}

/// Growing the rotation set never invalidates a token that some smaller set
/// accepts: adding a new key is safe during rotation.
pub proof fn lemma_key_rotation_monotonic(
    keys1: Seq<Seq<u8>>,
    keys2: Seq<Seq<u8>>,
    data: Seq<u8>,
    now_sec: u64,
)
    requires
        forall|i: int| 0 <= i < keys1.len() ==> keys2.contains(keys1[i]),
    ensures
        spec_verify_ed25519(keys1, data, now_sec) is Ok ==> spec_verify_ed25519(
            keys2,
            data,
            now_sec,
        ) == spec_verify_ed25519(keys1, data, now_sec),
        spec_verify_ecdsa(keys1, data, now_sec) is Ok ==> spec_verify_ecdsa(keys2, data, now_sec)
            == spec_verify_ecdsa(keys1, data, now_sec),
{
    if spec_verify_ed25519(keys1, data, now_sec) is Ok {
        let (expire_at, agent, sig) = spec_decode_token(data)->0;
        let i = choose|i: int|
            0 <= i < keys1.len() && ed25519_accepts(
                keys1[i],
                spec_payload_bytes(expire_at, agent),
                sig,
            );
        let j = choose|j: int| 0 <= j < keys2.len() && keys2[j] == keys1[i];
        assert(spec_ed25519_sig_ok(keys2, expire_at, agent, sig));
    }
    if spec_verify_ecdsa(keys1, data, now_sec) is Ok {
        let (expire_at, agent, sig) = spec_decode_token(data)->0;
        let i = choose|i: int|
            0 <= i < keys1.len() && ecdsa_accepts(
                keys1[i],
                sha3_256_of(spec_payload_bytes(expire_at, agent)),
                sig,
            );
        let j = choose|j: int| 0 <= j < keys2.len() && keys2[j] == keys1[i];
        assert(spec_ecdsa_sig_ok(keys2, expire_at, agent, sig));
    }
}

/// When a full rotation set accepts a token but a subset rejects it, the
/// subset's failure is a signature failure: removing a key only ever turns
/// acceptance into `BadSignature`, never into another error.
pub proof fn lemma_key_removal(
    keys1: Seq<Seq<u8>>,
    keys2: Seq<Seq<u8>>,
    data: Seq<u8>,
    now_sec: u64,
)
    requires
        spec_verify_ed25519(keys1, data, now_sec) is Ok,
        !(spec_verify_ed25519(keys2, data, now_sec) is Ok),
    ensures
        spec_verify_ed25519(keys2, data, now_sec) == Err::<(u64, Seq<char>, Seq<u8>), _>(
            VerifyError::BadSignature,
        ),
{
}

/// Verification accepts only the exact canonical encoding of the token it
/// returns: changed bytes either fail outright or decode to a different
/// token, whose signature is then checked on its own; nothing is accepted
/// silently.
pub proof fn lemma_verify_exact_encoding(keys: Seq<Seq<u8>>, data: Seq<u8>, now_sec: u64)
    ensures
        spec_verify_ed25519(keys, data, now_sec) matches Ok(t) ==> data == spec_token_bytes(
            t.0,
            t.1,
            t.2,
        ),
        spec_verify_ecdsa(keys, data, now_sec) matches Ok(t) ==> data == spec_token_bytes(
            t.0,
            t.1,
            t.2,
        ),
{
    if spec_verify_ed25519(keys, data, now_sec) is Ok || spec_verify_ecdsa(keys, data, now_sec)
        is Ok {
        crate::codec::lemma_decode_token_sound(data);
    }
}

/// Sign `(expire_at, agent)` with a locally held Ed25519 key and return the
/// encoded token. The token verifies, until it expires, against any rotation
/// set containing this key's public key.
pub fn ed25519_sign(key: &Ed25519SigningKey, expire_at: u64, agent: String) -> (r: Vec<u8>)
    requires
        key.wf(),
    ensures
        r@ == spec_token_bytes(
            expire_at,
            agent@,
            ed25519_sig_of(key.bytes@, spec_payload_bytes(expire_at, agent@)),
        ),
        forall|keys: Seq<Seq<u8>>, now_sec: u64|
            keys.contains(ed25519_pubkey_of(key.bytes@)) && !spec_expired(expire_at, now_sec)
                ==> spec_verify_ed25519(keys, r@, now_sec) == Ok::<_, VerifyError>(
                (
                    expire_at,
                    agent@,
                    ed25519_sig_of(key.bytes@, spec_payload_bytes(expire_at, agent@)),
                ),
            ),
{
    let payload = encode_payload(expire_at, &agent);
    let payload_len = payload.len();
    let sig = ed25519_sign_raw(key.bytes.as_slice(), payload.as_slice());
    let token = encode_token(expire_at, &agent, &sig);
    proof {
        assert(encode_utf8(agent@).len() <= payload_len);
        assert forall|keys: Seq<Seq<u8>>, now_sec: u64|
            keys.contains(ed25519_pubkey_of(key.bytes@)) && !spec_expired(
                expire_at,
                now_sec,
            ) implies spec_verify_ed25519(keys, token@, now_sec) == Ok::<_, VerifyError>(
            (expire_at, agent@, ed25519_sig_of(key.bytes@, spec_payload_bytes(expire_at, agent@))),
        ) by {
            lemma_ed25519_round_trip(
                keys,
                ed25519_pubkey_of(key.bytes@),
                expire_at,
                agent@,
                sig@,
                now_sec,
            );
        }
    }
    token
}

/// Sign `(expire_at, agent)` with a locally held secp256k1 key: the signature
/// covers the SHA3-256 digest of the canonical payload. Succeeds exactly when
/// the outside signer accepts `(key, digest)` - a deterministic verdict - and
/// in particular fails when the key bytes are not a valid scalar.
pub fn ecdsa_sign(key: &EcdsaSigningKey, expire_at: u64, agent: String) -> (r: Result<
    Vec<u8>,
    SigningError,
>)
    requires
        key.wf(),
    ensures
        r is Ok <==> ecdsa_sign_ok(
            key.bytes@,
            sha3_256_of(spec_payload_bytes(expire_at, agent@)),
        ),
        r is Ok ==> r->Ok_0@ == spec_token_bytes(
            expire_at,
            agent@,
            ecdsa_sig_of(key.bytes@, sha3_256_of(spec_payload_bytes(expire_at, agent@))),
        ),
        !ecdsa_scalar_ok(key.bytes@) ==> r is Err,
        r is Ok ==> forall|keys: Seq<Seq<u8>>, now_sec: u64|
            keys.contains(ecdsa_pubkey_of(key.bytes@)) && !spec_expired(expire_at, now_sec)
                ==> spec_verify_ecdsa(keys, r->Ok_0@, now_sec) == Ok::<_, VerifyError>(
                (
                    expire_at,
                    agent@,
                    ecdsa_sig_of(key.bytes@, sha3_256_of(spec_payload_bytes(expire_at, agent@))),
                ),
            ),
{
    let payload = encode_payload(expire_at, &agent);
    let payload_len = payload.len();
    let digest = sha3_256(payload.as_slice());
    let sig = match ecdsa_sign_raw(key.bytes.as_slice(), digest.as_slice()) {
        Ok(s) => s,
        Err(e) => {
            return Err(e);
        },
    };
    let token = encode_token(expire_at, &agent, &sig);
    proof {
        assert(encode_utf8(agent@).len() <= payload_len);
        assert forall|keys: Seq<Seq<u8>>, now_sec: u64|
            keys.contains(ecdsa_pubkey_of(key.bytes@)) && !spec_expired(
                expire_at,
                now_sec,
            ) implies spec_verify_ecdsa(keys, token@, now_sec) == Ok::<_, VerifyError>(
            (
                expire_at,
                agent@,
                ecdsa_sig_of(key.bytes@, sha3_256_of(spec_payload_bytes(expire_at, agent@))),
            ),
        ) by {
            lemma_ecdsa_round_trip(
                keys,
                ecdsa_pubkey_of(key.bytes@),
                expire_at,
                agent@,
                sig@,
                now_sec,
            );
        }
    }
    Ok(token)
}

/// Verify an Ed25519 token against a rotation set, with the clock supplied by
/// the caller.
pub fn ed25519_verify_at(keys: &Vec<Ed25519VerifyingKey>, data: &[u8], now_sec: u64) -> (r: Result<
    Token,
    VerifyError,
>)
    ensures
        match spec_verify_ed25519(spec_ed25519_keys(keys@), data@, now_sec) {
            Ok(t) => r is Ok && r->Ok_0@ == t,
            Err(e) => r is Err && r->Err_0 == e,
        },
{
    let token = match decode_token(data) {
        Ok(t) => t,
        Err(_) => {
            return Err(VerifyError::Malformed);
        },
    };
    if now_sec > PERMITTED_DRIFT && token.0 < now_sec - PERMITTED_DRIFT {
        return Err(VerifyError::Expired);
    }
    let payload = encode_payload(token.0, &token.1);
    let mut i: usize = 0;
    while i < keys.len()
        invariant
            i <= keys@.len(),
            spec_decode_token(data@) == Some(token@),
            !spec_expired(token.0, now_sec),
            payload@ == spec_payload_bytes(token@.0, token@.1),
            forall|j: int|
                0 <= j < i ==> !ed25519_accepts(spec_ed25519_keys(keys@)[j], payload@, token@.2),
        decreases keys@.len() - i,
    {
        if ed25519_accepts_raw(keys[i].bytes.as_slice(), payload.as_slice(), token.2.as_slice()) {
            proof {
                assert(spec_ed25519_keys(keys@)[i as int] == keys@[i as int].bytes@);
                assert(ed25519_accepts(
                    spec_ed25519_keys(keys@)[i as int],
                    spec_payload_bytes(token@.0, token@.1),
                    token@.2,
                ));
            }
            assert(spec_ed25519_sig_ok(spec_ed25519_keys(keys@), token@.0, token@.1, token@.2));
            return Ok(token);
        }
        i += 1;
    }
    assert(!spec_ed25519_sig_ok(spec_ed25519_keys(keys@), token@.0, token@.1, token@.2));
    Err(VerifyError::BadSignature)
}

/// Verify an Ed25519 token against a rotation set at the current time.
pub fn ed25519_verify(keys: &Vec<Ed25519VerifyingKey>, data: &[u8]) -> (r: Result<
    Token,
    VerifyError,
>)
    ensures
        exists|now_sec: u64|
            match #[trigger] spec_verify_ed25519(spec_ed25519_keys(keys@), data@, now_sec) {
                Ok(t) => r is Ok && r->Ok_0@ == t,
                Err(e) => r is Err && r->Err_0 == e,
            },
        r is Ok ==> spec_decode_token(data@) == Some(r->Ok_0@),
        r is Ok ==> spec_ed25519_sig_ok(
            spec_ed25519_keys(keys@),
            r->Ok_0@.0,
            r->Ok_0@.1,
            r->Ok_0@.2,
        ),
        (r is Err && r->Err_0 == VerifyError::Malformed) <==> spec_decode_token(data@) is None,
{
    let now_sec = unix_now_seconds();
    let r = ed25519_verify_at(keys, data, now_sec);
    proof {
        let witness = now_sec;
        assert(match spec_verify_ed25519(spec_ed25519_keys(keys@), data@, witness) {
            Ok(t) => r is Ok && r->Ok_0@ == t,
            Err(e) => r is Err && r->Err_0 == e,
        });
    }
    r
}

/// Verify an ECDSA/secp256k1 token against a rotation set, with the clock
/// supplied by the caller.
pub fn ecdsa_verify_at(keys: &Vec<EcdsaVerifyingKey>, data: &[u8], now_sec: u64) -> (r: Result<
    Token,
    VerifyError,
>)
    ensures
        match spec_verify_ecdsa(spec_ecdsa_keys(keys@), data@, now_sec) {
            Ok(t) => r is Ok && r->Ok_0@ == t,
            Err(e) => r is Err && r->Err_0 == e,
        },
{
    let token = match decode_token(data) {
        Ok(t) => t,
        Err(_) => {
            return Err(VerifyError::Malformed);
        },
    };
    if now_sec > PERMITTED_DRIFT && token.0 < now_sec - PERMITTED_DRIFT {
        return Err(VerifyError::Expired);
    }
    let payload = encode_payload(token.0, &token.1);
    let digest = sha3_256(payload.as_slice());
    let mut i: usize = 0;
    while i < keys.len()
        invariant
            i <= keys@.len(),
            spec_decode_token(data@) == Some(token@),
            !spec_expired(token.0, now_sec),
            payload@ == spec_payload_bytes(token@.0, token@.1),
            digest@ == sha3_256_of(spec_payload_bytes(token@.0, token@.1)),
            forall|j: int|
                0 <= j < i ==> !ecdsa_accepts(spec_ecdsa_keys(keys@)[j], digest@, token@.2),
        decreases keys@.len() - i,
    {
        if ecdsa_accepts_raw(keys[i].bytes.as_slice(), digest.as_slice(), token.2.as_slice()) {
            proof {
                assert(spec_ecdsa_keys(keys@)[i as int] == keys@[i as int].bytes@);
                assert(ecdsa_accepts(
                    spec_ecdsa_keys(keys@)[i as int],
                    sha3_256_of(spec_payload_bytes(token@.0, token@.1)),
                    token@.2,
                ));
            }
            assert(spec_ecdsa_sig_ok(spec_ecdsa_keys(keys@), token@.0, token@.1, token@.2));
            return Ok(token);
        }
        i += 1;
    }
    assert(!spec_ecdsa_sig_ok(spec_ecdsa_keys(keys@), token@.0, token@.1, token@.2));
    Err(VerifyError::BadSignature)
}

/// Verify an ECDSA/secp256k1 token against a rotation set at the current
/// time.
pub fn ecdsa_verify(keys: &Vec<EcdsaVerifyingKey>, data: &[u8]) -> (r: Result<Token, VerifyError>)
    ensures
        exists|now_sec: u64|
            match #[trigger] spec_verify_ecdsa(spec_ecdsa_keys(keys@), data@, now_sec) {
                Ok(t) => r is Ok && r->Ok_0@ == t,
                Err(e) => r is Err && r->Err_0 == e,
            },
        r is Ok ==> spec_decode_token(data@) == Some(r->Ok_0@),
        r is Ok ==> spec_ecdsa_sig_ok(spec_ecdsa_keys(keys@), r->Ok_0@.0, r->Ok_0@.1, r->Ok_0@.2),
        (r is Err && r->Err_0 == VerifyError::Malformed) <==> spec_decode_token(data@) is None,
{
    let now_sec = unix_now_seconds();
    let r = ecdsa_verify_at(keys, data, now_sec);
    proof {
        let witness = now_sec;
        assert(match spec_verify_ecdsa(spec_ecdsa_keys(keys@), data@, witness) {
            Ok(t) => r is Ok && r->Ok_0@ == t,
            Err(e) => r is Err && r->Err_0 == e,
        });
    }
    r
}

} // verus!
