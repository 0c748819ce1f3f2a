//! The hash, the signature scheme and the clock that receipts rely on.
use vstd::prelude::*;
use ed25519_dalek::Signer as _;
use ed25519_dalek::Verifier as _;

verus! {

/// The BLAKE3 digest of some bytes.
pub uninterp spec fn blake3_digest(b: Seq<u8>) -> Seq<u8>;

/// Relies on `blake3::hash`: the 32-byte BLAKE3 digest of the input.
#[verifier::external_body]
pub(crate) fn blake3_hash(b: &[u8]) -> (r: Vec<u8>)
    ensures
        r@ == blake3_digest(b@),
        r@.len() == 32,
{
    blake3::hash(b).as_bytes().to_vec()
}

/// The Ed25519 public key of a 32-byte secret key.
pub uninterp spec fn ed25519_public(secret: Seq<u8>) -> Seq<u8>;

/// The Ed25519 signature of a message under a 32-byte secret key.
pub uninterp spec fn ed25519_signature(secret: Seq<u8>, msg: Seq<u8>) -> Seq<u8>;

/// The outcome of checking a signature: `None` when the public key is not a
/// valid curve point, else whether the signature is valid.
pub uninterp spec fn ed25519_verdict(public: Seq<u8>, msg: Seq<u8>, sig: Seq<u8>) -> Option<bool>;

/// Whether 32 bytes decode to an Ed25519 public key (a curve point).
pub uninterp spec fn ed25519_key_valid(public: Seq<u8>) -> bool;

/// Relies on `ed25519_dalek::VerifyingKey::from_bytes`: it fails exactly on
/// bytes that do not decompress to a curve point.
#[verifier::external_body]
pub(crate) fn is_valid_public_key(public: &[u8]) -> (r: bool)
    requires
        public@.len() == 32,
    ensures
        r == ed25519_key_valid(public@),
{
    let key: [u8; 32] = public.try_into().unwrap();
    ed25519_dalek::VerifyingKey::from_bytes(&key).is_ok()
}

/// Relies on `ed25519_dalek::SigningKey::generate` with the operating
/// system's random source: a fresh 32-byte secret key.
#[verifier::external_body]
pub(crate) fn fresh_secret_key() -> (r: Vec<u8>)
    ensures
        r@.len() == 32,
{
    ed25519_dalek::SigningKey::generate(&mut rand::rngs::OsRng).to_bytes().to_vec()
}

/// Relies on `ed25519_dalek::SigningKey::verifying_key`: the 32-byte public
/// key of a secret key, the compressed form of a curve point, which
/// `VerifyingKey::from_bytes` accepts.
#[verifier::external_body]
pub(crate) fn public_key_of(secret: &[u8]) -> (r: Vec<u8>)
    requires
        secret@.len() == 32,
    ensures
        r@ == ed25519_public(secret@),
        r@.len() == 32,
        ed25519_key_valid(r@),
{
    let bytes: [u8; 32] = secret.try_into().unwrap();
    ed25519_dalek::SigningKey::from_bytes(&bytes).verifying_key().to_bytes().to_vec()
}

/// Relies on `ed25519_dalek::SigningKey::sign`: a deterministic 64-byte
/// signature, which the key's own public key accepts.
#[verifier::external_body]
pub(crate) fn sign_message(secret: &[u8], msg: &[u8]) -> (r: Vec<u8>)
    requires
        secret@.len() == 32,
    ensures
        r@ == ed25519_signature(secret@, msg@),
        r@.len() == 64,
        ed25519_verdict(ed25519_public(secret@), msg@, r@) == Some(true),
{
    let bytes: [u8; 32] = secret.try_into().unwrap();
    ed25519_dalek::SigningKey::from_bytes(&bytes).sign(msg).to_bytes().to_vec()
}

/// Relies on `ed25519_dalek::VerifyingKey::from_bytes`, which fails on a key
/// that is not a curve point, and on `VerifyingKey::verify`.
#[verifier::external_body]
pub(crate) fn check_signature(public: &[u8], msg: &[u8], sig: &[u8]) -> (r: Option<bool>)
    requires
        public@.len() == 32,
        sig@.len() == 64,
    ensures
        r == ed25519_verdict(public@, msg@, sig@),
        r is None <==> !ed25519_key_valid(public@),
{
    let key: [u8; 32] = public.try_into().unwrap();
    let sig: [u8; 64] = sig.try_into().unwrap();
    match ed25519_dalek::VerifyingKey::from_bytes(&key) {
        Ok(k) => Some(k.verify(msg, &ed25519_dalek::Signature::from_bytes(&sig)).is_ok()),
        Err(_) => None,
    }
}

/// Relies on `chrono::Utc::now` and `DateTime::to_rfc3339`: the current UTC
/// time as RFC 3339 text. Nothing is known of its value.
#[verifier::external_body]
pub(crate) fn now_rfc3339() -> (r: String) {
    chrono::Utc::now().to_rfc3339()
}

} // verus!
