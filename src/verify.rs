//! Offline receipt verification: leaf recomputation, inclusion-proof
//! reconstruction and the signature check.
use vstd::prelude::*;
use vstd::utf8::encode_utf8;
use crate::crypto::{
    blake3_digest, blake3_hash, check_signature, ed25519_key_valid, ed25519_verdict,
    is_valid_public_key,
};
use crate::encoding::{base64_bytes, from_base64, from_hex, hex_parse};
use crate::json::{canonical, canonicalise, push_all, JsonValue};
use crate::receipt::{payload, signed_payload, texts, Receipt};

verus! {

/// Why a receipt could not be checked at all.
#[derive(Debug, PartialEq, Eq, Structural)]
pub enum VerifyError {
    InvalidHex,
    InvalidBase64,
    PublicKeyLength,
    SignatureLength,
    InvalidPublicKey,
}

/// The root that an inclusion proof leads to from `current`: each sibling is
/// appended on the right and the pair hashed.
pub open spec fn reconstruct(current: Seq<u8>, siblings: Seq<Seq<u8>>) -> Seq<u8>
    decreases siblings.len(),
{
    if siblings.len() == 0 {
        current
    } else {
        reconstruct(blake3_digest(current + siblings[0]), siblings.drop_first())
    }
}

/// The byte strings of a list of buffers.
pub open spec fn buffers(ps: Seq<Vec<u8>>) -> Seq<Seq<u8>> {
    ps.map_values(|p: Vec<u8>| p@)
}

/// The leaf that a context document hashes to.
pub open spec fn leaf_of(context: JsonValue) -> Seq<u8> {
    blake3_digest(canonical(context))
}

/// The bytes of hexadecimal texts, if every one of them is one.
pub open spec fn hex_list(ps: Seq<Seq<char>>) -> Option<Seq<Seq<u8>>> {
    if forall|i: int| 0 <= i < ps.len() ==> (#[trigger] hex_parse(encode_utf8(ps[i]))) is Some {
        Some(ps.map_values(|p: Seq<char>| hex_parse(encode_utf8(p))->Some_0))
    } else {
        None
    }
}

/// What checking a receipt gives: an error when a field cannot be decoded;
/// else `false` when the leaf, the proof or the signature does not hold, and
/// `true` when all three do.
pub open spec fn outcome(r: Receipt) -> Result<bool, VerifyError> {
    let leaf = hex_parse(encode_utf8(r.leaf_hash@));
    let root = hex_parse(encode_utf8(r.root_hash@));
    let siblings = hex_list(texts(r.inclusion_proof@));
    let sig = base64_bytes(r.signature@);
    let public = base64_bytes(r.public_key@);
    if leaf is None || root is None || siblings is None {
        Err(VerifyError::InvalidHex)
    } else if sig is None || public is None {
        Err(VerifyError::InvalidBase64)
    } else if public->Some_0.len() != 32 {
        Err(VerifyError::PublicKeyLength)
    } else if sig->Some_0.len() != 64 {
        Err(VerifyError::SignatureLength)
    } else if !ed25519_key_valid(public->Some_0) {
        Err(VerifyError::InvalidPublicKey)
    } else if leaf_of(r.metadata) != leaf->Some_0 {
        Ok(false)
    } else if reconstruct(leaf->Some_0, siblings->Some_0) != root->Some_0 {
        Ok(false)
    } else {
        Ok(
            ed25519_verdict(
                public->Some_0,
                payload(leaf->Some_0, r.leaf_index as int, root->Some_0, r.timestamp@),
                sig->Some_0,
            ) == Some(true),
        )
    }
}

/// A receipt that verifies no longer does once its root is replaced by
/// another decodable root: the proof does not lead to the new root.
pub proof fn lemma_root_binding(valid: Receipt, altered: Receipt)
    requires
        outcome(valid) == Ok::<bool, VerifyError>(true),
        altered.leaf_hash@ == valid.leaf_hash@,
        altered.leaf_index == valid.leaf_index,
        texts(altered.inclusion_proof@) == texts(valid.inclusion_proof@),
        altered.timestamp@ == valid.timestamp@,
        altered.metadata == valid.metadata,
        altered.signature@ == valid.signature@,
        altered.public_key@ == valid.public_key@,
        hex_parse(encode_utf8(altered.root_hash@)) is Some,
        hex_parse(encode_utf8(altered.root_hash@)) != hex_parse(encode_utf8(valid.root_hash@)),
    ensures
        outcome(altered) == Ok::<bool, VerifyError>(false),
{
}

/// Whether two byte strings are equal.
pub fn same_bytes(a: &[u8], b: &[u8]) -> (r: bool)
    ensures
        r == (a@ == b@),
{
    if a.len() != b.len() {
        return false;
    }
    let mut i: usize = 0;
    while i < a.len()
        invariant
            a@.len() == b@.len(),
            i <= a@.len(),
            forall|j: int| 0 <= j < i ==> a@[j] == b@[j],
        decreases a@.len() - i,
    {
        if a[i] != b[i] {
            return false;
        }
        i = i + 1;
    }
    assert(a@ =~= b@);
    true
}

/// The leaf that a context document hashes to: BLAKE3 of its canonical bytes.
pub fn recompute_leaf_hash(context: &JsonValue) -> (r: Vec<u8>)
    ensures
        r@ == leaf_of(*context),
        r@.len() == 32,
{
    let bytes = canonicalise(context);
    blake3_hash(bytes.as_slice())
}

/// Whether the inclusion proof leads from the leaf to the root.
pub fn verify_inclusion_proof(leaf_hash: &[u8], root_hash: &[u8], siblings: &[Vec<u8>]) -> (r: bool)
    ensures
        r == (reconstruct(leaf_hash@, buffers(siblings@)) == root_hash@),
{
    let mut current: Vec<u8> = Vec::new();
    push_all(&mut current, leaf_hash);
    let mut i: usize = 0;
    assert(buffers(siblings@).skip(0) =~= buffers(siblings@));
    while i < siblings.len()
        invariant
            i <= siblings@.len(),
            reconstruct(leaf_hash@, buffers(siblings@)) == reconstruct(
                current@,
                buffers(siblings@).skip(i as int),
            ),
        decreases siblings@.len() - i,
    {
        let mut joined: Vec<u8> = Vec::new();
        push_all(&mut joined, current.as_slice());
        push_all(&mut joined, siblings[i].as_slice());
        current = blake3_hash(joined.as_slice());
        assert(buffers(siblings@).skip(i as int).drop_first() =~= buffers(siblings@).skip(i + 1));
        assert(buffers(siblings@).skip(i as int)[0] == siblings@[i as int]@);
        i = i + 1;
    }
    same_bytes(current.as_slice(), root_hash)
}

/// Decodes every hexadecimal text of a list.
fn decode_hex_list(ps: &Vec<String>) -> (r: Option<Vec<Vec<u8>>>)
    ensures
        match r {
            Some(v) => hex_list(texts(ps@)) == Some(buffers(v@)),
            None => hex_list(texts(ps@)) is None,
        },
{
    let mut out: Vec<Vec<u8>> = Vec::new();
    let mut i: usize = 0;
    while i < ps.len()
        invariant
            i <= ps@.len(),
            out@.len() == i,
            forall|j: int|
                0 <= j < i ==> hex_parse(encode_utf8(#[trigger] texts(ps@)[j])) == Some(out@[j]@),
        decreases ps@.len() - i,
    {
        match from_hex(ps[i].as_str()) {
            Some(b) => out.push(b),
            None => {
                assert(hex_parse(encode_utf8(texts(ps@)[i as int])) is None);
                return None;
            },
        }
        i = i + 1;
    }
    assert(buffers(out@) =~= texts(ps@).map_values(
        |p: Seq<char>| hex_parse(encode_utf8(p))->Some_0,
    ));
    Some(out)
}

/// Checks a receipt: `Err` when a field cannot be decoded (hexadecimal,
/// base64, key or signature length, a key that is not a curve point);
/// `Ok(true)` when the metadata hashes to the leaf, the proof leads from the
/// leaf to the root, and the signature over the bound fields is valid;
/// `Ok(false)` otherwise. Every decoding check comes before the logical ones.
pub fn verify_receipt(receipt: &Receipt) -> (r: Result<bool, VerifyError>)
    ensures
        r == outcome(*receipt),
{
    let leaf = from_hex(receipt.leaf_hash.as_str());
    let root = from_hex(receipt.root_hash.as_str());
    let siblings = decode_hex_list(&receipt.inclusion_proof);
    let (leaf, root, siblings) = match (leaf, root, siblings) {
        (Some(l), Some(r), Some(p)) => (l, r, p),
        _ => {
            return Err(VerifyError::InvalidHex);
        },
    };
    let sig = from_base64(receipt.signature.as_str());
    let public = from_base64(receipt.public_key.as_str());
    let (sig, public) = match (sig, public) {
        (Some(s), Some(p)) => (s, p),
        _ => {
            return Err(VerifyError::InvalidBase64);
        },
    };
    if public.len() != 32 {
        return Err(VerifyError::PublicKeyLength);
    }
    if sig.len() != 64 {
        return Err(VerifyError::SignatureLength);
    }
    if !is_valid_public_key(public.as_slice()) {
        return Err(VerifyError::InvalidPublicKey);
    }
    let recomputed = recompute_leaf_hash(&receipt.metadata);
    if !same_bytes(recomputed.as_slice(), leaf.as_slice()) {
        return Ok(false);
    }
    if !verify_inclusion_proof(leaf.as_slice(), root.as_slice(), siblings.as_slice()) {
        return Ok(false);
    }
    let message = signed_payload(
        leaf.as_slice(),
        receipt.leaf_index,
        root.as_slice(),
        receipt.timestamp.as_str(),
    );
    match check_signature(public.as_slice(), message.as_slice(), sig.as_slice()) {
        Some(b) => Ok(b),
        None => Err(VerifyError::InvalidPublicKey),
    }
}

} // verus!
