use auditor::config::SigstoreConfig;
use auditor::json::{canonicalise, JsonValue};
use auditor::receipt::{signed_payload, Receipt, ReceiptError};
use auditor::signer::Signer;
use auditor::verify::{recompute_leaf_hash, verify_inclusion_proof, verify_receipt, VerifyError};
use base64::Engine;
use ed25519_dalek::Verifier;

fn text(s: &str) -> String {
    s.to_string()
}

fn signer() -> Signer {
    Signer::new(&SigstoreConfig { fulcio_url: text(""), rekor_url: text("") })
}

fn metadata() -> JsonValue {
    JsonValue::Object(vec![
        (text("response_text"), JsonValue::Str(text("ok"))),
        (text("timestamp_ns"), JsonValue::Number(12)),
    ])
}

fn join_hash(a: &[u8], b: &[u8]) -> Vec<u8> {
    let mut v = a.to_vec();
    v.extend_from_slice(b);
    blake3::hash(&v).as_bytes().to_vec()
}

/// A receipt for `metadata()` under a one-sibling proof, with its root.
fn valid_receipt(s: &Signer) -> Receipt {
    let leaf = recompute_leaf_hash(&metadata());
    let sibling = vec![9u8; 32];
    let root = join_hash(&leaf, &sibling);
    s.sign_receipt(&leaf, 7, &root, &[sibling], metadata())
}

fn rebuild(r: Receipt, f: impl FnOnce(&mut Receipt)) -> Receipt {
    let mut r = r;
    f(&mut r);
    r
}

#[test]
fn signed_payload_scenario() {
    let p = signed_payload(&[0u8; 32], 7, &[1u8; 32], "2024-01-01T00:00:00Z");
    let expected = format!("{}:7:{}:2024-01-01T00:00:00Z", "00".repeat(32), "01".repeat(32));
    assert_eq!(String::from_utf8(p).unwrap(), expected);
    let negative = signed_payload(&[0xab], -15, &[], "t");
    assert_eq!(String::from_utf8(negative).unwrap(), "ab:-15::t");
}

#[test]
fn inclusion_proof_scenario() {
    let h0 = blake3::hash(b"leaf").as_bytes().to_vec();
    let s1 = blake3::hash(b"sibling").as_bytes().to_vec();
    let root = join_hash(&h0, &s1);
    assert!(verify_inclusion_proof(&h0, &root, &[s1.clone()]));
    assert!(!verify_inclusion_proof(&h0, &root, &[]));
    assert!(verify_inclusion_proof(&h0, &h0, &[]));
    let mut other = root.clone();
    other[0] ^= 1;
    assert!(!verify_inclusion_proof(&h0, &other, &[s1.clone()]));
    let mut bent = s1.clone();
    bent[31] ^= 0x80;
    assert!(!verify_inclusion_proof(&h0, &root, &[bent]));
    let s2 = vec![3u8; 32];
    let two = join_hash(&root, &s2);
    assert!(verify_inclusion_proof(&h0, &two, &[s1, s2]));
}

#[test]
fn receipt_round_trip() {
    let s = signer();
    let r = valid_receipt(&s);
    assert_eq!(r.leaf_index, 7);
    assert_eq!(r.leaf_hash, hex::encode(recompute_leaf_hash(&metadata())));
    assert_eq!(r.public_key, base64::engine::general_purpose::STANDARD.encode(s.public_key()));
    assert_eq!(verify_receipt(&r), Ok(true));
}

#[test]
fn signature_tamper_is_invalid() {
    let s = signer();
    let r = valid_receipt(&s);
    let mut sig = base64::engine::general_purpose::STANDARD.decode(&r.signature).unwrap();
    sig[10] ^= 0x04;
    let r = rebuild(r, |r| r.signature = base64::engine::general_purpose::STANDARD.encode(&sig));
    assert_eq!(verify_receipt(&r), Ok(false));
}

#[test]
fn signature_binds_index_and_timestamp() {
    let s = signer();
    let r = rebuild(valid_receipt(&s), |r| r.leaf_index = 8);
    assert_eq!(verify_receipt(&r), Ok(false));
    let r = rebuild(valid_receipt(&s), |r| r.timestamp.push('x'));
    assert_eq!(verify_receipt(&r), Ok(false));
    let other = signer();
    let r = rebuild(valid_receipt(&s), |r| {
        r.public_key = base64::engine::general_purpose::STANDARD.encode(other.public_key())
    });
    assert_eq!(verify_receipt(&r), Ok(false));
}

#[test]
fn proof_and_root_bind() {
    let s = signer();
    let r = rebuild(valid_receipt(&s), |r| r.root_hash = hex::encode([5u8; 32]));
    assert_eq!(verify_receipt(&r), Ok(false));
    let r = rebuild(valid_receipt(&s), |r| r.inclusion_proof[0] = hex::encode([8u8; 32]));
    assert_eq!(verify_receipt(&r), Ok(false));
    let r = rebuild(valid_receipt(&s), |r| r.inclusion_proof.clear());
    assert_eq!(verify_receipt(&r), Ok(false));
}

#[test]
fn leaf_must_match_metadata() {
    let s = signer();
    let r = rebuild(valid_receipt(&s), |r| r.metadata = JsonValue::Null);
    assert_eq!(verify_receipt(&r), Ok(false));
}

#[test]
fn decoding_errors() {
    let s = signer();
    let r = rebuild(valid_receipt(&s), |r| r.leaf_hash = text("zz"));
    assert_eq!(verify_receipt(&r), Err(VerifyError::InvalidHex));
    let r = rebuild(valid_receipt(&s), |r| r.inclusion_proof.push(text("abc")));
    assert_eq!(verify_receipt(&r), Err(VerifyError::InvalidHex));
    let r = rebuild(valid_receipt(&s), |r| r.signature = text("*not base64*"));
    assert_eq!(verify_receipt(&r), Err(VerifyError::InvalidBase64));
    let r = rebuild(valid_receipt(&s), |r| {
        r.public_key = base64::engine::general_purpose::STANDARD.encode([1u8; 31])
    });
    assert_eq!(verify_receipt(&r), Err(VerifyError::PublicKeyLength));
    let r = rebuild(valid_receipt(&s), |r| {
        r.signature = base64::engine::general_purpose::STANDARD.encode([1u8; 63])
    });
    assert_eq!(verify_receipt(&r), Err(VerifyError::SignatureLength));
}

/// 32 bytes that are not the encoding of a curve point.
fn not_a_point() -> [u8; 32] {
    for first in 2u8..=255 {
        let mut b = [0u8; 32];
        b[0] = first;
        if ed25519_dalek::VerifyingKey::from_bytes(&b).is_err() {
            return b;
        }
    }
    panic!("no invalid key found");
}

#[test]
fn invalid_public_key_is_an_error_first() {
    let s = signer();
    let bad = base64::engine::general_purpose::STANDARD.encode(not_a_point());
    let r = rebuild(valid_receipt(&s), |r| r.public_key = bad.clone());
    assert_eq!(verify_receipt(&r), Err(VerifyError::InvalidPublicKey));
    let r = rebuild(valid_receipt(&s), |r| {
        r.public_key = bad.clone();
        r.metadata = JsonValue::Null;
    });
    assert_eq!(verify_receipt(&r), Err(VerifyError::InvalidPublicKey));
}

#[test]
fn signature_and_key_decode_back() {
    let s = signer();
    let r = valid_receipt(&s);
    let key = base64::engine::general_purpose::STANDARD.decode(&r.public_key).unwrap();
    assert_eq!(key, s.public_key());
    assert_eq!(key.len(), 32);
    let sig = base64::engine::general_purpose::STANDARD.decode(&r.signature).unwrap();
    assert_eq!(sig.len(), 64);
}

#[test]
fn leaf_index_out_of_range_is_not_a_receipt() {
    let s = signer();
    let json = valid_receipt(&s).to_json();
    let widened = match json {
        JsonValue::Object(mut ms) => {
            for m in ms.iter_mut() {
                if m.0 == "leaf_index" {
                    m.1 = JsonValue::Number(i64::MAX as i128 + 1);
                }
            }
            JsonValue::Object(ms)
        }
        other => other,
    };
    assert!(matches!(Receipt::from_json(widened), Err(ReceiptError::MissingField)));
}

#[test]
fn uppercase_hex_is_accepted() {
    let s = signer();
    let r = rebuild(valid_receipt(&s), |r| r.root_hash = r.root_hash.to_uppercase());
    assert_eq!(verify_receipt(&r), Ok(true));
}

#[test]
fn receipt_json_round_trip() {
    let s = signer();
    let r = valid_receipt(&s);
    let leaf_hash = r.leaf_hash.clone();
    let signature = r.signature.clone();
    let json = r.to_json();
    let bytes = canonicalise(&json);
    let text_form = String::from_utf8(bytes).unwrap();
    assert!(text_form.starts_with("{\"inclusion_proof\":[\""));
    assert!(text_form.contains("\"leaf_index\":7,"));
    let back = Receipt::from_json(json).ok().unwrap();
    assert_eq!(back.leaf_hash, leaf_hash);
    assert_eq!(back.signature, signature);
    assert_eq!(verify_receipt(&back), Ok(true));
}

#[test]
fn receipt_json_errors() {
    assert!(matches!(Receipt::from_json(JsonValue::Null), Err(ReceiptError::NotAnObject)));
    let partial = JsonValue::Object(vec![(text("leaf_hash"), JsonValue::Str(text("00")))]);
    assert!(matches!(Receipt::from_json(partial), Err(ReceiptError::MissingField)));
    let s = signer();
    let json = valid_receipt(&s).to_json();
    let wrong_kind = match json {
        JsonValue::Object(mut ms) => {
            for m in ms.iter_mut() {
                if m.0 == "leaf_index" {
                    m.1 = JsonValue::Str(text("7"));
                }
            }
            JsonValue::Object(ms)
        }
        other => other,
    };
    assert!(matches!(Receipt::from_json(wrong_kind), Err(ReceiptError::MissingField)));
}

#[test]
fn issued_receipt_signs_the_bound_fields() {
    let s = signer();
    let leaf = [0u8; 32];
    let root = [1u8; 32];
    let r = s.issue_receipt(&leaf, 7, &root, &[], JsonValue::Null, text("2024-01-01T00:00:00Z"));
    assert_eq!(r.timestamp, "2024-01-01T00:00:00Z");
    assert_eq!(r.root_hash, "01".repeat(32));
    assert!(r.inclusion_proof.is_empty());
    let key_bytes: [u8; 32] = s.public_key().try_into().unwrap();
    let key = ed25519_dalek::VerifyingKey::from_bytes(&key_bytes).unwrap();
    let sig_bytes: [u8; 64] = base64::engine::general_purpose::STANDARD
        .decode(&r.signature)
        .unwrap()
        .try_into()
        .unwrap();
    let sig = ed25519_dalek::Signature::from_bytes(&sig_bytes);
    let message = signed_payload(&leaf, 7, &root, "2024-01-01T00:00:00Z");
    assert!(key.verify(&message, &sig).is_ok());
    assert!(key.verify(b"something else", &sig).is_err());
    assert_eq!(verify_receipt(&r), Ok(false));
}
