//! The receipt signer: an Ed25519 key pair generated when the signer is made.
use vstd::prelude::*;
use vstd::utf8::encode_utf8;
use crate::config::SigstoreConfig;
use crate::crypto::{
    ed25519_key_valid, ed25519_public, ed25519_verdict, ed25519_signature, fresh_secret_key, now_rfc3339, public_key_of, sign_message,
};
use crate::encoding::{base64_bytes, base64_text, hex_parse, hex_text, lemma_hex_round_trip, to_base64, to_hex};
use crate::json::JsonValue;
use crate::receipt::{payload, signed_payload, texts, Receipt};
use crate::verify::{buffers, hex_list, leaf_of, outcome, reconstruct, VerifyError};

verus! {

/// Holds a process-local signing key; it never leaves the signer.
pub struct Signer {
    signing_key: Vec<u8>,
    public_key: Vec<u8>,
}

/// Each text is the lowercase hexadecimal of the buffer at the same place.
pub open spec fn hex_texts_of(ts: Seq<Seq<char>>, bs: Seq<Seq<u8>>) -> bool {
    &&& ts.len() == bs.len()
    &&& forall|i: int| 0 <= i < ts.len() ==> encode_utf8(#[trigger] ts[i]) == hex_text(bs[i])
}

impl Signer {
    /// The secret key.
    pub closed spec fn secret(&self) -> Seq<u8> {
        self.signing_key@
    }

    /// The key is 32 bytes and the public key belongs to it.
    pub closed spec fn wf(&self) -> bool {
        &&& self.signing_key@.len() == 32
        &&& self.public_key@ == ed25519_public(self.signing_key@)
        &&& self.public_key@.len() == 32
        &&& ed25519_key_valid(self.public_key@)
    }

    /// A signer with a freshly generated key; the configuration is reserved.
    pub fn new(cfg: &SigstoreConfig) -> (r: Signer)
        ensures
            r.wf(),
    {
        let signing_key = fresh_secret_key();
        let public_key = public_key_of(signing_key.as_slice());
        Signer { signing_key, public_key }
    }

    /// The public key, 32 bytes.
    pub fn public_key(&self) -> (r: Vec<u8>)
        requires
            self.wf(),
        ensures
            r@ == ed25519_public(self.secret()),
            r@.len() == 32,
    {
        self.public_key.clone()
    }

    /// The receipt for a logged leaf at the given time. It binds the leaf,
    /// its index, the root and the timestamp under the signer's key, and it
    /// verifies whenever the metadata hashes to the leaf and the proof leads
    /// from the leaf to the root.
    pub fn issue_receipt(
        &self,
        leaf_hash: &[u8],
        leaf_index: i64,
        root_hash: &[u8],
        inclusion_proof: &[Vec<u8>],
        metadata: JsonValue,
        timestamp: String,
    ) -> (r: Receipt)
        requires
            self.wf(),
        ensures
            encode_utf8(r.leaf_hash@) == hex_text(leaf_hash@),
            r.leaf_index == leaf_index,
            encode_utf8(r.root_hash@) == hex_text(root_hash@),
            hex_texts_of(texts(r.inclusion_proof@), buffers(inclusion_proof@)),
            r.timestamp@ == timestamp@,
            r.metadata == metadata,
            r.signature@ == base64_text(
                ed25519_signature(
                    self.secret(),
                    payload(leaf_hash@, leaf_index as int, root_hash@, timestamp@),
                ),
            ),
            r.public_key@ == base64_text(ed25519_public(self.secret())),
            base64_bytes(r.signature@) == Some(
                ed25519_signature(
                    self.secret(),
                    payload(leaf_hash@, leaf_index as int, root_hash@, timestamp@),
                ),
            ),
            base64_bytes(r.public_key@) == Some(ed25519_public(self.secret())),
            ed25519_public(self.secret()).len() == 32,
            ed25519_signature(
                self.secret(),
                payload(leaf_hash@, leaf_index as int, root_hash@, timestamp@),
            ).len() == 64,
            ed25519_verdict(
                ed25519_public(self.secret()),
                payload(leaf_hash@, leaf_index as int, root_hash@, timestamp@),
                ed25519_signature(
                    self.secret(),
                    payload(leaf_hash@, leaf_index as int, root_hash@, timestamp@),
                ),
            ) == Some(true),
            leaf_hash@ == leaf_of(metadata) && reconstruct(leaf_hash@, buffers(inclusion_proof@))
                == root_hash@ ==> outcome(r) == Ok::<bool, VerifyError>(true),
    {
        let mut siblings: Vec<String> = Vec::new();
        let mut i: usize = 0;
        while i < inclusion_proof.len()
            invariant
                i <= inclusion_proof@.len(),
                siblings@.len() == i,
                forall|j: int|
                    0 <= j < i ==> encode_utf8(#[trigger] siblings@[j]@) == hex_text(
                        inclusion_proof@[j]@,
                    ),
            decreases inclusion_proof@.len() - i,
        {
            siblings.push(to_hex(inclusion_proof[i].as_slice()));
            i = i + 1;
        }
        assert forall|j: int| 0 <= j < siblings@.len() implies encode_utf8(
            #[trigger] texts(siblings@)[j],
        ) == hex_text(buffers(inclusion_proof@)[j]) by {
            assert(texts(siblings@)[j] == siblings@[j]@);
        }
        let message = signed_payload(leaf_hash, leaf_index, root_hash, timestamp.as_str());
        let signature = sign_message(self.signing_key.as_slice(), message.as_slice());
        let r = Receipt {
            leaf_hash: to_hex(leaf_hash),
            leaf_index,
            root_hash: to_hex(root_hash),
            inclusion_proof: siblings,
            timestamp,
            metadata,
            signature: to_base64(signature.as_slice()),
            public_key: to_base64(self.public_key.as_slice()),
        };
        proof {
            let sig_bytes = base64_bytes(r.signature@);
            let pk_bytes = base64_bytes(r.public_key@);
            assert(sig_bytes == Some(signature@));
            assert(pk_bytes == Some(ed25519_public(self.secret())));
            lemma_hex_round_trip(leaf_hash@);
            lemma_hex_round_trip(root_hash@);
            let ts = texts(r.inclusion_proof@);
            let bs = buffers(inclusion_proof@);
            assert forall|j: int| 0 <= j < ts.len() implies #[trigger] hex_parse(
                encode_utf8(ts[j]),
            ) == Some(bs[j]) by {
                lemma_hex_round_trip(bs[j]);
            }
            assert(ts.map_values(
                |p: Seq<char>| hex_parse(encode_utf8(p))->Some_0,
            ) =~= bs);
            assert(hex_list(ts) == Some(bs));
            assert(hex_parse(encode_utf8(r.leaf_hash@)) == Some(leaf_hash@));
            assert(hex_parse(encode_utf8(r.root_hash@)) == Some(root_hash@));
        }
        r
    }

    /// The receipt for a logged leaf, stamped with the current UTC time.
    pub fn sign_receipt(
        &self,
        leaf_hash: &[u8],
        leaf_index: i64,
        root_hash: &[u8],
        inclusion_proof: &[Vec<u8>],
        metadata: JsonValue,
    ) -> (r: Receipt)
        requires
            self.wf(),
        ensures
            encode_utf8(r.leaf_hash@) == hex_text(leaf_hash@),
            r.leaf_index == leaf_index,
            encode_utf8(r.root_hash@) == hex_text(root_hash@),
            hex_texts_of(texts(r.inclusion_proof@), buffers(inclusion_proof@)),
            r.metadata == metadata,
            r.signature@ == base64_text(
                ed25519_signature(
                    self.secret(),
                    payload(leaf_hash@, leaf_index as int, root_hash@, r.timestamp@),
                ),
            ),
            r.public_key@ == base64_text(ed25519_public(self.secret())),
            base64_bytes(r.signature@) == Some(
                ed25519_signature(
                    self.secret(),
                    payload(leaf_hash@, leaf_index as int, root_hash@, r.timestamp@),
                ),
            ),
            base64_bytes(r.public_key@) == Some(ed25519_public(self.secret())),
            ed25519_public(self.secret()).len() == 32,
            ed25519_signature(
                self.secret(),
                payload(leaf_hash@, leaf_index as int, root_hash@, r.timestamp@),
            ).len() == 64,
            ed25519_verdict(
                ed25519_public(self.secret()),
                payload(leaf_hash@, leaf_index as int, root_hash@, r.timestamp@),
                ed25519_signature(
                    self.secret(),
                    payload(leaf_hash@, leaf_index as int, root_hash@, r.timestamp@),
                ),
            ) == Some(true),
            leaf_hash@ == leaf_of(metadata) && reconstruct(leaf_hash@, buffers(inclusion_proof@))
                == root_hash@ ==> outcome(r) == Ok::<bool, VerifyError>(true),
    {
        let timestamp = now_rfc3339();
        self.issue_receipt(leaf_hash, leaf_index, root_hash, inclusion_proof, metadata, timestamp)
    }
}

} // verus!
