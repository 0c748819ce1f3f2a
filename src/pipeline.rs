//! The commit sequence of one submission, as a state machine: queue the leaf,
//! fetch a root that covers it, fetch the inclusion proof, sign, store,
//! publish. The caller performs each action and hands back its outcome; a
//! failure at any step abandons the remaining steps of this submission only.
use vstd::prelude::*;
use vstd::utf8::encode_utf8;
use crate::crypto::{ed25519_public, ed25519_signature};
use crate::encoding::{base64_text, hex_text, to_hex};
use crate::json::{canonical, canonicalise, push_all, JsonValue};
use crate::log_root::{LogError, SignedRoot};
use crate::receipt::{describes, payload, texts, Receipt};
use crate::signer::{hex_texts_of, Signer};
use crate::verify::{buffers, leaf_of, outcome, reconstruct, VerifyError};

verus! {

/// Why one submission's commit sequence stopped.
#[derive(Debug, PartialEq, Eq, Structural)]
pub enum CommitError {
    Log(LogError),
    BadMetadata,
    StoreFailed,
    PublishTimeout,
    PublishFailed,
}

/// Where a commit sequence stands.
#[derive(Debug, PartialEq, Eq, Structural)]
pub enum Stage {
    Queue,
    Root,
    Proof,
    Store,
    Publish,
    Done,
    Failed,
}

/// The outcome of the action that the commit sequence asked for last.
pub enum Event {
    Queued(Result<i64, LogError>),
    RootFetched(Result<SignedRoot, LogError>),
    ProofFetched(Result<Vec<Vec<u8>>, LogError>),
    Stored(Result<(), CommitError>),
    Published(Result<(), CommitError>),
}

/// What the caller is to do next.
pub enum Action {
    QueueLeaf { leaf: Vec<u8> },
    FetchRoot,
    FetchProof { leaf_index: i64, tree_size: i64 },
    Store { leaf_hash: Vec<u8>, leaf_index: i64, root_hash: Vec<u8>, receipt: Vec<u8> },
    Publish { key: Vec<u8>, payload: Vec<u8> },
    Reply { receipt: Vec<u8>, leaf_index: i64 },
    Abandon(CommitError),
}

/// The event-bus record for a receipt: the key is the leaf's hexadecimal, the
/// value is that hexadecimal, a colon, and the receipt's JSON text.
pub open spec fn event_value(leaf: Seq<u8>, receipt: Seq<u8>) -> Seq<u8> {
    hex_text(leaf) + seq![58u8] + receipt
}

/// Builds the key and the value of the event-bus record for a receipt.
pub fn event_record(leaf_hash: &[u8], receipt: &[u8]) -> (r: (Vec<u8>, Vec<u8>))
    ensures
        r.0@ == hex_text(leaf_hash@),
        r.1@ == event_value(leaf_hash@, receipt@),
{
    let text = to_hex(leaf_hash);
    let mut key: Vec<u8> = Vec::new();
    push_all(&mut key, text.as_str().as_bytes());
    let mut value: Vec<u8> = Vec::new();
    push_all(&mut value, text.as_str().as_bytes());
    value.push(58u8);
    push_all(&mut value, receipt);
    (key, value)
}

/// The receipt text is the canonical JSON of a receipt that `signer` issued
/// for these values: it carries the leaf, index, root, proof and metadata,
/// the signer's signature over the bound fields and the signer's public key,
/// and it verifies when the metadata hashes to the leaf and the proof leads
/// from the leaf to the root.
pub open spec fn issued_text(
    text: Seq<u8>,
    signer: Signer,
    leaf: Seq<u8>,
    leaf_index: i64,
    root: Seq<u8>,
    siblings: Seq<Seq<u8>>,
    metadata: JsonValue,
) -> bool {
    exists|rc: Receipt, v: JsonValue|
        {
            &&& describes(v, rc)
            &&& text == canonical(v)
            &&& encode_utf8(rc.leaf_hash@) == hex_text(leaf)
            &&& rc.leaf_index == leaf_index
            &&& encode_utf8(rc.root_hash@) == hex_text(root)
            &&& rc.metadata == metadata
            &&& hex_texts_of(texts(rc.inclusion_proof@), siblings)
            &&& rc.signature@ == base64_text(
                ed25519_signature(
                    signer.secret(),
                    payload(leaf, leaf_index as int, root, rc.timestamp@),
                ),
            )
            &&& rc.public_key@ == base64_text(ed25519_public(signer.secret()))
            &&& (leaf == leaf_of(metadata) && reconstruct(leaf, siblings) == root ==> outcome(rc)
                == Ok::<bool, VerifyError>(true))
        }
}

/// One submission's progress through the commit sequence.
pub struct Commit {
    pub hash: Vec<u8>,
    pub metadata: Option<JsonValue>,
    pub stage: Stage,
    pub leaf_index: i64,
    pub root_hash: Vec<u8>,
    pub receipt: Vec<u8>,
}

impl Commit {
    /// Whether `event` answers the action that this stage asked for.
    pub open spec fn expects(&self, event: Event) -> bool {
        match event {
            Event::Queued(_) => self.stage == Stage::Queue,
            Event::RootFetched(_) => self.stage == Stage::Root,
            Event::ProofFetched(_) => self.stage == Stage::Proof,
            Event::Stored(_) => self.stage == Stage::Store,
            Event::Published(_) => self.stage == Stage::Publish,
        }
    }

    /// Starts the sequence for a submission whose metadata parsed to
    /// `metadata` (`None` when it is not JSON); the first action queues the
    /// hash as a leaf.
    pub fn start(hash: Vec<u8>, metadata: Option<JsonValue>) -> (r: (Commit, Action))
        ensures
            r.0.stage == Stage::Queue,
            r.0.hash == hash,
            r.0.metadata == metadata,
            r.1 is QueueLeaf && r.1->QueueLeaf_leaf@ == hash@,
    {
        let leaf = hash.clone();
        (
            Commit {
                hash,
                metadata,
                stage: Stage::Queue,
                leaf_index: 0,
                root_hash: Vec::new(),
                receipt: Vec::new(),
            },
            Action::QueueLeaf { leaf },
        )
    }

    fn abandon(&mut self, e: CommitError) -> (r: Action)
        ensures
            final(self).stage == Stage::Failed,
            final(self).hash == old(self).hash,
            final(self).leaf_index == old(self).leaf_index,
            final(self).root_hash == old(self).root_hash,
            final(self).receipt == old(self).receipt,
            final(self).metadata == old(self).metadata,
            r == Action::Abandon(e),
    {
        self.stage = Stage::Failed;
        Action::Abandon(e)
    }

    /// Takes the outcome of the last action and gives the next one. Any
    /// failure abandons the sequence; a root whose tree does not yet cover the
    /// leaf is fetched again.
    pub fn step(&mut self, signer: &Signer, event: Event) -> (r: Action)
        requires
            signer.wf(),
            old(self).expects(event),
        ensures
            final(self).hash == old(self).hash,
            (event is Queued) || final(self).leaf_index == old(self).leaf_index,
            (event is RootFetched) || final(self).root_hash == old(self).root_hash,
            (event is ProofFetched) || final(self).receipt == old(self).receipt,
            (event is ProofFetched) || final(self).metadata == old(self).metadata,
            match event {
                Event::Queued(Ok(i)) => {
                    &&& final(self).stage == Stage::Root
                    &&& final(self).leaf_index == i
                    &&& final(self).root_hash == old(self).root_hash
                    &&& final(self).receipt == old(self).receipt
                    &&& final(self).metadata == old(self).metadata
                    &&& r is FetchRoot
                },
                Event::RootFetched(Ok(root)) => if root.tree_size > old(self).leaf_index {
                    &&& final(self).stage == Stage::Proof
                    &&& final(self).root_hash@ == root.root_hash@
                    &&& r is FetchProof
                    &&& r->FetchProof_leaf_index == old(self).leaf_index
                    &&& r->FetchProof_tree_size == root.tree_size
                } else {
                    &&& final(self).stage == Stage::Root
                    &&& final(self).root_hash == old(self).root_hash
                    &&& r is FetchRoot
                },
                Event::ProofFetched(Ok(siblings)) => match old(self).metadata {
                    None => final(self).stage == Stage::Failed && r == Action::Abandon(
                        CommitError::BadMetadata,
                    ),
                    Some(m) => {
                        &&& final(self).stage == Stage::Store
                        &&& final(self).leaf_index == old(self).leaf_index
                        &&& final(self).root_hash == old(self).root_hash
                        &&& issued_text(
                            final(self).receipt@,
                            *signer,
                            old(self).hash@,
                            old(self).leaf_index,
                            old(self).root_hash@,
                            buffers(siblings@),
                            m,
                        )
                        &&& r is Store
                        &&& r->Store_leaf_hash@ == old(self).hash@
                        &&& r->Store_leaf_index == old(self).leaf_index
                        &&& r->Store_root_hash@ == old(self).root_hash@
                        &&& r->Store_receipt@ == final(self).receipt@
                    },
                },
                Event::Stored(Ok(())) => {
                    &&& final(self).stage == Stage::Publish
                    &&& r is Publish
                    &&& r->Publish_key@ == hex_text(old(self).hash@)
                    &&& r->Publish_payload@ == event_value(old(self).hash@, old(self).receipt@)
                },
                Event::Published(Ok(())) => {
                    &&& final(self).stage == Stage::Done
                    &&& r is Reply
                    &&& r->Reply_receipt@ == old(self).receipt@
                    &&& r->Reply_leaf_index == old(self).leaf_index
                },
                Event::Queued(Err(e)) => final(self).stage == Stage::Failed && r == Action::Abandon(
                    CommitError::Log(e),
                ),
                Event::RootFetched(Err(e)) => final(self).stage == Stage::Failed && r
                    == Action::Abandon(CommitError::Log(e)),
                Event::ProofFetched(Err(e)) => final(self).stage == Stage::Failed && r
                    == Action::Abandon(CommitError::Log(e)),
                Event::Stored(Err(e)) => final(self).stage == Stage::Failed && r == Action::Abandon(
                    e,
                ),
                Event::Published(Err(e)) => final(self).stage == Stage::Failed && r
                    == Action::Abandon(e),
            },
    {
        match event {
            Event::Queued(Ok(i)) => {
                self.leaf_index = i;
                self.stage = Stage::Root;
                Action::FetchRoot
            },
            Event::RootFetched(Ok(root)) => {
                if root.tree_size > self.leaf_index {
                    self.root_hash = root.root_hash;
                    self.stage = Stage::Proof;
                    Action::FetchProof { leaf_index: self.leaf_index, tree_size: root.tree_size }
                } else {
                    Action::FetchRoot
                }
            },
            Event::ProofFetched(Ok(siblings)) => {
                match self.metadata.take() {
                    None => self.abandon(CommitError::BadMetadata),
                    Some(m) => {
                        let ghost meta = m;
                        let rc = signer.sign_receipt(
                            self.hash.as_slice(),
                            self.leaf_index,
                            self.root_hash.as_slice(),
                            siblings.as_slice(),
                            m,
                        );
                        let ghost receipt = rc;
                        let v = rc.to_json();
                        let text = canonicalise(&v);
                        assert(describes(v, receipt));
                        let stored = Action::Store {
                            leaf_hash: self.hash.clone(),
                            leaf_index: self.leaf_index,
                            root_hash: self.root_hash.clone(),
                            receipt: text.clone(),
                        };
                        self.receipt = text;
                        self.stage = Stage::Store;
                        stored
                    },
                }
            },
            Event::Stored(Ok(())) => {
                let (key, payload) = event_record(self.hash.as_slice(), self.receipt.as_slice());
                self.stage = Stage::Publish;
                Action::Publish { key, payload }
            },
            Event::Published(Ok(())) => {
                self.stage = Stage::Done;
                Action::Reply { receipt: self.receipt.clone(), leaf_index: self.leaf_index }
            },
            Event::Queued(Err(e)) => self.abandon(CommitError::Log(e)),
            Event::RootFetched(Err(e)) => self.abandon(CommitError::Log(e)),
            Event::ProofFetched(Err(e)) => self.abandon(CommitError::Log(e)),
            Event::Stored(Err(e)) => self.abandon(e),
            Event::Published(Err(e)) => self.abandon(e),
        }
    }
}

} // verus!
