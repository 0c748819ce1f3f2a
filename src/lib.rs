//! Tamper-evident audit receipts for inference traffic: canonical JSON
//! fingerprints, transparency-log root parsing, signed inclusion receipts and
//! their offline verification, and the batching and commit state machines of
//! the ingestion pipeline.
pub mod batcher;
pub mod config;
pub mod crypto;
pub mod encoding;
pub mod fingerprint;
pub mod json;
pub mod log_root;
pub mod pipeline;
pub mod receipt;
pub mod signer;
pub mod sorting;
pub mod verify;
