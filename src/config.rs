//! The service's configuration document, section by section.
use vstd::prelude::*;

verus! {

/// The whole configuration.
pub struct Config {
    pub server: ServerConfig,
    pub database: DatabaseConfig,
    pub kafka: KafkaConfig,
    pub trillian: TrillianConfig,
    pub sigstore: SigstoreConfig,
}

/// Where the ingestion service listens.
pub struct ServerConfig {
    pub addr: String,
}

/// The receipt store.
pub struct DatabaseConfig {
    pub url: String,
}

/// The event bus and the topic that receipts are published on.
pub struct KafkaConfig {
    pub brokers: String,
    pub topic: String,
}

/// The transparency log's address and the log's id.
pub struct TrillianConfig {
    pub log_server_addr: String,
    pub log_id: i64,
}

/// Reserved for a certificate-issuing signer; the current signer generates
/// its own key and ignores these.
pub struct SigstoreConfig {
    pub fulcio_url: String,
    pub rekor_url: String,
}

} // verus!
