//! The commit-log service: an append-only, offset-indexed log store and the
//! node behavior that exposes it.
pub mod kafka_server;
pub mod storage;

pub use kafka_server::KafkaServer;
pub use storage::Storage;
