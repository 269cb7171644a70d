//! A single-process distributed-node runtime that talks to its peers through
//! newline-delimited message envelopes, plus the node behaviors built on it:
//! request/reply echo, unique-id generation, a topology-aware gossip
//! broadcaster, and an append-only, offset-indexed log store exposed as a
//! minimal commit-log service.
//!
//! Each behavior is a state machine driven by one `step` call per inbound
//! envelope: the caller owns the line I/O and hands in parsed envelopes as
//! plain values; `step` returns the envelopes to write, the record lines to
//! persist, or the fatal condition that must end the process.
pub mod broadcast;
pub mod dict;
pub mod digits;
pub mod echo;
pub mod kafka;
pub mod message;
pub mod server;
pub mod unique_id;
