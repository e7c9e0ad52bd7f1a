//! Streaming reply and session orchestration for an agent runtime.
//!
//! The crate models a session as a transcript of immutable messages, drives a
//! multi-turn reply loop against a pluggable completion provider and a tool
//! host, fans the resulting events out to a client as wire events, and
//! persists the transcript in a line-delimited, JSON-like format whose
//! round-trip is proved.

pub mod agent;
pub mod ask;
pub mod channel;
pub mod codec;
pub mod dec;
pub mod message;
pub mod provider;
pub mod strutil;
pub mod telemetry;
pub mod transport;
pub mod wire;
