//! Resilient ingestion of newline-delimited JSON messages from a reopenable
//! byte stream: the message schema, the line grammar, the decoder and its
//! canonical encoder, and the read / reconnect state machine that drives the
//! loop.
pub mod decode;
pub mod encode;
pub mod ingest;
pub mod json;
pub mod message;
pub mod roundtrip;
