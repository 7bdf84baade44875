//! Verified core of a WebSocket library: UTF-8 validation for text
//! frames, frame masking, configuration presets, close codes, messages,
//! connection bookkeeping and a topic-based publish/subscribe registry.

pub mod utf8;
pub mod mask;
pub mod config;
pub mod close;
pub mod message;
pub mod stats;
pub mod topics;
pub mod connection;
pub mod server;
pub mod pubsub;
