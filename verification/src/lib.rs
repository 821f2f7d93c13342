//! Core of a streaming chat client.
//!
//! The library covers the protocol logic of one conversation turn: building
//! the JSON request body for a turn, decoding the server's newline-delimited
//! `data: ` frames into typed chunks across arbitrary read boundaries, and
//! the conversation state machine that owns message history, the in-flight
//! reply accumulator and the turn lifecycle. Rendering and the actual HTTP
//! transport are left to the embedding program.

pub mod chunk;
pub mod decoder;
pub mod frame;
pub mod session;
pub mod text;
pub mod wire;
