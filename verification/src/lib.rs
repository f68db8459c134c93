//! Remote state-query and chat-bridge library for a running Factorio session.
//!
//! The library synthesizes injection-safe Lua snippets that read game state,
//! classifies the text responses coming back over the RCON console, decodes
//! them into typed results, and drives the decision logic of the in-game chat
//! bridge.  All I/O (the RCON socket, the assistant, the terminal) lives
//! outside this crate; everything here is pure and verified.

pub mod bridge;
pub mod cli;
pub mod error;
pub mod json;
pub mod lua;
pub mod repl;
pub mod text;
pub mod tools;
pub mod transport;
