//! A hook execution engine for chat sessions: user-configured shell commands
//! ("hooks") are run at well-defined moments of a conversation, with
//! trigger-dependent caching, per-hook timeouts and bounded output.

pub mod cache;
pub mod commands;
pub mod executor;
pub mod hooks;
pub mod mcp;
pub mod persona;
pub mod platform;
pub(crate) mod text;
