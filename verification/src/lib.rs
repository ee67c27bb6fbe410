//! Verified core of the TypeSafe AI System One (Jev) client and modules.
//!
//! The HTTP transport, the agent framework glue and the JSON (de)serialisation
//! live in the companion application crate; this library holds the decisions:
//! text handling, error classification, the retry policy, the client cache and
//! the configuration rules of the modules.

pub mod client;
pub mod error;
pub mod modules;
pub mod retry;
pub mod text;
