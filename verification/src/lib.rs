//! Indexing-and-embedding pipeline: ignore-rule-aware file traversal,
//! deterministic fragment construction under a token budget, and the
//! state machine of a worker that serializes one embedding model behind
//! a message-passing boundary.

pub mod documents;
pub mod errors;
pub mod fragments;
pub mod ids;
pub mod indexer;
pub mod matcher;
pub mod settings;
pub mod startup;
pub mod strutil;
pub mod walker;
pub mod worker;
