//! Synchronization and merge engine for archiving chat message history.
//!
//! The crate keeps one ordered store of messages per conversation, fetches
//! new messages page by page from a remote feed, merges pages into the store
//! with an idempotent insert-or-update primitive, and reconciles historical
//! plain-text logs against the store with a time-window dedup heuristic.

pub mod clock;
pub mod ids;
pub mod text;
pub mod types;
pub mod store;
pub mod fetch;
pub mod sync;
pub mod orch;
pub mod merge;
pub mod parse;
