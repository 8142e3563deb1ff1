//! tix — a minimal per-repo issue tracker for humans and agents.
//!
//! A store is an append-only event log of issue, comment, dependency, hold
//! and delete records. Every mutation appends one record; the derived state
//! (what `fetch`, `list`, `ready` and `search` read) is always the replay of
//! that log, which is what makes the derived state disposable.

pub mod cli;
pub mod comment;
pub mod comment_id;
pub mod dep;
pub mod dep_kind;
pub mod hold;
pub mod ids;
pub mod issue;
pub mod issue_id;
pub mod model;
pub mod paths;
pub mod status;
pub mod store;
pub mod text;
