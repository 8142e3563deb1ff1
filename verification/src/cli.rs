//! The command-line boundary's decisions: stable error codes and process
//! exit codes for every failure, and the error envelope's shape.
//!
//! Exit codes: 0 success, 1 operational failure, 2 usage error, 3 not
//! found, 4 ambiguity or semantic conflict, 5 validation failure.

use vstd::prelude::*;

use crate::store::Error;

verus! {

/// Version of the JSON envelope contract, not of the binary.
pub const SCHEMA_VERSION: u32 = 1;

/// A parsed command line: the `--json` flag and one verb.
pub struct Cli {
    /// Emit machine-readable JSON envelopes instead of human output.
    pub json: bool,
    pub command: Command,
}

/// One variant per verb. Status names and dependency kinds stay strings
/// here and are parsed at the start of execution; a rejected name is a
/// validation failure (exit 5).
pub enum Command {
    /// Create a `.tix` store in the current directory (idempotent).
    Init { prefix: Option<String> },
    /// Create an issue.
    Add {
        title: String,
        body: String,
        /// 1 (highest) to 5 (lowest).
        priority: i32,
        assignee: String,
        tags: Vec<String>,
        /// Caller-chosen id; an existing one is an error.
        id: Option<String>,
        /// Print only the id.
        quiet: bool,
    },
    /// List issues, most recently updated first.
    List { status: Option<String>, assignee: Option<String>, tag: Option<String> },
    /// Show one issue with its comments.
    Show { id: String },
    /// Update issue fields.
    Edit {
        id: String,
        title: Option<String>,
        body: Option<String>,
        status: Option<String>,
        priority: Option<i32>,
        assignee: Option<String>,
        add_tags: Vec<String>,
        rm_tags: Vec<String>,
        quiet: bool,
    },
    /// Change status: open, in_progress, or closed.
    Status { id: String, status: String },
    /// Assign an issue.
    Assign { id: String, assignee: String },
    /// Add a comment.
    Comment { id: String, message: String, author: String, quiet: bool },
    /// Manage dependency edges.
    Dep { action: DepAction },
    /// List unblocked, unheld open issues, highest priority first.
    Ready { assignee: Option<String> },
    /// Search titles, bodies, and comments.
    Search { query: String },
    /// Place a hold on an issue (planned feature).
    Hold { id: String, reason: String, kind: String, until: Option<String> },
    /// Release a hold (planned feature).
    Unhold { id: String },
    /// Tombstone an issue (planned feature).
    Rm { id: String },
    /// Export the store as JSONL events (planned feature).
    Export,
    /// Import JSONL events (planned feature).
    Import,
    /// Render the store as a backlog.md document (planned feature).
    Dump,
}

/// `tix dep add|rm <id> <blocks|relates> <target>`.
pub enum DepAction {
    Add { id: String, kind: String, target: String },
    Rm { id: String, kind: String, target: String },
}

/// The body of an error envelope.
pub struct ErrorBody {
    /// Stable snake_case identifier, e.g. `issue_not_found`.
    pub code: String,
    pub message: String,
}

/// Error envelope: `{"schema_version":1,"error":{…}}`.
pub struct ErrorEnvelope {
    pub schema_version: u32,
    pub error: ErrorBody,
}

/// The stable error code of a store failure.
pub open spec fn error_code_spec(e: Error) -> Seq<char> {
    match e {
        Error::StoreNotFound => "store_not_found"@,
        Error::IssueNotFound { .. } => "issue_not_found"@,
        Error::IssueIdAmbiguous { .. } => "issue_id_ambiguous"@,
        Error::IssueIdExists { .. } => "issue_id_exists"@,
        Error::InvalidIssueId { .. } => "invalid_issue_id"@,
        Error::SelfDependency => "self_dependency"@,
        Error::DatabaseBusy => "store_busy"@,
        Error::Sqlite { .. } => "cache_failure"@,
        Error::Io { .. } => "io_failure"@,
    }
}

/// The exit code of a store failure: 3 not found, 4 ambiguity or
/// conflict, 5 validation, 1 operational.
pub open spec fn exit_code_spec(e: Error) -> u8 {
    match e {
        Error::StoreNotFound | Error::IssueNotFound { .. } => 3,
        Error::IssueIdAmbiguous { .. } | Error::IssueIdExists { .. } | Error::SelfDependency => 4,
        Error::InvalidIssueId { .. } => 5,
        Error::DatabaseBusy | Error::Sqlite { .. } | Error::Io { .. } => 1,
    }
}

/// Stable error code for a store failure (the `error.code` envelope field).
pub fn error_code(err: &Error) -> (r: &'static str)
    ensures
        r@ == error_code_spec(*err),
{
    match err {
        Error::StoreNotFound => "store_not_found",
        Error::IssueNotFound { .. } => "issue_not_found",
        Error::IssueIdAmbiguous { .. } => "issue_id_ambiguous",
        Error::IssueIdExists { .. } => "issue_id_exists",
        Error::InvalidIssueId { .. } => "invalid_issue_id",
        Error::SelfDependency => "self_dependency",
        Error::DatabaseBusy => "store_busy",
        Error::Sqlite { .. } => "cache_failure",
        Error::Io { .. } => "io_failure",
    }
}

/// Process exit code for a store failure.
pub fn exit_code(err: &Error) -> (r: u8)
    ensures
        r == exit_code_spec(*err),
{
    match err {
        Error::StoreNotFound | Error::IssueNotFound { .. } => 3,
        Error::IssueIdAmbiguous { .. } | Error::IssueIdExists { .. } | Error::SelfDependency => 4,
        Error::InvalidIssueId { .. } => 5,
        Error::DatabaseBusy | Error::Sqlite { .. } | Error::Io { .. } => 1,
    }
}

/// A command failure, unified across the store and the parse boundary.
pub enum Failure {
    Store(Error),
    /// A rejected status or kind name; carries the message to show.
    Validation(String),
    /// A verb whose support has not landed yet; carries the verb.
    NotImplemented(String),
}

/// The stable error code of a command failure.
pub open spec fn failure_code_spec(f: Failure) -> Seq<char> {
    match f {
        Failure::Store(e) => error_code_spec(e),
        Failure::Validation(_) => "validation_failure"@,
        Failure::NotImplemented(_) => "not_implemented"@,
    }
}

/// The exit code of a command failure.
pub open spec fn failure_exit_spec(f: Failure) -> u8 {
    match f {
        Failure::Store(e) => exit_code_spec(e),
        Failure::Validation(_) => 5,
        Failure::NotImplemented(_) => 1,
    }
}

impl Failure {
    /// The envelope's `error.code`.
    pub fn code(&self) -> (r: &'static str)
        ensures
            r@ == failure_code_spec(*self),
    {
        match self {
            Failure::Store(err) => error_code(err),
            Failure::Validation(_) => "validation_failure",
            Failure::NotImplemented(_) => "not_implemented",
        }
    }

    /// The process exit code.
    pub fn exit(&self) -> (r: u8)
        ensures
            r == failure_exit_spec(*self),
    {
        match self {
            Failure::Store(err) => exit_code(err),
            Failure::Validation(_) => 5,
            Failure::NotImplemented(_) => 1,
        }
    }
}

/// Every failure exits with a code from 1 to 5, never 0 (success) or 2
/// (usage errors belong to the argument parser).
pub proof fn lemma_failure_exit_codes(f: Failure)
    ensures
        failure_exit_spec(f) == 1 || 3 <= failure_exit_spec(f) <= 5,
{
}

} // verus!
