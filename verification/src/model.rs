//! Domain types shared by the store and the CLI, in one place.
//!
//! Wire names (the strings that appear in `issues.jsonl` and in CLI output)
//! are pinned by the `as_str` methods of the enums re-exported here.

pub use crate::comment::Comment;
pub use crate::comment_id::CommentId;
pub use crate::dep::Dep;
pub use crate::dep_kind::{DepKind, ParseDepKindError};
pub use crate::hold::{Hold, HoldKind, ParseHoldKindError};
pub use crate::issue::{DEFAULT_PRIORITY, Issue, IssueUpdate, NewIssue};
pub use crate::issue_id::{IssueId, ParseIssueIdError};
pub use crate::status::{ParseStatusError, Status};
pub use crate::store::ListFilter;
