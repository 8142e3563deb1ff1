//! Issue status and its wire names.

use vstd::prelude::*;

use crate::text::str_eq;

verus! {

/// The workflow state of an issue.
#[derive(Debug, Clone, Copy, PartialEq, Eq, Structural)]
pub enum Status {
    Open,
    InProgress,
    Closed,
}

/// The wire name of a status, as stored in the log and printed by the CLI.
pub open spec fn status_wire(st: Status) -> Seq<char> {
    match st {
        Status::Open => "open"@,
        Status::InProgress => "in_progress"@,
        Status::Closed => "closed"@,
    }
}

/// The status whose wire name is `s`, if any.
pub open spec fn parse_status_spec(s: Seq<char>) -> Option<Status> {
    if s == "open"@ {
        Some(Status::Open)
    } else if s == "in_progress"@ {
        Some(Status::InProgress)
    } else if s == "closed"@ {
        Some(Status::Closed)
    } else {
        None
    }
}

/// A string that names no status.
#[derive(Debug)]
pub struct ParseStatusError {
    pub input: String,
}

impl Status {
    /// The wire name stored in `issues.jsonl` and printed by the CLI.
    pub fn as_str(self) -> (r: &'static str)
        ensures
            r@ == status_wire(self),
    {
        match self {
            Status::Open => "open",
            Status::InProgress => "in_progress",
            Status::Closed => "closed",
        }
    }

    /// Parse a wire name; anything else is a [`ParseStatusError`] carrying
    /// the input.
    pub fn parse(s: &str) -> (r: Result<Status, ParseStatusError>)
        ensures
            match r {
                Ok(st) => parse_status_spec(s@) == Some(st),
                Err(e) => parse_status_spec(s@) is None && e.input@ == s@,
            },
    {
        if str_eq(s, "open") {
            Ok(Status::Open)
        } else if str_eq(s, "in_progress") {
            Ok(Status::InProgress)
        } else if str_eq(s, "closed") {
            Ok(Status::Closed)
        } else {
            Err(ParseStatusError { input: s.to_owned() })
        }
    }
}

impl std::str::FromStr for Status {
    type Err = ParseStatusError;

    fn from_str(s: &str) -> (r: Result<Self, Self::Err>)
        ensures
            match r {
                Ok(st) => parse_status_spec(s@) == Some(st),
                Err(e) => parse_status_spec(s@) is None && e.input@ == s@,
            },
    {
        Status::parse(s)
    }
}

/// Every status parses back from its wire name.
pub proof fn lemma_status_wire_round_trip(st: Status)
    ensures
        parse_status_spec(status_wire(st)) == Some(st),
{
    reveal_strlit("open");
    reveal_strlit("in_progress");
    reveal_strlit("closed");
    assert("in_progress"@ != "open"@) by { assert("in_progress"@[0] != "open"@[0] || "in_progress"@.len() != "open"@.len()); }
    assert("closed"@ != "open"@) by { assert("closed"@[0] != "open"@[0] || "closed"@.len() != "open"@.len()); }
    assert("closed"@ != "in_progress"@) by { assert("closed"@[0] != "in_progress"@[0] || "closed"@.len() != "in_progress"@.len()); }
}

/// A string parses as a status only if it is exactly that status's wire
/// name.
pub proof fn lemma_status_parse_is_exact(s: Seq<char>)
    ensures
        parse_status_spec(s) matches Some(st) ==> status_wire(st) == s,
{
}

} // verus!
