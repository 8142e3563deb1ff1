//! Dependency edge kinds and their wire names.

use vstd::prelude::*;

use crate::text::str_eq;

verus! {

/// `Blocks` participates in `ready` computation; `Relates` is informational
/// only.
#[derive(Debug, Clone, Copy, PartialEq, Eq, Structural)]
pub enum DepKind {
    Blocks,
    Relates,
}

/// The wire name of a dependency kind.
pub open spec fn dep_kind_wire(k: DepKind) -> Seq<char> {
    match k {
        DepKind::Blocks => "blocks"@,
        DepKind::Relates => "relates"@,
    }
}

/// The dependency kind whose wire name is `s`, if any.
pub open spec fn parse_dep_kind_spec(s: Seq<char>) -> Option<DepKind> {
    if s == "blocks"@ {
        Some(DepKind::Blocks)
    } else if s == "relates"@ {
        Some(DepKind::Relates)
    } else {
        None
    }
}

/// A string that names no dependency kind.
#[derive(Debug)]
pub struct ParseDepKindError {
    pub input: String,
}

impl DepKind {
    /// The wire name stored in the log.
    pub fn as_str(self) -> (r: &'static str)
        ensures
            r@ == dep_kind_wire(self),
    {
        match self {
            DepKind::Blocks => "blocks",
            DepKind::Relates => "relates",
        }
    }

    /// Parse a wire name; anything else is a [`ParseDepKindError`].
    pub fn parse(s: &str) -> (r: Result<DepKind, ParseDepKindError>)
        ensures
            match r {
                Ok(k) => parse_dep_kind_spec(s@) == Some(k),
                Err(e) => parse_dep_kind_spec(s@) is None && e.input@ == s@,
            },
    {
        if str_eq(s, "blocks") {
            Ok(DepKind::Blocks)
        } else if str_eq(s, "relates") {
            Ok(DepKind::Relates)
        } else {
            Err(ParseDepKindError { input: s.to_owned() })
        }
    }
}

impl std::str::FromStr for DepKind {
    type Err = ParseDepKindError;

    fn from_str(s: &str) -> (r: Result<Self, Self::Err>)
        ensures
            match r {
                Ok(k) => parse_dep_kind_spec(s@) == Some(k),
                Err(e) => parse_dep_kind_spec(s@) is None && e.input@ == s@,
            },
    {
        DepKind::parse(s)
    }
}

/// Every dependency kind parses back from its wire name.
pub proof fn lemma_dep_kind_wire_round_trip(k: DepKind)
    ensures
        parse_dep_kind_spec(dep_kind_wire(k)) == Some(k),
{
    reveal_strlit("blocks");
    reveal_strlit("relates");
    assert("relates"@ != "blocks"@) by { assert("relates"@[0] != "blocks"@[0] || "relates"@.len() != "blocks"@.len()); }
}

/// A string parses as a dependency kind only if it is exactly its wire name.
pub proof fn lemma_dep_kind_parse_is_exact(s: Seq<char>)
    ensures
        parse_dep_kind_spec(s) matches Some(k) ==> dep_kind_wire(k) == s,
{
}

} // verus!
