//! Holds: parking an issue without changing its status.

use vstd::prelude::*;

use crate::text::str_eq;

verus! {

/// Why an issue is held.
#[derive(Debug, Clone, Copy, PartialEq, Eq, Structural)]
pub enum HoldKind {
    Captain,
    External,
    Load,
    Parked,
    Future,
}

/// The wire name of a hold kind.
pub open spec fn hold_kind_wire(k: HoldKind) -> Seq<char> {
    match k {
        HoldKind::Captain => "captain"@,
        HoldKind::External => "external"@,
        HoldKind::Load => "load"@,
        HoldKind::Parked => "parked"@,
        HoldKind::Future => "future"@,
    }
}

/// The hold kind whose wire name is `s`, if any.
pub open spec fn parse_hold_kind_spec(s: Seq<char>) -> Option<HoldKind> {
    if s == "captain"@ {
        Some(HoldKind::Captain)
    } else if s == "external"@ {
        Some(HoldKind::External)
    } else if s == "load"@ {
        Some(HoldKind::Load)
    } else if s == "parked"@ {
        Some(HoldKind::Parked)
    } else if s == "future"@ {
        Some(HoldKind::Future)
    } else {
        None
    }
}

/// A string that names no hold kind.
#[derive(Debug)]
pub struct ParseHoldKindError {
    pub input: String,
}

impl HoldKind {
    /// The wire name stored in the log.
    pub fn as_str(self) -> (r: &'static str)
        ensures
            r@ == hold_kind_wire(self),
    {
        match self {
            HoldKind::Captain => "captain",
            HoldKind::External => "external",
            HoldKind::Load => "load",
            HoldKind::Parked => "parked",
            HoldKind::Future => "future",
        }
    }

    /// Parse a wire name; anything else is a [`ParseHoldKindError`].
    pub fn parse(s: &str) -> (r: Result<HoldKind, ParseHoldKindError>)
        ensures
            match r {
                Ok(k) => parse_hold_kind_spec(s@) == Some(k),
                Err(e) => parse_hold_kind_spec(s@) is None && e.input@ == s@,
            },
    {
        if str_eq(s, "captain") {
            Ok(HoldKind::Captain)
        } else if str_eq(s, "external") {
            Ok(HoldKind::External)
        } else if str_eq(s, "load") {
            Ok(HoldKind::Load)
        } else if str_eq(s, "parked") {
            Ok(HoldKind::Parked)
        } else if str_eq(s, "future") {
            Ok(HoldKind::Future)
        } else {
            Err(ParseHoldKindError { input: s.to_owned() })
        }
    }
}

impl std::str::FromStr for HoldKind {
    type Err = ParseHoldKindError;

    fn from_str(s: &str) -> (r: Result<Self, Self::Err>)
        ensures
            match r {
                Ok(k) => parse_hold_kind_spec(s@) == Some(k),
                Err(e) => parse_hold_kind_spec(s@) is None && e.input@ == s@,
            },
    {
        HoldKind::parse(s)
    }
}

/// Every hold kind parses back from its wire name.
pub proof fn lemma_hold_kind_wire_round_trip(k: HoldKind)
    ensures
        parse_hold_kind_spec(hold_kind_wire(k)) == Some(k),
{
    reveal_strlit("captain");
    reveal_strlit("external");
    reveal_strlit("load");
    reveal_strlit("parked");
    reveal_strlit("future");
    assert("external"@ != "captain"@) by { assert("external"@[0] != "captain"@[0] || "external"@.len() != "captain"@.len()); }
    assert("load"@ != "captain"@) by { assert("load"@[0] != "captain"@[0] || "load"@.len() != "captain"@.len()); }
    assert("load"@ != "external"@) by { assert("load"@[0] != "external"@[0] || "load"@.len() != "external"@.len()); }
    assert("parked"@ != "captain"@) by { assert("parked"@[0] != "captain"@[0] || "parked"@.len() != "captain"@.len()); }
    assert("parked"@ != "external"@) by { assert("parked"@[0] != "external"@[0] || "parked"@.len() != "external"@.len()); }
    assert("parked"@ != "load"@) by { assert("parked"@[0] != "load"@[0] || "parked"@.len() != "load"@.len()); }
    assert("future"@ != "captain"@) by { assert("future"@[0] != "captain"@[0] || "future"@.len() != "captain"@.len()); }
    assert("future"@ != "external"@) by { assert("future"@[0] != "external"@[0] || "future"@.len() != "external"@.len()); }
    assert("future"@ != "load"@) by { assert("future"@[0] != "load"@[0] || "future"@.len() != "load"@.len()); }
    assert("future"@ != "parked"@) by { assert("future"@[0] != "parked"@[0] || "future"@.len() != "parked"@.len()); }
}

/// A string parses as a hold kind only if it is exactly its wire name.
pub proof fn lemma_hold_kind_parse_is_exact(s: Seq<char>)
    ensures
        parse_hold_kind_spec(s) matches Some(k) ==> hold_kind_wire(k) == s,
{
}

/// An active hold on an issue: the issue keeps its status but `ready`
/// excludes it until released, or until `until` passes when set.
#[derive(Debug, Clone, PartialEq, Eq)]
pub struct Hold {
    pub reason: String,
    /// Optional expiry as milliseconds since the Unix epoch.
    pub until: Option<i64>,
    pub kind: HoldKind,
}

/// The plain-value model of a [`Hold`].
pub struct HoldView {
    pub reason: Seq<char>,
    pub until: Option<i64>,
    pub kind: HoldKind,
}

impl View for Hold {
    type V = HoldView;

    open spec fn view(&self) -> HoldView {
        HoldView { reason: self.reason@, until: self.until, kind: self.kind }
    }
}

impl Hold {
    /// A copy of this hold with the same model.
    pub fn duplicate(&self) -> (r: Hold)
        ensures
            r@ == self@,
    {
        Hold { reason: self.reason.clone(), until: self.until, kind: self.kind }
    }
}

} // verus!
