//! Issue identifiers.

use vstd::prelude::*;

use crate::text::{chars_of, owned, string_of};

verus! {

/// Why a string is not an acceptable issue id.
#[derive(Debug, Clone, Copy, PartialEq, Eq, Structural)]
pub enum ParseIssueIdError {
    /// The id is empty.
    Empty,
    /// The first character outside ASCII `[A-Za-z0-9._-]`.
    InvalidChar(char),
    /// The id starts or ends with something other than a letter or digit.
    BadEdge,
}

/// An ASCII letter or digit.
pub open spec fn is_ascii_alnum(c: char) -> bool {
    ||| ('a' as u32) <= (c as u32) <= ('z' as u32)
    ||| ('A' as u32) <= (c as u32) <= ('Z' as u32)
    ||| ('0' as u32) <= (c as u32) <= ('9' as u32)
}

/// A character allowed anywhere in an issue id.
pub open spec fn is_id_char(c: char) -> bool {
    is_ascii_alnum(c) || c == '.' || c == '_' || c == '-'
}

/// The first character of `s` at or after index `i` that is not an id
/// character.
pub open spec fn first_bad_char(s: Seq<char>, i: int) -> Option<char>
    decreases s.len() - i,
{
    if i < 0 || i >= s.len() {
        None
    } else if !is_id_char(s[i]) {
        Some(s[i])
    } else {
        first_bad_char(s, i + 1)
    }
}

/// The verdict on a candidate id: empty first, then the first invalid
/// character, then the edges.
pub open spec fn check_issue_id(s: Seq<char>) -> Result<(), ParseIssueIdError> {
    if s.len() == 0 {
        Err(ParseIssueIdError::Empty)
    } else {
        match first_bad_char(s, 0) {
            Some(c) => Err(ParseIssueIdError::InvalidChar(c)),
            None => if !is_ascii_alnum(s[0]) || !is_ascii_alnum(s.last()) {
                Err(ParseIssueIdError::BadEdge)
            } else {
                Ok(())
            },
        }
    }
}

/// An acceptable issue id: non-empty, only ASCII `[A-Za-z0-9._-]`, and a
/// letter or digit at both ends.
pub open spec fn valid_issue_id(s: Seq<char>) -> bool {
    &&& s.len() > 0
    &&& forall|i: int| 0 <= i < s.len() ==> is_id_char(#[trigger] s[i])
    &&& is_ascii_alnum(s[0])
    &&& is_ascii_alnum(s.last())
}

proof fn lemma_first_bad_char(s: Seq<char>, i: int)
    requires
        0 <= i <= s.len(),
    ensures
        first_bad_char(s, i) is None <==> forall|j: int| i <= j < s.len() ==> is_id_char(#[trigger] s[j]),
        first_bad_char(s, i) matches Some(c) ==> !is_id_char(c),
    decreases s.len() - i,
{
    if i < s.len() {
        lemma_first_bad_char(s, i + 1);
    }
}

/// `check_issue_id` accepts exactly the valid ids, and names an invalid
/// character only when there is one.
pub proof fn lemma_check_issue_id_exact(s: Seq<char>)
    ensures
        check_issue_id(s) is Ok <==> valid_issue_id(s),
        check_issue_id(s) matches Err(ParseIssueIdError::InvalidChar(c)) ==> !is_id_char(c)
            && s.contains(c),
{
    if s.len() > 0 {
        lemma_first_bad_char(s, 0);
        if let Some(c) = first_bad_char(s, 0) {
            lemma_first_bad_char_is_in(s, 0);
        }
    }
}

proof fn lemma_first_bad_char_is_in(s: Seq<char>, i: int)
    requires
        0 <= i <= s.len(),
    ensures
        first_bad_char(s, i) matches Some(c) ==> s.contains(c),
    decreases s.len() - i,
{
    if i < s.len() {
        if is_id_char(s[i]) {
            lemma_first_bad_char_is_in(s, i + 1);
        } else {
            assert(s[i] == s[i]);
        }
    }
}

fn is_alnum_exec(c: char) -> (r: bool)
    ensures
        r == is_ascii_alnum(c),
{
    let u = c as u32;
    (97 <= u && u <= 122) || (65 <= u && u <= 90) || (48 <= u && u <= 57)
}

fn is_id_char_exec(c: char) -> (r: bool)
    ensures
        r == is_id_char(c),
{
    is_alnum_exec(c) || c == '.' || c == '_' || c == '-'
}

/// Check `s` against the issue-id acceptance floor.
pub fn check_id_chars(s: &Vec<char>) -> (r: Result<(), ParseIssueIdError>)
    ensures
        r == check_issue_id(s@),
{
    if s.len() == 0 {
        return Err(ParseIssueIdError::Empty);
    }
    let mut i: usize = 0;
    while i < s.len()
        invariant
            0 < s.len(),
            i <= s.len(),
            first_bad_char(s@, 0) == first_bad_char(s@, i as int),
        decreases s.len() - i,
    {
        if !is_id_char_exec(s[i]) {
            return Err(ParseIssueIdError::InvalidChar(s[i]));
        }
        i = i + 1;
    }
    if !is_alnum_exec(s[0]) || !is_alnum_exec(s[s.len() - 1]) {
        return Err(ParseIssueIdError::BadEdge);
    }
    Ok(())
}

/// An issue id: `<prefix>-<6-hex-hash>` when generated, or a caller-chosen
/// string. Every id, whoever produced it, is non-empty ASCII
/// `[A-Za-z0-9._-]` with a letter or digit at both ends; holding an
/// `IssueId` is proof that the value passed that check.
#[derive(Debug, PartialEq, Eq, Hash)]
pub struct IssueId(String);

impl View for IssueId {
    type V = Seq<char>;

    closed spec fn view(&self) -> Seq<char> {
        self.0@
    }
}

impl IssueId {
    /// Every `IssueId` passes the acceptance floor.
    #[verifier::type_invariant]
    pub open spec fn wf(self) -> bool {
        valid_issue_id(self@)
    }

    /// The outcome of validating and wrapping `s`.
    pub closed spec fn spec_from_string(s: String) -> Result<IssueId, ParseIssueIdError> {
        match check_issue_id(s@) {
            Ok(()) => Ok(IssueId(s)),
            Err(e) => Err(e),
        }
    }

    fn wrap_checked(s: String) -> (r: Result<IssueId, ParseIssueIdError>)
        ensures
            r == IssueId::spec_from_string(s),
    {
        let chars = chars_of(s.as_str());
        match check_id_chars(&chars) {
            Ok(()) => {
                proof {
                    lemma_check_issue_id_exact(s@);
                }
                Ok(IssueId(s))
            },
            Err(e) => Err(e),
        }
    }

    /// Validate and wrap an owned string.
    pub fn from_string(s: String) -> (r: Result<IssueId, ParseIssueIdError>)
        ensures
            r == IssueId::spec_from_string(s),
            r is Ok <==> valid_issue_id(s@),
            match r {
                Ok(id) => valid_issue_id(s@) && id@ == s@,
                Err(e) => check_issue_id(s@) == Err::<(), ParseIssueIdError>(e),
            },
    {
        proof {
            lemma_check_issue_id_exact(s@);
        }
        IssueId::wrap_checked(s)
    }

    /// Validate and copy a borrowed string.
    pub fn parse(s: &str) -> (r: Result<IssueId, ParseIssueIdError>)
        ensures
            r is Ok <==> valid_issue_id(s@),
            match r {
                Ok(id) => valid_issue_id(s@) && id@ == s@,
                Err(e) => check_issue_id(s@) == Err::<(), ParseIssueIdError>(e),
            },
    {
        IssueId::from_string(owned(s))
    }

    /// Wrap characters already known to form a valid id.
    pub fn from_valid_chars(v: &Vec<char>) -> (r: IssueId)
        requires
            valid_issue_id(v@),
        ensures
            r@ == v@,
    {
        IssueId(string_of(v))
    }

    /// The id as text.
    pub fn as_str(&self) -> (r: &str)
        ensures
            r@ == self@,
    {
        self.0.as_str()
    }

    /// A copy with the same characters.
    pub fn duplicate(&self) -> (r: IssueId)
        ensures
            r@ == self@,
    {
        proof {
            use_type_invariant(self);
        }
        IssueId(self.0.clone())
    }
}

impl std::str::FromStr for IssueId {
    type Err = ParseIssueIdError;

    fn from_str(s: &str) -> (r: Result<Self, Self::Err>)
        ensures
            r is Ok <==> valid_issue_id(s@),
            match r {
                Ok(id) => id@ == s@,
                Err(e) => check_issue_id(s@) == Err::<(), ParseIssueIdError>(e),
            },
    {
        IssueId::parse(s)
    }
}

impl Clone for IssueId {
    fn clone(&self) -> (r: Self)
        ensures
            r@ == self@,
    {
        self.duplicate()
    }
}

impl TryFrom<String> for IssueId {
    type Error = ParseIssueIdError;

    fn try_from(s: String) -> (r: Result<Self, Self::Error>)
        ensures
            r == IssueId::spec_from_string(s),
            r is Ok <==> valid_issue_id(s@),
            match r {
                Ok(id) => id@ == s@,
                Err(e) => check_issue_id(s@) == Err::<(), ParseIssueIdError>(e),
            },
    {
        IssueId::from_string(s)
    }
}

impl vstd::std_specs::convert::TryFromSpecImpl<String> for IssueId {
    open spec fn obeys_try_from_spec() -> bool {
        true
    }

    open spec fn try_from_spec(v: String) -> Result<Self, Self::Error> {
        IssueId::spec_from_string(v)
    }
}

} // verus!
