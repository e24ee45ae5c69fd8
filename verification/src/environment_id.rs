//! Validated identifiers for configured execution environments.
//!
//! Environment identifiers are opaque strings. Their contents are not parsed
//! for routing or filesystem semantics, but the shared type enforces the
//! boundary constraints required wherever an identifier is persisted or
//! embedded in a resource URI.

use vstd::prelude::*;

use crate::text;

verus! {

/// Maximum UTF-8 byte length accepted for an environment identifier.
pub const MAX_ENVIRONMENT_ID_LEN: usize = 64;

/// An opaque identifier for a configured execution environment.
///
/// The URI path dot segments `.` and `..` are excluded so every valid
/// identifier can be embedded as a single hierarchical URI path segment
/// without changing the meaning of the surrounding path.
#[derive(Clone, Debug, PartialEq, Eq, PartialOrd, Ord, Hash)]
pub struct EnvironmentId(String);

impl View for EnvironmentId {
    type V = Seq<char>;

    closed spec fn view(&self) -> Seq<char> {
        self.0@
    }
}

/// Why an identifier was refused.
#[derive(Clone, Debug, PartialEq, Eq)]
pub enum EnvironmentIdError {
    Empty,
    DotSegment(String),
    TooLong { length: usize, max_length: usize },
}

/// The mathematical counterpart of [`EnvironmentIdError`].
pub enum IdFault {
    Empty,
    DotSegment(Seq<char>),
    TooLong { length: nat, max_length: nat },
}

impl View for EnvironmentIdError {
    type V = IdFault;

    open spec fn view(&self) -> IdFault {
        match self {
            EnvironmentIdError::Empty => IdFault::Empty,
            EnvironmentIdError::DotSegment(id) => IdFault::DotSegment(id@),
            EnvironmentIdError::TooLong { length, max_length } => IdFault::TooLong {
                length: *length as nat,
                max_length: *max_length as nat,
            },
        }
    }
}

/// Why `id` is not an identifier.
pub open spec fn id_fault(id: Seq<char>) -> Option<IdFault> {
    if id.len() == 0 {
        Some(IdFault::Empty)
    } else if id == seq!['.'] || id == seq!['.', '.'] {
        Some(IdFault::DotSegment(id))
    } else if text::utf8_len(id) > MAX_ENVIRONMENT_ID_LEN {
        Some(
            IdFault::TooLong {
                length: text::utf8_len(id),
                max_length: MAX_ENVIRONMENT_ID_LEN as nat,
            },
        )
    } else {
        None
    }
}

/// What is said of a refused identifier.
pub open spec fn id_message(fault: IdFault) -> Seq<char> {
    match fault {
        IdFault::Empty => "environment id cannot be empty"@,
        IdFault::DotSegment(id) => "environment id `"@ + id
            + "` cannot be a URI path dot segment"@,
        IdFault::TooLong { length, max_length } => "environment id is "@ + text::decimal(length)
            + " bytes; maximum length is "@ + text::decimal(max_length),
    }
}

impl EnvironmentIdError {
    /// What went wrong, in words.
    pub fn message(&self) -> (r: String)
        ensures
            r@ == id_message(self@),
    {
        match self {
            EnvironmentIdError::Empty => "environment id cannot be empty".to_owned(),
            EnvironmentIdError::DotSegment(id) => {
                let mut m: String = "environment id `".to_owned();
                m.append(id.as_str());
                m.append("` cannot be a URI path dot segment");
                m
            },
            EnvironmentIdError::TooLong { length, max_length } => {
                let mut m: String = "environment id is ".to_owned();
                m.append(text::decimal_text(*length as u64).as_str());
                m.append(" bytes; maximum length is ");
                m.append(text::decimal_text(*max_length as u64).as_str());
                m
            },
        }
    }
}

/// Refuses a string that cannot identify an environment.
pub fn validate_environment_id(id: &str) -> (r: Result<(), EnvironmentIdError>)
    ensures
        match r {
            Ok(()) => id_fault(id@) is None,
            Err(e) => id_fault(id@) == Some(e@),
        },
{
    let chars = text::chars_of(id);
    if chars.len() == 0 {
        return Err(EnvironmentIdError::Empty);
    }
    let one = ['.'];
    let two = ['.', '.'];
    assert(one@ == seq!['.']);
    assert(two@ == seq!['.', '.']);
    if text::same(&chars, &one) || text::same(&chars, &two) {
        return Err(EnvironmentIdError::DotSegment(id.to_owned()));
    }
    let length: usize = id.as_bytes().len();
    if length > MAX_ENVIRONMENT_ID_LEN {
        return Err(
            EnvironmentIdError::TooLong { length, max_length: MAX_ENVIRONMENT_ID_LEN },
        );
    }
    Ok(())
}

impl EnvironmentId {
    pub fn new(id: &str) -> (r: Result<Self, EnvironmentIdError>)
        ensures
            match r {
                Ok(v) => id_fault(id@) is None && v@ == id@,
                Err(e) => id_fault(id@) == Some(e@),
            },
    {
        match validate_environment_id(id) {
            Ok(()) => Ok(EnvironmentId(id.to_owned())),
            Err(e) => Err(e),
        }
    }

    pub fn as_str(&self) -> (r: &str)
        ensures
            r@ == self@,
    {
        self.0.as_str()
    }
}

/// An identifier is any text of one to 64 bytes but for the two dot segments, and a
/// refusal says which of the three it breaks.
pub proof fn law_what_an_identifier_is(id: Seq<char>)
    ensures
        id_fault(id) is None <==> id.len() > 0 && text::utf8_len(id) <= 64 && id != seq!['.'] && id
            != seq!['.', '.'],
        id.len() == 0 ==> id_fault(id) == Some(IdFault::Empty),
        id == seq!['.'] || id == seq!['.', '.'] ==> id_fault(id) == Some(IdFault::DotSegment(id)),
        id.len() > 2 && text::utf8_len(id) > 64 ==> id_fault(id) == Some(
            IdFault::TooLong { length: text::utf8_len(id), max_length: 64 },
        ),
{
}

} // verus!
