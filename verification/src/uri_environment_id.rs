//! Identifiers of remote environments as path URIs carry them.
//!
//! Identifiers are opaque strings, with two exceptions. The word `local` stands
//! for the current host, so it never names a remote environment, and a dot
//! cannot stand in an identifier.

use vstd::prelude::*;

use crate::text;

verus! {

/// Maximum encoded environment identifier length accepted at URI boundaries.
pub const MAX_ENVIRONMENT_ID_LEN: usize = 64;

/// The identifier of the current host, which no remote environment can have.
pub const LOCAL_ENVIRONMENT_ID: &'static str = "local";

/// An opaque identifier for a configured remote environment.
///
/// The URI path dot segments `.` and `..` are excluded because URL parsers
/// normalize them before the identifier can be recovered.
#[derive(Clone, Debug, PartialEq, Eq, PartialOrd, Ord, Hash)]
pub struct EnvironmentId(String);

impl View for EnvironmentId {
    type V = Seq<char>;

    closed spec fn view(&self) -> Seq<char> {
        self.0@
    }
}

/// Why an identifier was refused.
#[derive(Clone, Debug, PartialEq, Eq)]
pub enum EnvironmentIdError {
    Empty,
    DotSegment(String),
    TooLong { length: usize, max_length: usize },
    Reserved(String),
    InvalidCharacter(String),
}

/// The mathematical counterpart of [`EnvironmentIdError`].
pub enum IdFault {
    Empty,
    DotSegment(Seq<char>),
    TooLong { length: nat, max_length: nat },
    Reserved(Seq<char>),
    InvalidCharacter(Seq<char>),
}

impl View for EnvironmentIdError {
    type V = IdFault;

    open spec fn view(&self) -> IdFault {
        match self {
            EnvironmentIdError::Empty => IdFault::Empty,
            EnvironmentIdError::DotSegment(id) => IdFault::DotSegment(id@),
            EnvironmentIdError::TooLong { length, max_length } => IdFault::TooLong {
                length: *length as nat,
                max_length: *max_length as nat,
            },
            EnvironmentIdError::Reserved(id) => IdFault::Reserved(id@),
            EnvironmentIdError::InvalidCharacter(id) => IdFault::InvalidCharacter(id@),
        }
    }
}

/// Why `id` is not an identifier.
pub open spec fn id_fault(id: Seq<char>) -> Option<IdFault> {
    if id.len() == 0 {
        Some(IdFault::Empty)
    } else if id == seq!['.'] || id == seq!['.', '.'] {
        Some(IdFault::DotSegment(id))
    } else if text::utf8_len(id) > MAX_ENVIRONMENT_ID_LEN {
        Some(
            IdFault::TooLong {
                length: text::utf8_len(id),
                max_length: MAX_ENVIRONMENT_ID_LEN as nat,
            },
        )
    } else if id == LOCAL_ENVIRONMENT_ID@ {
        Some(IdFault::Reserved(id))
    } else if id.contains('.') {
        Some(IdFault::InvalidCharacter(id))
    } else {
        None
    }
}

/// What is said of a refused identifier.
pub open spec fn id_message(fault: IdFault) -> Seq<char> {
    match fault {
        IdFault::Empty => "environment id cannot be empty"@,
        IdFault::DotSegment(id) => "environment id `"@ + id
            + "` cannot be a URI path dot segment"@,
        IdFault::TooLong { length, max_length } => "environment id is "@ + text::decimal(length)
            + " bytes; maximum length is "@ + text::decimal(max_length),
        IdFault::Reserved(id) => "environment id `"@ + id + "` is reserved"@,
        IdFault::InvalidCharacter(id) => "environment id `"@ + id + "` cannot contain a dot"@,
    }
}

impl EnvironmentIdError {
    /// What went wrong, in words.
    pub fn message(&self) -> (r: String)
        ensures
            r@ == id_message(self@),
    {
        match self {
            EnvironmentIdError::Empty => "environment id cannot be empty".to_owned(),
            EnvironmentIdError::DotSegment(id) => {
                let mut m: String = "environment id `".to_owned();
                m.append(id.as_str());
                m.append("` cannot be a URI path dot segment");
                m
            },
            EnvironmentIdError::TooLong { length, max_length } => {
                let mut m: String = "environment id is ".to_owned();
                m.append(text::decimal_text(*length as u64).as_str());
                m.append(" bytes; maximum length is ");
                m.append(text::decimal_text(*max_length as u64).as_str());
                m
            },
            EnvironmentIdError::Reserved(id) => {
                let mut m: String = "environment id `".to_owned();
                m.append(id.as_str());
                m.append("` is reserved");
                m
            },
            EnvironmentIdError::InvalidCharacter(id) => {
                let mut m: String = "environment id `".to_owned();
                m.append(id.as_str());
                m.append("` cannot contain a dot");
                m
            },
        }
    }
}

/// Refuses a string that cannot identify an environment.
pub fn validate_environment_id(id: &str) -> (r: Result<(), EnvironmentIdError>)
    ensures
        match r {
            Ok(()) => id_fault(id@) is None,
            Err(e) => id_fault(id@) == Some(e@),
        },
{
    let chars = text::chars_of(id);
    if chars.len() == 0 {
        return Err(EnvironmentIdError::Empty);
    }
    let one = ['.'];
    let two = ['.', '.'];
    assert(one@ == seq!['.']);
    assert(two@ == seq!['.', '.']);
    if text::same(&chars, &one) || text::same(&chars, &two) {
        return Err(EnvironmentIdError::DotSegment(id.to_owned()));
    }
    let length: usize = id.as_bytes().len();
    if length > MAX_ENVIRONMENT_ID_LEN {
        return Err(
            EnvironmentIdError::TooLong { length, max_length: MAX_ENVIRONMENT_ID_LEN },
        );
    }
    if text::is_text(&chars, LOCAL_ENVIRONMENT_ID) {
        return Err(EnvironmentIdError::Reserved(id.to_owned()));
    }
    if text::has_char(&chars, '.') {
        return Err(EnvironmentIdError::InvalidCharacter(id.to_owned()));
    }
    Ok(())
}

impl EnvironmentId {
    pub fn new(id: &str) -> (r: Result<Self, EnvironmentIdError>)
        ensures
            match r {
                Ok(v) => id_fault(id@) is None && v@ == id@,
                Err(e) => id_fault(id@) == Some(e@),
            },
    {
        match validate_environment_id(id) {
            Ok(()) => Ok(EnvironmentId(id.to_owned())),
            Err(e) => Err(e),
        }
    }

    pub fn as_str(&self) -> (r: &str)
        ensures
            r@ == self@,
    {
        self.0.as_str()
    }

    /// Wraps an identifier that was read back from a URI.
    pub(crate) fn from_uri(id: String) -> (r: Self)
        ensures
            r@ == id@,
    {
        EnvironmentId(id)
    }
}

/// An identifier is any text of one to 64 bytes without a dot but for `local`, and a
/// refusal says what it breaks.
pub proof fn law_what_an_identifier_is(id: Seq<char>)
    ensures
        id_fault(id) is None <==> id.len() > 0 && text::utf8_len(id) <= 64 && id != "local"@
            && !id.contains('.'),
        id.len() == 0 ==> id_fault(id) == Some(IdFault::Empty),
        id == seq!['.'] || id == seq!['.', '.'] ==> id_fault(id) == Some(IdFault::DotSegment(id)),
        id.len() > 2 && text::utf8_len(id) > 64 ==> id_fault(id) == Some(
            IdFault::TooLong { length: text::utf8_len(id), max_length: 64 },
        ),
        id == "local"@ ==> id_fault(id) == Some(IdFault::Reserved(id)),
        id.len() > 2 && text::utf8_len(id) <= 64 && id.contains('.') ==> id_fault(id) == Some(
            IdFault::InvalidCharacter(id),
        ),
{
    reveal_strlit("local");
    vstd::utf8::is_ascii_chars_encode_utf8("local"@);
    assert(text::utf8_len("local"@) == 5);
    assert(seq!['.'][0] == '.');
    assert(seq!['.', '.'][0] == '.');
    if id == "local"@ {
        assert(!id.contains('.'));
    }
}

} // verus!
