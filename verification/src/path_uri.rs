//! Typed URIs for paths on the current host and in configured environments.
//!
//! `file:` URI paths are stored in URI syntax, so they can be parsed
//! independently of the current host. Their path spelling stays lexical because
//! `/C:/src` can mean either a Windows drive path or a valid POSIX path; native
//! conversion is the point where host path rules are applied. The text of a
//! `file:` URI has to name the current host: a different authority is refused.
//! The URI of a native path on a Windows server keeps the server.
//!
//! Remote paths use `codex-env:` URIs containing an environment identifier and
//! a normalized hierarchical path. Environment paths always use `/` separators,
//! so basename, parent, join, and comparison operations do not depend on the
//! operating system.

use vstd::prelude::*;
use vstd::utf8::*;

use crate::environment_path;
use crate::environment_path::PathFault;
pub use crate::environment_path::{EnvironmentPath, EnvironmentPathError, PathFlavor};
use crate::path_uri_laws;
use crate::percent;
use crate::text;
use crate::uri_environment_id;
use crate::uri_environment_id::IdFault;
pub use crate::uri_environment_id::{EnvironmentId, EnvironmentIdError, MAX_ENVIRONMENT_ID_LEN};
use crate::url_parts;
use crate::url_parts::{UrlModel, UrlParts};

verus! {

pub const FILE_SCHEME: &'static str = "file";

pub const CODEX_ENVIRONMENT_SCHEME: &'static str = "codex-env";

/// The URL without an identifier and path.
pub const ENVIRONMENT_BASE: &'static str = "codex-env:///";

/// The `file:` URL without a path.
pub const FILE_BASE: &'static str = "file:///";

/// A URI that can identify a path in the current host or another environment.
///
/// Construction is fallible and only succeeds for schemes understood by this
/// version of the crate. This keeps [`PathUri::view`] infallible and exhaustive.
#[derive(Clone, Debug, PartialEq, Eq, Hash)]
pub struct PathUri {
    url: UrlParts,
}

impl PathUri {
    /// The URL behind the URI.
    pub closed spec fn model(&self) -> UrlModel {
        self.url@
    }
}

/// Why a path URI was refused.
#[derive(Clone, Debug, PartialEq, Eq)]
pub enum PathUriParseError {
    /// Not a URL at all, with the reason.
    InvalidUri(String),
    UnsupportedScheme(String),
    PathCannotBeRepresentedAsFileUri,
    InvalidFileUriPath,
    FileUriMustReferenceCurrentHost,
    EnvironmentUriMustNotHaveAuthority,
    InvalidEnvironmentUriPath,
    CredentialsOrPortNotAllowed,
    QueryNotAllowed,
    FragmentNotAllowed,
    InvalidEnvironmentId(EnvironmentIdError),
    InvalidEnvironmentPath(EnvironmentPathError),
}

/// The mathematical counterpart of [`PathUriParseError`].
pub enum UriFault {
    InvalidUri(Seq<char>),
    UnsupportedScheme(Seq<char>),
    PathCannotBeRepresentedAsFileUri,
    InvalidFileUriPath,
    FileUriMustReferenceCurrentHost,
    EnvironmentUriMustNotHaveAuthority,
    InvalidEnvironmentUriPath,
    CredentialsOrPortNotAllowed,
    QueryNotAllowed,
    FragmentNotAllowed,
    InvalidEnvironmentId(IdFault),
    InvalidEnvironmentPath(PathFault),
}

impl View for PathUriParseError {
    type V = UriFault;

    open spec fn view(&self) -> UriFault {
        match self {
            PathUriParseError::InvalidUri(m) => UriFault::InvalidUri(m@),
            PathUriParseError::UnsupportedScheme(s) => UriFault::UnsupportedScheme(s@),
            PathUriParseError::PathCannotBeRepresentedAsFileUri => {
                UriFault::PathCannotBeRepresentedAsFileUri
            },
            PathUriParseError::InvalidFileUriPath => UriFault::InvalidFileUriPath,
            PathUriParseError::FileUriMustReferenceCurrentHost => {
                UriFault::FileUriMustReferenceCurrentHost
            },
            PathUriParseError::EnvironmentUriMustNotHaveAuthority => {
                UriFault::EnvironmentUriMustNotHaveAuthority
            },
            PathUriParseError::InvalidEnvironmentUriPath => UriFault::InvalidEnvironmentUriPath,
            PathUriParseError::CredentialsOrPortNotAllowed => {
                UriFault::CredentialsOrPortNotAllowed
            },
            PathUriParseError::QueryNotAllowed => UriFault::QueryNotAllowed,
            PathUriParseError::FragmentNotAllowed => UriFault::FragmentNotAllowed,
            PathUriParseError::InvalidEnvironmentId(e) => UriFault::InvalidEnvironmentId(e@),
            PathUriParseError::InvalidEnvironmentPath(e) => UriFault::InvalidEnvironmentPath(e@),
        }
    }
}

/// What is said of a refused URI.
pub open spec fn uri_message(fault: UriFault) -> Seq<char> {
    match fault {
        UriFault::InvalidUri(m) => "invalid URI: "@ + m,
        UriFault::UnsupportedScheme(s) => "unsupported path URI scheme `"@ + s + "`"@,
        UriFault::PathCannotBeRepresentedAsFileUri => {
            "path cannot be represented as a file URI"@
        },
        UriFault::InvalidFileUriPath => "file URI contains an invalid absolute path"@,
        UriFault::FileUriMustReferenceCurrentHost => {
            "file URI must reference the current host"@
        },
        UriFault::EnvironmentUriMustNotHaveAuthority => {
            "environment URI must not have an authority"@
        },
        UriFault::InvalidEnvironmentUriPath => {
            "environment URI must contain an environment id and absolute path"@
        },
        UriFault::CredentialsOrPortNotAllowed => {
            "credentials and ports are not allowed in path URIs"@
        },
        UriFault::QueryNotAllowed => "query parameters are not allowed in path URIs"@,
        UriFault::FragmentNotAllowed => "fragments are not allowed in path URIs"@,
        UriFault::InvalidEnvironmentId(f) => uri_environment_id::id_message(f),
        UriFault::InvalidEnvironmentPath(f) => environment_path::fault_message(f),
    }
}

impl PathUriParseError {
    /// What went wrong, in words.
    pub fn message(&self) -> (r: String)
        ensures
            r@ == uri_message(self@),
    {
        match self {
            PathUriParseError::InvalidUri(m) => {
                let mut r: String = "invalid URI: ".to_owned();
                r.append(m.as_str());
                r
            },
            PathUriParseError::UnsupportedScheme(s) => {
                let mut r: String = "unsupported path URI scheme `".to_owned();
                r.append(s.as_str());
                r.append("`");
                r
            },
            PathUriParseError::PathCannotBeRepresentedAsFileUri => {
                "path cannot be represented as a file URI".to_owned()
            },
            PathUriParseError::InvalidFileUriPath => {
                "file URI contains an invalid absolute path".to_owned()
            },
            PathUriParseError::FileUriMustReferenceCurrentHost => {
                "file URI must reference the current host".to_owned()
            },
            PathUriParseError::EnvironmentUriMustNotHaveAuthority => {
                "environment URI must not have an authority".to_owned()
            },
            PathUriParseError::InvalidEnvironmentUriPath => {
                "environment URI must contain an environment id and absolute path".to_owned()
            },
            PathUriParseError::CredentialsOrPortNotAllowed => {
                "credentials and ports are not allowed in path URIs".to_owned()
            },
            PathUriParseError::QueryNotAllowed => {
                "query parameters are not allowed in path URIs".to_owned()
            },
            PathUriParseError::FragmentNotAllowed => {
                "fragments are not allowed in path URIs".to_owned()
            },
            PathUriParseError::InvalidEnvironmentId(e) => e.message(),
            PathUriParseError::InvalidEnvironmentPath(e) => e.message(),
        }
    }
}

/// A closed view over the path URI schemes understood by this crate.
#[derive(Clone, Debug, PartialEq, Eq)]
#[non_exhaustive]
pub enum PathUriView {
    File(FileUriView),
    Environment(EnvironmentUriView),
}

/// A `file:` URI taken apart.
#[derive(Clone, Debug, PartialEq, Eq)]
pub struct FileUriView {
    path: EnvironmentPath,
    url: UrlParts,
}

/// A `codex-env:` URI taken apart.
#[derive(Clone, Debug, PartialEq, Eq)]
pub struct EnvironmentUriView {
    environment_id: EnvironmentId,
    path: EnvironmentPath,
}

/// The mathematical counterpart of [`PathUriView`].
pub enum UriView {
    File { path: Seq<char>, url: UrlModel },
    Environment { environment_id: Seq<char>, path: Seq<char> },
}

impl FileUriView {
    pub closed spec fn spec_path(&self) -> Seq<char> {
        self.path@
    }

    pub closed spec fn spec_url(&self) -> UrlModel {
        self.url@
    }

    pub fn path(&self) -> (r: &EnvironmentPath)
        ensures
            r@ == self.spec_path(),
    {
        &self.path
    }

    /// The URI that this is a view of.
    pub fn url(&self) -> (r: &UrlParts)
        ensures
            r@ == self.spec_url(),
    {
        &self.url
    }

    /// Converts this file URI to a path using the current host's path rules.
    /// The bytes of the path need not be text.
    pub fn to_native_path(&self) -> (r: Result<Vec<u8>, PathUriParseError>)
        ensures
            is_native_outcome(r, native_bytes(self.spec_url().text, PathFlavor::Posix))
                || is_native_outcome(r, native_bytes(self.spec_url().text, PathFlavor::Windows)),
    {
        let url = match url_parts::parse_url(self.url.text.as_str()) {
            Ok(url) => url,
            Err(_) => {
                return Err(PathUriParseError::InvalidFileUriPath);
            },
        };
        let scheme = text::chars_of(url.scheme.as_str());
        if !text::is_text(&scheme, FILE_SCHEME) {
            return Err(PathUriParseError::InvalidFileUriPath);
        }
        if url.host.is_some() {
            let decoded = percent::decode_binary(url.path.as_str().as_bytes());
            if decoded.len() < 2 || decoded[1] == 47 || decoded[1] == 92 {
                return Err(PathUriParseError::InvalidFileUriPath);
            }
        }
        let path = text::chars_of(url.path.as_str());
        if url.host.is_none() && bare_drive(&path) {
            // A drive alone is a name on POSIX, where `/` has a URL, and no
            // absolute path on Windows.
            if url_parts::native_file_url("/").is_none() {
                return Err(PathUriParseError::InvalidFileUriPath);
            }
            let mut bytes = percent::decode_binary(url.path.as_str().as_bytes());
            proof {
                path_uri_laws::lemma_bare_drive(url@.path);
            }
            bytes.push(47);
            return Ok(bytes);
        }
        match url_parts::native_file_path(self.url.text.as_str()) {
            Some(bytes) => Ok(bytes),
            None => Err(PathUriParseError::InvalidFileUriPath),
        }
    }
}

fn bare_drive(path: &[char]) -> (r: bool)
    ensures
        r == url_parts::is_bare_drive(path@),
{
    path.len() >= 3 && path[0] == '/' && text::ascii_letter(path[1]) && ((path.len() == 3 && path[2]
        == ':') || (path.len() == 5 && path[2] == '%' && path[3] == '3' && (path[4] == 'a'
        || path[4] == 'A')))
}

/// The bytes of the path that the `file:` URL with the serialization `uri` stands
/// for by the path rules of one kind of host.
pub open spec fn native_bytes(uri: Seq<char>, host: PathFlavor) -> Option<Seq<u8>> {
    match url_parts::parsed_url(uri) {
        Ok(u) => if u.scheme != FILE_SCHEME@ {
            None
        } else if u.host is Some && !url_parts::names_share(u.path) {
            None
        } else {
            match host {
                PathFlavor::Posix => url_parts::posix_native(u),
                PathFlavor::Windows => if url_parts::is_askable(u) {
                    url_parts::windows_path_bytes(uri)
                } else {
                    None
                },
            }
        },
        Err(_) => None,
    }
}

/// `r` gives the native path, where there is one.
pub open spec fn is_native_outcome(
    r: Result<Vec<u8>, PathUriParseError>,
    native: Option<Seq<u8>>,
) -> bool {
    match native {
        Some(bytes) => r matches Ok(b) && b@ == bytes,
        None => r matches Err(e) && e@ == UriFault::InvalidFileUriPath,
    }
}

impl EnvironmentUriView {
    pub closed spec fn spec_id(&self) -> Seq<char> {
        self.environment_id@
    }

    pub closed spec fn spec_path(&self) -> Seq<char> {
        self.path@
    }

    pub fn environment_id(&self) -> (r: &EnvironmentId)
        ensures
            r@ == self.spec_id(),
    {
        &self.environment_id
    }

    pub fn path(&self) -> (r: &EnvironmentPath)
        ensures
            r@ == self.spec_path(),
    {
        &self.path
    }
}

impl View for PathUriView {
    type V = UriView;

    open spec fn view(&self) -> UriView {
        match self {
            PathUriView::File(v) => UriView::File { path: v.spec_path(), url: v.spec_url() },
            PathUriView::Environment(v) => UriView::Environment {
                environment_id: v.spec_id(),
                path: v.spec_path(),
            },
        }
    }
}

// ---------------------------------------------------------------------------
// Cutting a text at a character
// ---------------------------------------------------------------------------
/// What stands before and after the first `c` in `s`.
pub open spec fn cut(s: Seq<char>, c: char) -> Option<(Seq<char>, Seq<char>)>
    decreases s.len(),
{
    if s.len() == 0 {
        None
    } else if s[0] == c {
        Some((Seq::empty(), s.skip(1)))
    } else {
        match cut(s.skip(1), c) {
            Some((before, after)) => Some((seq![s[0]] + before, after)),
            None => None,
        }
    }
}

pub proof fn lemma_cut_at(s: Seq<char>, c: char, at: int)
    requires
        0 <= at < s.len(),
        s[at] == c,
        forall|k: int| 0 <= k < at ==> s[k] != c,
    ensures
        cut(s, c) == Some((s.take(at), s.skip(at + 1))),
    decreases s.len(),
{
    if at == 0 {
        assert(s.take(0) =~= Seq::<char>::empty());
    } else {
        let t = s.skip(1);
        assert forall|k: int| 0 <= k < at - 1 implies t[k] != c by {
            assert(t[k] == s[k + 1]);
        }
        assert(t[at - 1] == s[at]);
        lemma_cut_at(t, c, at - 1);
        assert(seq![s[0]] + t.take(at - 1) =~= s.take(at));
        assert(t.skip(at) =~= s.skip(at + 1));
    }
}

pub proof fn lemma_cut_none(s: Seq<char>, c: char)
    ensures
        cut(s, c) is None <==> !s.contains(c),
    decreases s.len(),
{
    if s.len() > 0 {
        let t = s.skip(1);
        lemma_cut_none(t, c);
        if s[0] != c {
            if s.contains(c) {
                let k = choose|k: int| 0 <= k < s.len() && s[k] == c;
                assert(t[k - 1] == c);
            }
            if t.contains(c) {
                let k = choose|k: int| 0 <= k < t.len() && t[k] == c;
                assert(s[k + 1] == c);
            }
        } else {
            assert(s.contains(c));
        }
    }
}

pub(crate) fn cut_chars(s: &[char], c: char) -> (r: Option<(Vec<char>, Vec<char>)>)
    ensures
        match r {
            Some((a, b)) => cut(s@, c) == Some((a@, b@)),
            None => cut(s@, c) is None,
        },
{
    let total: usize = s.len();
    match text::position_of(s, c) {
        Some(at) => {
            let before = text::part(s, 0, at);
            let after = text::part(s, at + 1, total);
            proof {
                assert forall|k: int| 0 <= k < at implies s@[k] != c by {
                    assert(s@.take(at as int)[k] == s@[k]);
                    assert(s@.take(at as int).contains(s@.take(at as int)[k]));
                }
                lemma_cut_at(s@, c, at as int);
                assert(before@ == s@.take(at as int));
                assert(after@ == s@.skip(at + 1));
            }
            Some((before, after))
        },
        None => {
            proof {
                lemma_cut_none(s@, c);
            }
            None
        },
    }
}

// ---------------------------------------------------------------------------
// Schemes
// ---------------------------------------------------------------------------
/// Whether `s` is spelled like a URI scheme.
pub open spec fn is_scheme(s: Seq<char>) -> bool {
    &&& s.len() > 0
    &&& text::is_ascii_letter(s[0])
    &&& forall|i: int|
        0 < i < s.len() ==> text::is_ascii_letter(#[trigger] s[i]) || text::is_ascii_digit(s[i])
            || s[i] == '+' || s[i] == '-' || s[i] == '.'
}

/// The scheme of `uri`.
pub open spec fn scheme_of(uri: Seq<char>) -> Option<Seq<char>> {
    match cut(uri, ':') {
        Some((scheme, _)) => if is_scheme(scheme) {
            Some(scheme)
        } else {
            None
        },
        None => None,
    }
}

/// Whether `value` reads as a URI and not as a path: it has a scheme, and that
/// is not a drive letter.
pub open spec fn reads_as_uri(value: Seq<char>) -> bool {
    match scheme_of(value) {
        Some(scheme) => !(scheme.len() == 1 && value.len() > 2 && (value[2] == '/' || value[2]
            == '\\')),
        None => false,
    }
}

fn scheme_chars(uri: &[char]) -> (r: Option<Vec<char>>)
    ensures
        match r {
            Some(s) => scheme_of(uri@) == Some(s@),
            None => scheme_of(uri@) is None,
        },
{
    match cut_chars(uri, ':') {
        Some((scheme, rest)) => {
            if scheme.len() == 0 || !text::ascii_letter(scheme[0]) {
                return None;
            }
            let mut i: usize = 1;
            while i < scheme.len()
                invariant
                    1 <= i <= scheme@.len(),
                    cut(uri@, ':') == Some((scheme@, rest@)),
                    forall|k: int|
                        0 < k < i ==> text::is_ascii_letter(#[trigger] scheme@[k])
                            || text::is_ascii_digit(scheme@[k]) || scheme@[k] == '+' || scheme@[k]
                            == '-' || scheme@[k] == '.',
                decreases scheme.len() - i,
            {
                let c = scheme[i];
                if !(text::ascii_letter(c) || text::ascii_digit(c) || c == '+' || c == '-' || c
                    == '.') {
                    assert(!is_scheme(scheme@));
                    return None;
                }
                i += 1;
            }
            Some(scheme)
        },
        None => None,
    }
}

/// The scheme of `uri`.
pub fn uri_scheme(uri: &str) -> (r: Option<String>)
    ensures
        match r {
            Some(s) => scheme_of(uri@) == Some(s@),
            None => scheme_of(uri@) is None,
        },
{
    let chars = text::chars_of(uri);
    match scheme_chars(&chars) {
        Some(s) => Some(text::string_of(&s)),
        None => None,
    }
}

/// Whether `value` reads as a URI and not as a path.
pub fn looks_like_uri(value: &str) -> (r: bool)
    ensures
        r == reads_as_uri(value@),
{
    let chars = text::chars_of(value);
    match scheme_chars(&chars) {
        Some(s) => !(s.len() == 1 && chars.len() > 2 && (chars[2] == '/' || chars[2] == '\\')),
        None => false,
    }
}

// ---------------------------------------------------------------------------
// File URIs
// ---------------------------------------------------------------------------
/// What no path URI may have.
pub open spec fn common_fault(u: UrlModel) -> Option<UriFault> {
    if u.username.len() > 0 || u.password is Some || u.port is Some {
        Some(UriFault::CredentialsOrPortNotAllowed)
    } else if u.query is Some {
        Some(UriFault::QueryNotAllowed)
    } else if u.fragment is Some {
        Some(UriFault::FragmentNotAllowed)
    } else {
        None
    }
}

/// Why `u` is not a `file:` URL to use.
pub open spec fn file_url_fault(u: UrlModel) -> Option<UriFault> {
    if common_fault(u) is Some {
        common_fault(u)
    } else if percent::has_bad_escape(u.path) || percent::has_escaped_slash(u.path) {
        Some(UriFault::InvalidFileUriPath)
    } else if percent::percent_decoded(encode_utf8(u.path)).contains(0) {
        Some(UriFault::InvalidFileUriPath)
    } else {
        None
    }
}

/// Whether `u` names a host other than `localhost`.
pub open spec fn names_other_host(u: UrlModel) -> bool {
    u.host matches Some(h) && h != "localhost"@
}

/// The path that a `file:` URL stands for, or why it stands for none.
pub open spec fn file_path(u: UrlModel) -> Result<Seq<char>, UriFault> {
    match file_url_fault(u) {
        Some(fault) => Err(fault),
        None => match (if names_other_host(u) {
            environment_path::new_path(decoded_file_path(u))
        } else {
            environment_path::posix_path(percent::decoded_or_kept(u.path))
        }) {
            Ok(p) => Ok(p),
            Err(_) => Err(UriFault::InvalidFileUriPath),
        },
    }
}

/// What stands behind the authority of a URL.
pub open spec fn after_authority(u: UrlModel) -> Seq<char> {
    let with_query = match u.query {
        Some(q) => u.path + "?"@ + q,
        None => u.path,
    };
    match u.fragment {
        Some(f) => with_query + "#"@ + f,
        None => with_query,
    }
}

/// The canonical form of a `file:` URL: the host `localhost` is left out.
pub open spec fn canonical_file(u: UrlModel) -> UrlModel {
    if u.host == Some("localhost"@) {
        UrlModel { host: None, text: "file://"@ + after_authority(u), ..u }
    } else {
        u
    }
}

/// The decoded path of a `file:` URL, behind its host if it names one.
pub open spec fn decoded_file_path(u: UrlModel) -> Seq<char> {
    let path = percent::decoded_or_kept(u.path);
    match u.host {
        Some(h) => if h != "localhost"@ {
            "//"@ + h + path
        } else {
            path
        },
        None => path,
    }
}

/// The URI of a path on a host with paths of the kind `host`, which has the
/// URL `native` there. Windows drive paths are normalized.
pub open spec fn native_file_uri(
    native: Option<UrlModel>,
    path: Seq<char>,
    host: PathFlavor,
) -> Result<UrlModel, UriFault> {
    match native {
        None => Err(UriFault::PathCannotBeRepresentedAsFileUri),
        Some(u) => if host is Windows && u.host is None {
            match environment_path::windows_path(path) {
                Err(fault) => Err(UriFault::InvalidEnvironmentPath(fault)),
                Ok(p) => Ok(url_parts::url_with_path(FILE_BASE@, percent::percent_escaped(p))),
            }
        } else {
            accepted(u)
        },
    }
}

/// The `file:` URL of a path.
pub fn file_url(path: &EnvironmentPath) -> (r: UrlParts)
    requires
        9 * text::utf8_len(path@) + 16 <= u32::MAX,
    ensures
        r@ == url_parts::url_with_path(FILE_BASE@, percent::percent_escaped(path@)),
        url_parts::is_plain_drive_path(path@) ==> r@ == path_uri_laws::drive_url(path@)
            && url_parts::parses_back(r@),
{
    let chars = text::chars_of(path.as_str());
    let mut escaped: String = String::new();
    let mut i: usize = 0;
    while i < chars.len()
        invariant
            i <= chars@.len(),
            escaped@ == percent::percent_escaped(chars@.take(i as int)),
        decreases chars.len() - i,
    {
        proof {
            assert(chars@.take(i + 1).drop_last() == chars@.take(i as int));
            assert(chars@.take(i + 1).last() == chars@[i as int]);
        }
        if chars[i] == '%' {
            proof {
                reveal_strlit("%25");
                assert("%25"@ =~= seq!['%', '2', '5']);
            }
            escaped.append("%25");
        } else {
            escaped.push(chars[i]);
        }
        i += 1;
    }
    assert(chars@.take(chars@.len() as int) == chars@);
    proof {
        lemma_escaped_size(path@);
    }
    url_parts::set_path(FILE_BASE, escaped.as_str())
}

fn is_localhost(host: &String) -> (r: bool)
    ensures
        r == (host@ == "localhost"@),
{
    let chars = text::chars_of(host.as_str());
    text::is_text(&chars, "localhost")
}

/// Refuses what no path URI may have.
pub fn validate_common_known_uri(url: &UrlParts) -> (r: Result<(), PathUriParseError>)
    ensures
        match r {
            Ok(()) => common_fault(url@) is None,
            Err(e) => common_fault(url@) == Some(e@),
        },
{
    let no_username = url.username.as_str().is_empty();
    if !no_username || url.password.is_some() || url.port.is_some() {
        return Err(PathUriParseError::CredentialsOrPortNotAllowed);
    }
    if url.query.is_some() {
        return Err(PathUriParseError::QueryNotAllowed);
    }
    if url.fragment.is_some() {
        return Err(PathUriParseError::FragmentNotAllowed);
    }
    Ok(())
}

fn has_zero(bytes: &Vec<u8>) -> (r: bool)
    ensures
        r == bytes@.contains(0),
{
    let mut i: usize = 0;
    while i < bytes.len()
        invariant
            i <= bytes@.len(),
            forall|k: int| 0 <= k < i ==> bytes@[k] != 0,
        decreases bytes.len() - i,
    {
        if bytes[i] == 0 {
            assert(bytes@[i as int] == 0);
            return true;
        }
        i += 1;
    }
    false
}

/// Refuses a `file:` URL that is not to be used.
pub fn validate_file_url(url: &UrlParts) -> (r: Result<(), PathUriParseError>)
    ensures
        match r {
            Ok(()) => file_url_fault(url@) is None,
            Err(e) => file_url_fault(url@) == Some(e@),
        },
{
    match validate_common_known_uri(url) {
        Ok(()) => {},
        Err(e) => {
            return Err(e);
        },
    }
    let path = text::chars_of(url.path.as_str());
    if percent::has_invalid_percent_encoding(&path) || percent::contains_percent_encoded_slash(
        &path,
    ) {
        return Err(PathUriParseError::InvalidFileUriPath);
    }
    let decoded = percent::decode_binary(url.path.as_str().as_bytes());
    if has_zero(&decoded) {
        return Err(PathUriParseError::InvalidFileUriPath);
    }
    Ok(())
}

/// The path that a `file:` URL stands for.
pub fn parse_file_path(url: &UrlParts) -> (r: Result<EnvironmentPath, PathUriParseError>)
    ensures
        match r {
            Ok(p) => file_path(url@) == Ok::<Seq<char>, UriFault>(p@),
            Err(e) => file_path(url@) == Err::<Seq<char>, UriFault>(e@),
        },
{
    match validate_file_url(url) {
        Ok(()) => {},
        Err(e) => {
            return Err(e);
        },
    }
    match &url.host {
        Some(host) => if !is_localhost(host) {
            let path = decode_file_uri_path(url);
            return match EnvironmentPath::new(path.as_str()) {
                Ok(p) => Ok(p),
                Err(_) => Err(PathUriParseError::InvalidFileUriPath),
            };
        },
        None => {},
    }
    let path = percent::decode_uri_path(url.path.as_str());
    match EnvironmentPath::posix(path.as_str()) {
        Ok(p) => Ok(p),
        Err(_) => Err(PathUriParseError::InvalidFileUriPath),
    }
}

/// The decoded path of a `file:` URL, behind its host if it names one.
pub fn decode_file_uri_path(url: &UrlParts) -> (r: String)
    ensures
        r@ == decoded_file_path(url@),
{
    let path = percent::decode_uri_path(url.path.as_str());
    match &url.host {
        Some(host) => if !is_localhost(host) {
            let mut whole: String = "//".to_owned();
            whole.append(host.as_str());
            whole.append(path.as_str());
            return whole;
        },
        None => {},
    }
    path
}

fn foreign_file(url: &UrlParts) -> (r: bool)
    ensures
        r == is_foreign_file(url@),
{
    let scheme = text::chars_of(url.scheme.as_str());
    if !text::is_text(&scheme, FILE_SCHEME) || validate_file_url(url).is_err() {
        return false;
    }
    match &url.host {
        Some(host) => !is_localhost(host),
        None => false,
    }
}

/// The canonical form of a `file:` URL.
pub fn canonical_file_url(url: UrlParts) -> (r: UrlParts)
    ensures
        r@ == canonical_file(url@),
{
    let local = match &url.host {
        Some(host) => is_localhost(host),
        None => false,
    };
    if !local {
        return url;
    }
    let mut whole: String = "file://".to_owned();
    whole.append(url.path.as_str());
    if let Some(query) = &url.query {
        whole.append("?");
        whole.append(query.as_str());
    }
    if let Some(fragment) = &url.fragment {
        whole.append("#");
        whole.append(fragment.as_str());
    }
    assert(whole@ =~= "file://"@ + after_authority(url@));
    UrlParts { host: None, text: whole, ..url }
}

// ---------------------------------------------------------------------------
// Environment URIs
// ---------------------------------------------------------------------------
/// The names between the slashes of a path, behind its leading slash.
pub open spec fn path_segments(path: Seq<char>) -> Seq<Seq<char>> {
    if path.len() > 0 && path[0] == '/' {
        text::split_on(path.skip(1), '/')
    } else {
        seq![Seq::empty()]
    }
}

/// The path segments of an environment URI.
pub open spec fn environment_segments(id: Seq<char>, path: Seq<char>) -> Seq<Seq<char>> {
    seq![id] + path_segments(path)
}

/// The URL of a path in an environment.
pub open spec fn environment_url_of(id: Seq<char>, path: Seq<char>) -> UrlModel {
    url_parts::segmented_url(ENVIRONMENT_BASE@, environment_segments(id, path))
}

/// How many bytes `s` stands for.
pub open spec fn decoded_size(s: Seq<char>) -> nat {
    percent::percent_decoded(encode_utf8(s)).len()
}

/// The identifier and the path that the two parts of an environment URI stand
/// for, where `rest` is what follows the slash behind the identifier.
#[verifier::opaque]
pub open spec fn environment_address(id: Seq<char>, rest: Seq<char>) -> Result<
    (Seq<char>, Seq<char>),
    UriFault,
> {
    if percent::has_escaped_slash(rest) {
        Err(UriFault::InvalidEnvironmentUriPath)
    } else {
        match percent::decoded_text(id) {
            None => Err(UriFault::InvalidEnvironmentUriPath),
            Some(id) => match uri_environment_id::id_fault(id) {
                Some(fault) => Err(UriFault::InvalidEnvironmentId(fault)),
                None => match percent::decoded_text(seq!['/'] + rest) {
                    None => Err(UriFault::InvalidEnvironmentUriPath),
                    Some(path) => match environment_path::new_path(path) {
                        Err(fault) => Err(UriFault::InvalidEnvironmentPath(fault)),
                        Ok(path) => Ok((id, path)),
                    },
                },
            },
        }
    }
}

/// The identifier and the path in a `codex-env:` URL.
pub open spec fn environment_of_url(u: UrlModel) -> Result<(Seq<char>, Seq<char>), UriFault> {
    if common_fault(u) is Some {
        Err(common_fault(u)->0)
    } else if u.host is Some {
        Err(UriFault::EnvironmentUriMustNotHaveAuthority)
    } else if percent::has_bad_escape(u.path) || !(u.path.len() > 0 && u.path[0] == '/') {
        Err(UriFault::InvalidEnvironmentUriPath)
    } else {
        match cut(u.path.skip(1), '/') {
            None => Err(UriFault::InvalidEnvironmentUriPath),
            Some((id, rest)) => environment_address(id, rest),
        }
    }
}

/// The identifier and the path in the text of a `codex-env:` URI.
pub open spec fn environment_of_text(uri: Seq<char>) -> Result<
    (Seq<char>, Seq<char>),
    UriFault,
> {
    match cut(uri, ':') {
        None => Err(UriFault::InvalidEnvironmentUriPath),
        Some((_, remainder)) => if remainder.contains('?') {
            Err(UriFault::QueryNotAllowed)
        } else if remainder.contains('#') {
            Err(UriFault::FragmentNotAllowed)
        } else if !seq!['/', '/', '/'].is_prefix_of(remainder) {
            if seq!['/', '/'].is_prefix_of(remainder) {
                Err(UriFault::EnvironmentUriMustNotHaveAuthority)
            } else {
                Err(UriFault::InvalidEnvironmentUriPath)
            }
        } else {
            match cut(remainder.skip(3), '/') {
                None => Err(UriFault::InvalidEnvironmentUriPath),
                Some((id, rest)) => if percent::has_bad_escape(id) || percent::has_bad_escape(
                    rest,
                ) {
                    Err(UriFault::InvalidEnvironmentUriPath)
                } else {
                    environment_address(id, rest)
                },
            }
        },
    }
}

/// The URL of an address.
pub open spec fn url_of_address(
    address: Result<(Seq<char>, Seq<char>), UriFault>,
) -> Result<UrlModel, UriFault> {
    match address {
        Ok((id, path)) => Ok(environment_url_of(id, path)),
        Err(fault) => Err(fault),
    }
}

/// The path URI that `u` is, in its canonical form.
pub open spec fn accepted(u: UrlModel) -> Result<UrlModel, UriFault> {
    if u.scheme == FILE_SCHEME@ {
        match file_path(u) {
            Err(fault) => Err(fault),
            Ok(_) => Ok(canonical_file(u)),
        }
    } else if u.scheme == CODEX_ENVIRONMENT_SCHEME@ {
        url_of_address(environment_of_url(u))
    } else {
        Err(UriFault::UnsupportedScheme(u.scheme))
    }
}

/// Whether `uri` is spelled with the scheme of environment URIs.
pub open spec fn has_environment_scheme(uri: Seq<char>) -> bool {
    scheme_of(uri) matches Some(s) && text::ascii_lower(s) == CODEX_ENVIRONMENT_SCHEME@
}

/// The path URI that `uri` is, in its canonical form.
pub open spec fn parsed(uri: Seq<char>) -> Result<UrlModel, UriFault> {
    if has_environment_scheme(uri) {
        url_of_address(environment_of_text(uri))
    } else {
        match url_parts::parsed_url(uri) {
            Err(message) => Err(UriFault::InvalidUri(message)),
            Ok(u) => if is_foreign_file(u) {
                Err(UriFault::FileUriMustReferenceCurrentHost)
            } else {
                accepted(u)
            },
        }
    }
}

/// Whether `u` is a `file:` URL on another host, with nothing else wrong.
pub open spec fn is_foreign_file(u: UrlModel) -> bool {
    u.scheme == FILE_SCHEME@ && file_url_fault(u) is None && names_other_host(u)
}

/// What a path URI shows.
pub open spec fn shown(u: UrlModel) -> UriView {
    if u.scheme == FILE_SCHEME@ {
        UriView::File { path: decoded_file_path(u), url: u }
    } else {
        let path = if u.path.len() > 0 && u.path[0] == '/' {
            u.path.skip(1)
        } else {
            Seq::empty()
        };
        let (id, rest) = match cut(path, '/') {
            Some(parts) => parts,
            None => (Seq::empty(), Seq::empty()),
        };
        UriView::Environment {
            environment_id: percent::decoded_or_kept(id),
            path: percent::decoded_or_kept(seq!['/'] + rest),
        }
    }
}

pub open spec fn uri_outcome(r: Result<PathUri, PathUriParseError>) -> Result<
    UrlModel,
    UriFault,
> {
    match r {
        Ok(u) => Ok(u.model()),
        Err(e) => Err(e@),
    }
}

pub open spec fn address_outcome(
    r: Result<(EnvironmentId, EnvironmentPath), PathUriParseError>,
) -> Result<(Seq<char>, Seq<char>), UriFault> {
    match r {
        Ok((id, path)) => Ok((id@, path@)),
        Err(e) => Err(e@),
    }
}

/// Appends the names between the slashes of `path` to `segments`.
pub fn append_path_segments(segments: &mut Vec<String>, path: &EnvironmentPath)
    ensures
        text::views(final(segments)@) == text::views(old(segments)@) + path_segments(path@),
{
    let chars = text::chars_of(path.as_str());
    let total: usize = chars.len();
    let stripped = if total > 0 && chars[0] == '/' {
        text::part(&chars, 1, total)
    } else {
        Vec::new()
    };
    proof {
        if total > 0 && chars@[0] == '/' {
            assert(stripped@ == path@.skip(1));
        } else {
            assert(stripped@ == Seq::<char>::empty());
        }
    }
    let mut names = text::split_all(&stripped, '/');
    let ghost more = names@;
    segments.append(&mut names);
    assert(text::views(segments@) =~= text::views(old(segments)@) + text::views(more));
}

/// The URL of a path in an environment.
pub fn environment_url(id: &EnvironmentId, path: &EnvironmentPath) -> (r: UrlParts)
    requires
        3 * (text::utf8_len(id@) + text::utf8_len(path@)) + 64 <= u32::MAX,
    ensures
        r@ == environment_url_of(id@, path@),
        r@.scheme == CODEX_ENVIRONMENT_SCHEME@,
        r@.host is None,
        common_fault(r@) is None,
        r@.text == "codex-env://"@ + r@.path,
        url_parts::are_plain_segments(environment_segments(id@, path@)) ==> r@.path
            == url_parts::segments_path(environment_segments(id@, path@)),
        decoded_size(r@.path) <= text::utf8_len(id@) + text::utf8_len(path@) + 3,
{
    let mut segments: Vec<String> = Vec::new();
    segments.push(id.as_str().to_owned());
    assert(text::views(segments@) =~= seq![id@]);
    append_path_segments(&mut segments, path);
    proof {
        lemma_environment_segments_size(id@, path@);
    }
    url_parts::set_segments(ENVIRONMENT_BASE, &segments)
}

fn address_of(id: &[char], rest: &[char]) -> (r: Result<
    (EnvironmentId, EnvironmentPath),
    PathUriParseError,
>)
    ensures
        address_outcome(r) == environment_address(id@, rest@),
{
    proof {
        reveal(environment_address);
    }
    if percent::contains_percent_encoded_slash(rest) {
        return Err(PathUriParseError::InvalidEnvironmentUriPath);
    }
    let id = match percent::decode(text::string_of(id).as_str()) {
        Some(id) => id,
        None => {
            return Err(PathUriParseError::InvalidEnvironmentUriPath);
        },
    };
    let id = match EnvironmentId::new(id.as_str()) {
        Ok(id) => id,
        Err(e) => {
            return Err(PathUriParseError::InvalidEnvironmentId(e));
        },
    };
    let mut path: Vec<char> = Vec::new();
    path.push('/');
    text::append_chars(&mut path, rest);
    assert(path@ == seq!['/'] + rest@);
    let path = match percent::decode(text::string_of(&path).as_str()) {
        Some(path) => path,
        None => {
            return Err(PathUriParseError::InvalidEnvironmentUriPath);
        },
    };
    match EnvironmentPath::new(path.as_str()) {
        Ok(path) => Ok((id, path)),
        Err(e) => Err(PathUriParseError::InvalidEnvironmentPath(e)),
    }
}

/// The identifier and the path in a `codex-env:` URL.
pub fn parse_environment_path(url: &UrlParts) -> (r: Result<
    (EnvironmentId, EnvironmentPath),
    PathUriParseError,
>)
    ensures
        address_outcome(r) == environment_of_url(url@),
{
    match validate_common_known_uri(url) {
        Ok(()) => {},
        Err(e) => {
            return Err(e);
        },
    }
    if url.host.is_some() {
        return Err(PathUriParseError::EnvironmentUriMustNotHaveAuthority);
    }
    let path = text::chars_of(url.path.as_str());
    let total: usize = path.len();
    if percent::has_invalid_percent_encoding(&path) || !(total > 0 && path[0] == '/') {
        return Err(PathUriParseError::InvalidEnvironmentUriPath);
    }
    let inner = text::part(&path, 1, total);
    assert(inner@ == path@.skip(1));
    match cut_chars(&inner, '/') {
        Some((id, rest)) => address_of(&id, &rest),
        None => Err(PathUriParseError::InvalidEnvironmentUriPath),
    }
}

/// The identifier and the path in the text of a `codex-env:` URI.
fn environment_uri_address(uri: &[char]) -> (r: Result<
    (EnvironmentId, EnvironmentPath),
    PathUriParseError,
>)
    ensures
        address_outcome(r) == environment_of_text(uri@),
{
    let remainder = match cut_chars(uri, ':') {
        Some((_, remainder)) => remainder,
        None => {
            return Err(PathUriParseError::InvalidEnvironmentUriPath);
        },
    };
    if text::has_char(&remainder, '?') {
        return Err(PathUriParseError::QueryNotAllowed);
    }
    if text::has_char(&remainder, '#') {
        return Err(PathUriParseError::FragmentNotAllowed);
    }
    let three = ['/', '/', '/'];
    let two = ['/', '/'];
    assert(three@ == seq!['/', '/', '/']);
    assert(two@ == seq!['/', '/']);
    if !text::starts_with(&remainder, &three) {
        return if text::starts_with(&remainder, &two) {
            Err(PathUriParseError::EnvironmentUriMustNotHaveAuthority)
        } else {
            Err(PathUriParseError::InvalidEnvironmentUriPath)
        };
    }
    let inner = text::part(&remainder, 3, remainder.len());
    assert(inner@ == remainder@.skip(3));
    match cut_chars(&inner, '/') {
        Some((id, rest)) => {
            if percent::has_invalid_percent_encoding(&id) || percent::has_invalid_percent_encoding(
                &rest,
            ) {
                return Err(PathUriParseError::InvalidEnvironmentUriPath);
            }
            address_of(&id, &rest)
        },
        None => Err(PathUriParseError::InvalidEnvironmentUriPath),
    }
}

/// `u` spells out the address that was read, if that can be written without
/// loss: it shows the identifier and the path, and so does its text when it is
/// parsed.
pub open spec fn spells_address(
    u: UrlModel,
    address: Result<(Seq<char>, Seq<char>), UriFault>,
) -> bool {
    address matches Ok((id, path)) ==> (path_uri_laws::is_representable(id, path) ==> {
        &&& u.text == "codex-env://"@ + url_parts::segments_path(environment_segments(id, path))
        &&& shown(u) == (UriView::Environment { environment_id: id, path })
        &&& parsed(u.text) == Ok::<UrlModel, UriFault>(u)
    })
}

/// The URI of a path in an environment.
fn address_uri(id: &EnvironmentId, path: &EnvironmentPath) -> (r: PathUri)
    requires
        3 * (text::utf8_len(id@) + text::utf8_len(path@)) + 64 <= u32::MAX,
    ensures
        r.model() == environment_url_of(id@, path@),
        spells_address(r.model(), Ok::<(Seq<char>, Seq<char>), UriFault>((id@, path@))),
{
    let url = environment_url(id, path);
    proof {
        if path_uri_laws::is_representable(id@, path@) {
            path_uri_laws::lemma_plain(id@, path@);
            path_uri_laws::law_environment_url_shows_its_address(url@, id@, path@);
            path_uri_laws::law_environment_text_round_trip(id@, path@);
        }
    }
    PathUri { url }
}

/// Parses the text of a `codex-env:` URI.
pub fn parse_environment_uri(uri: &str) -> (r: Result<PathUri, PathUriParseError>)
    requires
        3 * text::utf8_len(uri@) + 1024 <= u32::MAX,
    ensures
        uri_outcome(r) == url_of_address(environment_of_text(uri@)),
        r matches Ok(u) ==> spells_address(u.model(), environment_of_text(uri@)),
{
    let chars = text::chars_of(uri);
    match environment_uri_address(&chars) {
        Ok((id, path)) => {
            proof {
                lemma_text_address_size(uri@);
            }
            Ok(address_uri(&id, &path))
        },
        Err(e) => Err(e),
    }
}

/// The file view of `uri` for fields that hold native paths, which an
/// environment URI cannot have.
pub fn legacy_file_view(uri: &PathUri) -> (r: Result<FileUriView, String>)
    ensures
        match shown(uri.model()) {
            UriView::File { path, url } => r is Ok && r->Ok_0.spec_path() == path
                && r->Ok_0.spec_url() == url,
            UriView::Environment { .. } => r is Err && r->Err_0@
                == "codex-env URI cannot use legacy file-path serialization"@,
        },
{
    match uri.view() {
        PathUriView::File(view) => Ok(view),
        PathUriView::Environment(_) => Err(
            "codex-env URI cannot use legacy file-path serialization".to_owned(),
        ),
    }
}

impl PathUri {
    /// Takes the parts of a URL, if they make a path URI.
    pub fn try_from(url: UrlParts) -> (r: Result<Self, PathUriParseError>)
        requires
            url@.scheme == CODEX_ENVIRONMENT_SCHEME@ ==> 3 * decoded_size(url@.path) + 1024
                <= u32::MAX,
        ensures
            uri_outcome(r) == accepted(url@),
            url@.scheme == CODEX_ENVIRONMENT_SCHEME@ ==> (r matches Ok(u) ==> spells_address(
                u.model(),
                environment_of_url(url@),
            )),
    {
        proof {
            lemma_schemes_differ();
        }
        let scheme = text::chars_of(url.scheme.as_str());
        if text::is_text(&scheme, FILE_SCHEME) {
            match parse_file_path(&url) {
                Ok(_) => {},
                Err(e) => {
                    return Err(e);
                },
            }
            return Ok(PathUri { url: canonical_file_url(url) });
        }
        if text::is_text(&scheme, CODEX_ENVIRONMENT_SCHEME) {
            return match parse_environment_path(&url) {
                Ok((id, path)) => {
                    proof {
                        lemma_url_address_size(url@);
                    }
                    Ok(address_uri(&id, &path))
                },
                Err(e) => Err(e),
            };
        }
        Err(PathUriParseError::UnsupportedScheme(url.scheme))
    }

    /// Parses a path URI.
    ///
    /// An environment URI is spelled out anew from its identifier and its path.
    /// A `file:` URI has to reference the current host.
    pub fn parse(uri: &str) -> (r: Result<Self, PathUriParseError>)
        requires
            has_environment_scheme(uri@) ==> 3 * text::utf8_len(uri@) + 1024 <= u32::MAX,
            scheme_of(uri@) is None ==> 9 * text::utf8_len(uri@) + 2048 <= u32::MAX,
        ensures
            uri_outcome(r) == parsed(uri@),
            r matches Ok(u) ==> {
                &&& has_environment_scheme(uri@) ==> spells_address(
                    u.model(),
                    environment_of_text(uri@),
                )
                &&& !has_environment_scheme(uri@) ==> (url_parts::parsed_url(uri@) matches Ok(v)
                    ==> (v.scheme == CODEX_ENVIRONMENT_SCHEME@ ==> spells_address(
                    u.model(),
                    environment_of_url(v),
                )))
            },
    {
        let chars = text::chars_of(uri);
        match scheme_chars(&chars) {
            Some(scheme) => {
                let lower = text::lower_chars(&scheme);
                if text::is_text(&lower, CODEX_ENVIRONMENT_SCHEME) {
                    return parse_environment_uri(uri);
                }
            },
            None => {},
        }
        match url_parts::parse_url(uri) {
            Ok(url) => {
                proof {
                    lemma_decoded_size(encode_utf8(url@.path));
                }
                if foreign_file(&url) {
                    return Err(PathUriParseError::FileUriMustReferenceCurrentHost);
                }
                Self::try_from(url)
            },
            Err(message) => Err(PathUriParseError::InvalidUri(message)),
        }
    }

    /// The URI of a path on a host with paths of the kind `host`, which has the
    /// URL `native` there. The URI of a Windows drive path shows the normalized
    /// path, and its text parses to the same URI.
    pub fn from_native_url(
        native: Option<UrlParts>,
        path: &str,
        host: PathFlavor,
    ) -> (r: Result<Self, PathUriParseError>)
        requires
            native matches Some(u) ==> u@.scheme == FILE_SCHEME@,
            host is Windows ==> 9 * text::utf8_len(path@) + 64 <= u32::MAX,
        ensures
            uri_outcome(r) == native_file_uri(url_parts::parts_view(native), path@, host),
            host is Windows && (native matches Some(u) && u@.host is None) ==> (
            environment_path::windows_path(path@) matches Ok(p) ==> (
            environment_path::is_drive_path(p) && !url_parts::has_tab_or_break(p) ==> {
                &&& r is Ok
                &&& r->Ok_0.model() == path_uri_laws::drive_url(p)
                &&& shown(r->Ok_0.model()) == (UriView::File { path: p, url: r->Ok_0.model() })
                &&& parsed(r->Ok_0.model().text) == Ok::<UrlModel, UriFault>(r->Ok_0.model())
            })),
    {
        let ghost given = path@;
        let url = match native {
            Some(url) => url,
            None => {
                return Err(PathUriParseError::PathCannotBeRepresentedAsFileUri);
            },
        };
        match host {
            PathFlavor::Windows => if url.host.is_none() {
                proof {
                    lemma_windows_path_size(path@);
                }
                let path = match EnvironmentPath::windows(path) {
                    Ok(path) => path,
                    Err(e) => {
                        return Err(PathUriParseError::InvalidEnvironmentPath(e));
                    },
                };
                proof {
                    if environment_path::is_drive_path(path@) && !url_parts::has_tab_or_break(
                        path@,
                    ) {
                        path_uri_laws::law_windows_file_uri_shows_its_path(given, path@);
                    }
                }
                return Ok(PathUri { url: file_url(&path) });
            },
            PathFlavor::Posix => {},
        }
        proof {
            lemma_schemes_differ();
        }
        Self::try_from(url)
    }

    /// The URI of an absolute path on a host with paths of the kind `host`.
    ///
    /// A normalized POSIX path survives on a POSIX machine: the URI shows the
    /// path again, and its text parses to the same URI.
    pub fn from_file_path(path: &str, host: PathFlavor) -> (r: Result<Self, PathUriParseError>)
        requires
            host is Windows ==> 9 * text::utf8_len(path@) + 64 <= u32::MAX,
        ensures
            uri_outcome(r) == native_file_uri(url_parts::posix_url(path@), path@, host)
                || uri_outcome(r) == native_file_uri(url_parts::windows_url(path@), path@, host),
            path_uri_laws::is_posix_file(path@) && host is Posix ==> {
                ||| uri_outcome(r) == native_file_uri(url_parts::windows_url(path@), path@, host)
                ||| {
                    &&& r is Ok
                    &&& Some(r->Ok_0.model()) == url_parts::posix_url(path@)
                    &&& shown(r->Ok_0.model()) == (UriView::File {
                        path: path@,
                        url: r->Ok_0.model(),
                    })
                    &&& parsed(r->Ok_0.model().text) == Ok::<UrlModel, UriFault>(
                        r->Ok_0.model(),
                    )
                    &&& url_parts::parses_back(r->Ok_0.model())
                }
            },
    {
        let native = url_parts::native_file_url(path);
        proof {
            if path_uri_laws::is_posix_file(path@) {
                path_uri_laws::law_posix_file_uri_shows_its_path(path@);
            }
        }
        Self::from_native_url(native, path, host)
    }

    /// The URI of a path in an environment.
    ///
    /// A representable path survives: the URI shows the identifier and the
    /// path again, and so does its text when it is parsed.
    pub fn from_environment_path(
        environment_id: &EnvironmentId,
        path: &EnvironmentPath,
    ) -> (r: Result<Self, PathUriParseError>)
        requires
            3 * (text::utf8_len(environment_id@) + text::utf8_len(path@)) + 2048 <= u32::MAX,
        ensures
            uri_outcome(r) == accepted(environment_url_of(environment_id@, path@)),
            path_uri_laws::is_representable(environment_id@, path@) ==> {
                &&& r is Ok
                &&& r->Ok_0.model() == environment_url_of(environment_id@, path@)
                &&& r->Ok_0.model().text == "codex-env://"@ + url_parts::segments_path(
                    environment_segments(environment_id@, path@),
                )
                &&& shown(r->Ok_0.model()) == (UriView::Environment {
                    environment_id: environment_id@,
                    path: path@,
                })
                &&& parsed(r->Ok_0.model().text) == Ok::<UrlModel, UriFault>(r->Ok_0.model())
            },
    {
        let url = environment_url(environment_id, path);
        proof {
            if path_uri_laws::is_representable(environment_id@, path@) {
                path_uri_laws::lemma_plain(environment_id@, path@);
                path_uri_laws::law_environment_url_shows_its_address(
                    url@,
                    environment_id@,
                    path@,
                );
                path_uri_laws::law_environment_text_round_trip(environment_id@, path@);
            }
        }
        Self::try_from(url)
    }

    pub fn scheme(&self) -> (r: &str)
        ensures
            r@ == self.model().scheme,
    {
        self.url.scheme.as_str()
    }

    /// The path URI as text.
    pub fn as_str(&self) -> (r: &str)
        ensures
            r@ == self.model().text,
    {
        self.url.text.as_str()
    }

    /// The parts of the URL.
    pub fn to_url(&self) -> (r: &UrlParts)
        ensures
            r@ == self.model(),
    {
        &self.url
    }

    /// What the URI stands for.
    pub fn view(&self) -> (r: PathUriView)
        ensures
            r@ == shown(self.model()),
    {
        let scheme = text::chars_of(self.url.scheme.as_str());
        if text::is_text(&scheme, FILE_SCHEME) {
            return PathUriView::File(
                FileUriView {
                    path: EnvironmentPath::from_normalized(decode_file_uri_path(&self.url)),
                    url: self.url.copy(),
                },
            );
        }
        let path = text::chars_of(self.url.path.as_str());
        let total: usize = path.len();
        let inner = if total > 0 && path[0] == '/' {
            text::part(&path, 1, total)
        } else {
            Vec::new()
        };
        proof {
            if total > 0 && path@[0] == '/' {
                assert(inner@ == path@.skip(1));
            } else {
                assert(inner@ == Seq::<char>::empty());
            }
        }
        let (id, rest) = match cut_chars(&inner, '/') {
            Some(parts) => parts,
            None => (Vec::new(), Vec::new()),
        };
        let mut whole: Vec<char> = Vec::new();
        whole.push('/');
        text::append_chars(&mut whole, &rest);
        assert(whole@ == seq!['/'] + rest@);
        PathUriView::Environment(
            EnvironmentUriView {
                environment_id: EnvironmentId::from_uri(
                    percent::decode_uri_path(text::string_of(&id).as_str()),
                ),
                path: EnvironmentPath::from_normalized(
                    percent::decode_uri_path(text::string_of(&whole).as_str()),
                ),
            },
        )
    }
}

/// The two schemes are spelled differently.
pub proof fn lemma_schemes_differ()
    ensures
        FILE_SCHEME@ != CODEX_ENVIRONMENT_SCHEME@,
{
    reveal_strlit("file");
    reveal_strlit("codex-env");
    assert(FILE_SCHEME@.len() == 4);
    assert(CODEX_ENVIRONMENT_SCHEME@.len() == 9);
}

// ---------------------------------------------------------------------------
// Sizes
// ---------------------------------------------------------------------------
proof fn lemma_environment_segments_size(id: Seq<char>, path: Seq<char>)
    ensures
        text::segments_size(environment_segments(id, path)) <= text::utf8_len(id)
            + text::utf8_len(path) + 2,
{
    let one = seq![id];
    text::lemma_single_size(id);
    text::lemma_segments_size_concat(one, path_segments(path));
    text::lemma_empty_size();
    if path.len() > 0 && path[0] == '/' {
        text::lemma_split_size(path.skip(1));
        assert(path == path.take(1) + path.skip(1));
        text::lemma_utf8_len_concat(path.take(1), path.skip(1));
    } else {
        text::lemma_single_size(Seq::empty());
    }
}

proof fn lemma_escaped_size(s: Seq<char>)
    ensures
        text::utf8_len(percent::percent_escaped(s)) <= 3 * text::utf8_len(s),
    decreases s.len(),
{
    if s.len() > 0 {
        let t = s.drop_last();
        let c = s.last();
        lemma_escaped_size(t);
        assert(s =~= t + seq![c]);
        text::lemma_utf8_len_concat(t, seq![c]);
        if c == '%' {
            is_ascii_chars_encode_utf8(seq!['%']);
            is_ascii_chars_encode_utf8(seq!['%', '2', '5']);
            text::lemma_utf8_len_concat(percent::percent_escaped(t), seq!['%', '2', '5']);
        } else {
            assert(percent::percent_escaped(s) =~= percent::percent_escaped(t) + seq![c]);
            text::lemma_utf8_len_concat(percent::percent_escaped(t), seq![c]);
        }
    } else {
        assert(s =~= Seq::<char>::empty());
    }
}

/// A native Windows path takes at most three bytes more once it is normalized.
proof fn lemma_windows_path_size(w: Seq<char>)
    ensures
        environment_path::windows_path(w) matches Ok(p) ==> text::utf8_len(p) <= text::utf8_len(w)
            + 3,
{
    let q = text::replace_char(w, '\\', '/');
    lemma_replaced_size(w);
    text::lemma_slash_size();
    text::lemma_utf8_len_concat(seq!['/'], q);
    environment_path::lemma_normalized_size(
        q,
        environment_path::PathNormalization::InferWindowsRoots,
    );
    environment_path::lemma_normalized_size(
        seq!['/'] + q,
        environment_path::PathNormalization::InferWindowsRoots,
    );
}

proof fn lemma_replaced_size(s: Seq<char>)
    ensures
        text::utf8_len(text::replace_char(s, '\\', '/')) == text::utf8_len(s),
    decreases s.len(),
{
    let r = text::replace_char(s, '\\', '/');
    if s.len() > 0 {
        let t = s.drop_last();
        let c = s.last();
        lemma_replaced_size(t);
        assert(s =~= t + seq![c]);
        assert(r =~= text::replace_char(t, '\\', '/') + seq![r.last()]);
        text::lemma_utf8_len_concat(t, seq![c]);
        text::lemma_utf8_len_concat(text::replace_char(t, '\\', '/'), seq![r.last()]);
        if c == '\\' {
            is_ascii_chars_encode_utf8(seq!['\\']);
            is_ascii_chars_encode_utf8(seq!['/']);
        }
    } else {
        assert(r =~= s);
    }
}

/// Decoding never makes more bytes.
proof fn lemma_decoded_size(s: Seq<u8>)
    ensures
        percent::percent_decoded(s).len() <= s.len(),
    decreases s.len(),
{
    if s.len() > 0 {
        if percent::begins_with_escape(s) {
            lemma_decoded_size(s.skip(3));
        } else {
            lemma_decoded_size(s.skip(1));
        }
    }
}

proof fn lemma_address_size(id: Seq<char>, rest: Seq<char>)
    requires
        environment_address(id, rest) is Ok,
    ensures
        ({
            let (i, p) = environment_address(id, rest)->Ok_0;
            &&& text::utf8_len(i) <= 64
            &&& text::utf8_len(p) <= decoded_size(seq!['/'] + rest) + 2
        }),
{
    reveal(environment_address);
    let bytes = percent::percent_decoded(encode_utf8(seq!['/'] + rest));
    let path = percent::decoded_text(seq!['/'] + rest)->0;
    decode_utf8_encode_utf8(bytes);
    assert(text::utf8_len(path) == bytes.len());
    environment_path::lemma_normalized_size(
        path,
        environment_path::PathNormalization::InferWindowsRoots,
    );
}

proof fn lemma_text_address_size(uri: Seq<char>)
    requires
        environment_of_text(uri) is Ok,
    ensures
        ({
            let (i, p) = environment_of_text(uri)->Ok_0;
            text::utf8_len(i) + text::utf8_len(p) <= text::utf8_len(uri) + 80
        }),
{
    let (scheme, remainder) = cut(uri, ':')->0;
    lemma_cut_parts(uri, ':');
    let inner = remainder.skip(3);
    let (id, rest) = cut(inner, '/')->0;
    lemma_cut_parts(inner, '/');
    lemma_address_size(id, rest);
    lemma_decoded_size(encode_utf8(seq!['/'] + rest));
    text::lemma_utf8_len_concat(seq!['/'], rest);
    text::lemma_slash_size();
    assert(remainder == remainder.take(3) + inner);
    text::lemma_utf8_len_concat(remainder.take(3), inner);
}

/// Cutting leaves two parts of the text, with one character between them.
pub proof fn lemma_cut_parts(s: Seq<char>, c: char)
    requires
        cut(s, c) is Some,
    ensures
        ({
            let (before, after) = cut(s, c)->0;
            &&& s == before + seq![c] + after
            &&& !before.contains(c)
            &&& text::utf8_len(after) <= text::utf8_len(s)
        }),
    decreases s.len(),
{
    let (before, after) = cut(s, c)->0;
    if s[0] == c {
        assert(s =~= seq![c] + after);
        assert(s =~= before + seq![c] + after);
    } else {
        let (b, a) = cut(s.skip(1), c)->0;
        lemma_cut_parts(s.skip(1), c);
        assert(s =~= seq![s[0]] + s.skip(1));
        assert(s =~= before + seq![c] + after);
        if before.contains(c) {
            let k = choose|k: int| 0 <= k < before.len() && before[k] == c;
            assert(b[k - 1] == c);
        }
    }
    text::lemma_utf8_len_concat(before + seq![c], after);
}

proof fn lemma_url_address_size(u: UrlModel)
    requires
        environment_of_url(u) is Ok,
    ensures
        ({
            let (i, p) = environment_of_url(u)->Ok_0;
            text::utf8_len(i) + text::utf8_len(p) <= decoded_size(u.path) + 80
        }),
{
    let inner = u.path.skip(1);
    let (id, rest) = cut(inner, '/')->0;
    lemma_cut_parts(inner, '/');
    lemma_address_size(id, rest);
    let head = seq!['/'] + id;
    let tail = seq!['/'] + rest;
    assert(u.path =~= seq!['/'] + inner);
    assert(u.path =~= head + tail);
    percent::lemma_decode_concat(head, tail);
}

} // verus!
