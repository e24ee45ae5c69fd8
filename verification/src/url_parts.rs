//! Parsed URLs as plain values.

use vstd::prelude::*;
use vstd::utf8::*;

use crate::environment_path;
use crate::path_uri;
use crate::percent;
use crate::text;

verus! {

/// The parts of a URL and its serialization.
#[derive(Clone, Debug, PartialEq, Eq, Hash)]
pub struct UrlParts {
    pub scheme: String,
    pub username: String,
    pub password: Option<String>,
    pub host: Option<String>,
    pub port: Option<u16>,
    pub path: String,
    pub query: Option<String>,
    pub fragment: Option<String>,
    /// The whole URL.
    pub text: String,
}

/// The mathematical counterpart of [`UrlParts`].
pub struct UrlModel {
    pub scheme: Seq<char>,
    pub username: Seq<char>,
    pub password: Option<Seq<char>>,
    pub host: Option<Seq<char>>,
    pub port: Option<u16>,
    pub path: Seq<char>,
    pub query: Option<Seq<char>>,
    pub fragment: Option<Seq<char>>,
    pub text: Seq<char>,
}

pub open spec fn opt_view(s: Option<String>) -> Option<Seq<char>> {
    match s {
        Some(s) => Some(s@),
        None => None,
    }
}

impl View for UrlParts {
    type V = UrlModel;

    open spec fn view(&self) -> UrlModel {
        UrlModel {
            scheme: self.scheme@,
            username: self.username@,
            password: opt_view(self.password),
            host: opt_view(self.host),
            port: self.port,
            path: self.path@,
            query: opt_view(self.query),
            fragment: opt_view(self.fragment),
            text: self.text@,
        }
    }
}

pub open spec fn parts_view(u: Option<UrlParts>) -> Option<UrlModel> {
    match u {
        Some(u) => Some(u@),
        None => None,
    }
}

fn copied(s: &Option<String>) -> (r: Option<String>)
    ensures
        opt_view(r) == opt_view(*s),
{
    match s {
        Some(s) => Some(s.clone()),
        None => None,
    }
}

impl UrlParts {
    /// Another value with the same parts.
    pub fn copy(&self) -> (r: Self)
        ensures
            r@ == self@,
    {
        UrlParts {
            scheme: self.scheme.clone(),
            username: self.username.clone(),
            password: copied(&self.password),
            host: copied(&self.host),
            port: self.port,
            path: self.path.clone(),
            query: copied(&self.query),
            fragment: copied(&self.fragment),
            text: self.text.clone(),
        }
    }
}

/// What `url::Url::parse` makes of a text: the parts of the URL, or the
/// message of the error.
pub uninterp spec fn parsed_url(uri: Seq<char>) -> Result<UrlModel, Seq<char>>;

/// The URL `base` after `url::PathSegmentsMut` was given these segments.
pub uninterp spec fn segmented_url(base: Seq<char>, segments: Seq<Seq<char>>) -> UrlModel;

/// The URL `base` after `url::Url::set_path` was given this path.
pub uninterp spec fn url_with_path(base: Seq<char>, path: Seq<char>) -> UrlModel;

/// What `url::Url::from_file_path` makes of a path by the path rules of Windows.
pub uninterp spec fn windows_url(path: Seq<char>) -> Option<UrlModel>;

/// The bytes of the path that `url::Url::to_file_path` makes of the URL `uri` by
/// the path rules of Windows.
pub uninterp spec fn windows_path_bytes(uri: Seq<char>) -> Option<Seq<u8>>;

/// Wraps `url::Url::parse` and reads the parts of the URL; an error comes with
/// its message.
///
/// Trusted: the outcome depends on the text alone. The path is spelled with at
/// most three bytes for each byte of the text, as an escape has, and a few
/// slashes that the text may leave out. The scheme is the one that the text
/// begins with, in lower case.
#[verifier::external_body]
pub(crate) fn parse_url(uri: &str) -> (r: Result<UrlParts, String>)
    ensures
        match r {
            Ok(u) => parsed_url(uri@) == Ok::<UrlModel, Seq<char>>(u@),
            Err(e) => parsed_url(uri@) == Err::<UrlModel, Seq<char>>(e@),
        },
        r is Ok ==> text::utf8_len(r->Ok_0@.path) <= 3 * text::utf8_len(uri@) + 16,
        path_uri::scheme_of(uri@) matches Some(s) ==> (r matches Ok(u) ==> u@.scheme
            == text::ascii_lower(s)),
{
    match url::Url::parse(uri) {
        Ok(url) => Ok(UrlParts {
            scheme: url.scheme().to_owned(),
            username: url.username().to_owned(),
            password: url.password().map(str::to_owned),
            host: url.host_str().map(str::to_owned),
            port: url.port(),
            path: url.path().to_owned(),
            query: url.query().map(str::to_owned),
            fragment: url.fragment().map(str::to_owned),
            text: url.to_string(),
        }),
        Err(err) => Err(err.to_string()),
    }
}

/// Whether parsing the serialization of `u` gives `u` again.
pub open spec fn parses_back(u: UrlModel) -> bool {
    parsed_url(u.text) == Ok::<UrlModel, Seq<char>>(u)
}

/// Whether `s` holds a tab or a line break, which URLs leave out.
pub open spec fn has_tab_or_break(s: Seq<char>) -> bool {
    s.contains('\t') || s.contains('\n') || s.contains('\r')
}

/// Whether `segments` are spelled out one by one in a URL path: the first is
/// not empty, none is a dot segment, and none holds a tab or a line break.
pub open spec fn are_plain_segments(segments: Seq<Seq<char>>) -> bool {
    &&& segments.len() > 0
    &&& segments[0].len() > 0
    &&& forall|i: int|
        #![trigger segments[i]]
        0 <= i < segments.len() ==> {
            &&& segments[i] != seq!['.']
            &&& segments[i] != seq!['.', '.']
            &&& !has_tab_or_break(segments[i])
        }
}

/// The path made of `segments`.
pub open spec fn segments_path(segments: Seq<Seq<char>>) -> Seq<char> {
    seq!['/'] + text::join_with(percent::segment_texts(segments), seq!['/'])
}

/// Wraps `url::Url::path_segments_mut` with `clear` and `extend`, on the URL
/// `base`, and reads the parts of what comes out.
///
/// Trusted, of the base `codex-env:///`: the outcome depends on the segments
/// alone; it has a path and nothing else, and its serialization is the path
/// behind `codex-env://`. Plain segments are spelled out in the path one by
/// one, percent-encoded, with a slash before each. Other segments may be left
/// out or lose characters, so the path never decodes to more bytes than they
/// have, with a slash before each.
#[verifier::external_body]
pub(crate) fn set_segments(base: &str, segments: &Vec<String>) -> (r: UrlParts)
    requires
        base@ == "codex-env:///"@,
        16 + 3 * text::segments_size(text::views(segments@)) <= u32::MAX,
    ensures
        r@ == segmented_url(base@, text::views(segments@)),
        r@ == (UrlModel {
            scheme: "codex-env"@,
            username: Seq::empty(),
            password: None,
            host: None,
            port: None,
            path: r@.path,
            query: None,
            fragment: None,
            text: "codex-env://"@ + r@.path,
        }),
        are_plain_segments(text::views(segments@)) ==> r@.path == segments_path(
            text::views(segments@),
        ),
        percent::percent_decoded(encode_utf8(r@.path)).len() <= 1 + text::segments_size(
            text::views(segments@),
        ),
{
    let mut url = url::Url::parse(base).unwrap();
    url.path_segments_mut().unwrap().clear().extend(segments);
    UrlParts {
        scheme: url.scheme().to_owned(),
        username: url.username().to_owned(),
        password: url.password().map(str::to_owned),
        host: url.host_str().map(str::to_owned),
        port: url.port(),
        path: url.path().to_owned(),
        query: url.query().map(str::to_owned),
        fragment: url.fragment().map(str::to_owned),
        text: url.to_string(),
    }
}

/// A drive path with plain segments and no backslash.
pub open spec fn is_plain_drive_path(p: Seq<char>) -> bool {
    &&& environment_path::is_drive_path(p)
    &&& are_plain_segments(text::split_on(p.skip(1), '/'))
    &&& !p.contains('\\')
}

/// Wraps `url::Url::set_path`, on the URL `base`, and reads the parts of what
/// comes out.
///
/// Trusted, of the base `file:///`: the outcome depends on the path alone, and
/// is a URL of the scheme `file` with a path and nothing else, and its
/// serialization is the path behind `file://`. A plain drive path in which each
/// percent sign was escaped is spelled out in the path segment by segment, and
/// parsing the serialization gives that URL again. Of other paths, what becomes of leading slashes, backslashes, dot segments, tabs
/// and line breaks is not stated.
#[verifier::external_body]
pub(crate) fn set_path(base: &str, path: &str) -> (r: UrlParts)
    requires
        base@ == "file:///"@,
        16 + 3 * text::utf8_len(path@) <= u32::MAX,
    ensures
        r@ == url_with_path(base@, path@),
        r@ == (UrlModel {
            scheme: "file"@,
            username: Seq::empty(),
            password: None,
            host: None,
            port: None,
            path: r@.path,
            query: None,
            fragment: None,
            text: "file://"@ + r@.path,
        }),
        forall|p: Seq<char>|
            #![trigger percent::percent_escaped(p)]
            is_plain_drive_path(p) && path@ == percent::percent_escaped(p) ==> r@.path
                == segments_path(text::split_on(p.skip(1), '/')) && parses_back(r@),
{
    let mut url = url::Url::parse(base).unwrap();
    url.set_path(path);
    UrlParts {
        scheme: url.scheme().to_owned(),
        username: url.username().to_owned(),
        password: url.password().map(str::to_owned),
        host: url.host_str().map(str::to_owned),
        port: url.port(),
        path: url.path().to_owned(),
        query: url.query().map(str::to_owned),
        fragment: url.fragment().map(str::to_owned),
        text: url.to_string(),
    }
}

/// The names in the POSIX path `p`: repeated slashes and `.` carry none.
pub open spec fn posix_names(p: Seq<char>) -> Seq<Seq<char>> {
    environment_path::components(p).filter(|name: Seq<char>| name != seq!['.'])
}

/// The `file:` URL without a host whose path is made of `names`, each of them
/// percent-encoded behind a slash.
pub open spec fn names_url(names: Seq<Seq<char>>) -> UrlModel {
    let path = seq!['/'] + text::join_with(percent::special_segment_texts(names), seq!['/']);
    UrlModel {
        scheme: "file"@,
        username: Seq::empty(),
        password: None,
        host: None,
        port: None,
        path,
        query: None,
        fragment: None,
        text: "file://"@ + path,
    }
}

/// What `url::Url::from_file_path` makes of a path by the path rules of POSIX:
/// an absolute path has the URL of its names.
pub open spec fn posix_url(p: Seq<char>) -> Option<UrlModel> {
    if p.len() > 0 && p[0] == '/' {
        Some(names_url(posix_names(p)))
    } else {
        None
    }
}

/// Whether a URL keeps `names` when it is parsed: none of them is `..`, and the
/// first is not a letter and a bar, which URLs may read as a drive.
pub open spec fn are_stable_names(names: Seq<Seq<char>>) -> bool {
    &&& forall|i: int| 0 <= i < names.len() ==> #[trigger] names[i] != seq!['.', '.']
    &&& !(names.len() > 0 && names[0].len() == 2 && text::is_ascii_letter(names[0][0])
        && names[0][1] == '|')
}

/// Wraps `url::Url::from_file_path` and reads the parts of the URL.
///
/// Trusted: the outcome follows the path rules of POSIX or those of Windows,
/// whichever the machine has. By the rules of POSIX an absolute path has the
/// URL of its names, and if these are stable, parsing the serialization gives
/// that URL again. Where there is a URL, it is of the scheme `file` and has no
/// credentials, port, query or fragment.
#[verifier::external_body]
pub(crate) fn native_file_url(path: &str) -> (r: Option<UrlParts>)
    ensures
        parts_view(r) == posix_url(path@) || parts_view(r) == windows_url(path@),
        r matches Some(u) ==> u@.scheme == "file"@ && u@.username.len() == 0 && u@.password is None
            && u@.port is None && u@.query is None && u@.fragment is None,
        r matches Some(u) ==> (are_stable_names(posix_names(path@)) && posix_url(path@) == Some(u@)
            ==> parses_back(u@)),
{
    let url = url::Url::from_file_path(path).ok()?;
    Some(UrlParts {
        scheme: url.scheme().to_owned(),
        username: url.username().to_owned(),
        password: url.password().map(str::to_owned),
        host: url.host_str().map(str::to_owned),
        port: url.port(),
        path: url.path().to_owned(),
        query: url.query().map(str::to_owned),
        fragment: url.fragment().map(str::to_owned),
        text: url.to_string(),
    })
}

/// A single drive, with its colon spelled out or escaped.
pub open spec fn is_bare_drive(path: Seq<char>) -> bool {
    &&& path.len() >= 3
    &&& path[0] == '/'
    &&& text::is_ascii_letter(path[1])
    &&& {
        ||| path.len() == 3 && path[2] == ':'
        ||| path.len() == 5 && path[2] == '%' && path[3] == '3' && (path[4] == 'a' || path[4]
            == 'A')
    }
}

/// Whether the path of a URL with a host begins with the name of a share.
pub open spec fn names_share(path: Seq<char>) -> bool {
    let bytes = percent::percent_decoded(encode_utf8(path));
    bytes.len() >= 2 && bytes[1] != 47 && bytes[1] != 92
}

/// Whether [`native_file_path`] can be asked about `u`: it is a `file:` URL, and
/// by the path rules of Windows it stands for an absolute path or for none.
pub open spec fn is_askable(u: UrlModel) -> bool {
    &&& u.scheme == "file"@
    &&& match u.host {
        Some(_) => names_share(u.path),
        None => !is_bare_drive(u.path),
    }
}

/// Whether a native path ends like a drive: with a letter and a colon or a bar.
pub open spec fn ends_like_drive(bytes: Seq<u8>) -> bool {
    let n = bytes.len() as int;
    &&& n > 2
    &&& (65 <= bytes[n - 2] <= 90 || 97 <= bytes[n - 2] <= 122)
    &&& (bytes[n - 1] == 58 || bytes[n - 1] == 124)
}

/// The bytes of the path that `url::Url::to_file_path` makes of a URL with the
/// path `path` by the path rules of POSIX: the decoded path, with a slash behind
/// what looks like a drive.
pub open spec fn posix_path_bytes(path: Seq<char>) -> Seq<u8> {
    let bytes = percent::percent_decoded(encode_utf8(path));
    if ends_like_drive(bytes) {
        bytes.push(47)
    } else {
        bytes
    }
}

/// The bytes of the path that `url::Url::to_file_path` makes of `u` by the path
/// rules of POSIX, which has no path on another host.
pub open spec fn posix_native(u: UrlModel) -> Option<Seq<u8>> {
    match u.host {
        Some(host) => if host == "localhost"@ {
            Some(posix_path_bytes(u.path))
        } else {
            None
        },
        None => Some(posix_path_bytes(u.path)),
    }
}

pub open spec fn bytes_view(bytes: Option<Vec<u8>>) -> Option<Seq<u8>> {
    match bytes {
        Some(b) => Some(b@),
        None => None,
    }
}

/// Wraps `url::Url::to_file_path`, on the URL with the serialization `uri`.
///
/// Trusted: the outcome follows the path rules of POSIX or those of Windows,
/// whichever the machine has. By the rules of POSIX there is a path unless the
/// URL names another host, and it is the decoded path of the URL, with a slash
/// behind what looks like a drive. A single drive, and a host without a share,
/// are left out because on Windows they are not absolute.
#[verifier::external_body]
pub(crate) fn native_file_path(uri: &str) -> (r: Option<Vec<u8>>)
    requires
        parsed_url(uri@) matches Ok(u) && is_askable(u),
    ensures
        bytes_view(r) == posix_native(parsed_url(uri@)->Ok_0) || bytes_view(r)
            == windows_path_bytes(uri@),
{
    let path = url::Url::parse(uri).ok()?.to_file_path().ok()?;
    Some(path.into_os_string().into_encoded_bytes())
}

} // verus!
