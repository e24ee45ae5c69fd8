//! Normalized absolute paths inside an execution environment.
//!
//! A path is stored host-independently and always uses `/` separators:
//!
//! - a POSIX path such as `/srv/app/main.rs` keeps that spelling;
//! - a Windows drive path such as `C:\Users\Alice` becomes `/c:/Users/Alice`;
//! - a Windows UNC path such as `\\server\share\src` becomes
//!   `//server/share/src`.
//!
//! Construction is lexical. Repeated separators and `.` components are
//! removed, and `..` components are resolved without escaping the POSIX, drive
//! or UNC root. Filesystem aliases, symlinks, case and Unicode normalization
//! are not resolved.

use vstd::prelude::*;

use crate::text;

verus! {

/// Native path syntax used by an execution environment.
#[derive(Clone, Copy, Debug, PartialEq, Eq, Hash)]
#[non_exhaustive]
pub enum PathFlavor {
    Posix,
    Windows,
}

/// Why a path was refused.
#[derive(Clone, Debug, PartialEq, Eq)]
pub enum EnvironmentPathError {
    Empty,
    NotAbsolute(String),
    ContainsNull,
    UnsupportedWindowsNamespace(String),
    InvalidWindowsUncPath(String),
    JoinPathMustBeRelative(String),
    IncompatiblePathFlavor { path: String, flavor: PathFlavor },
}

/// The mathematical counterpart of [`EnvironmentPathError`].
pub enum PathFault {
    Empty,
    NotAbsolute(Seq<char>),
    ContainsNull,
    UnsupportedWindowsNamespace(Seq<char>),
    InvalidWindowsUncPath(Seq<char>),
    JoinPathMustBeRelative(Seq<char>),
    IncompatiblePathFlavor { path: Seq<char>, flavor: PathFlavor },
}

impl View for EnvironmentPathError {
    type V = PathFault;

    open spec fn view(&self) -> PathFault {
        match self {
            EnvironmentPathError::Empty => PathFault::Empty,
            EnvironmentPathError::NotAbsolute(p) => PathFault::NotAbsolute(p@),
            EnvironmentPathError::ContainsNull => PathFault::ContainsNull,
            EnvironmentPathError::UnsupportedWindowsNamespace(p) => {
                PathFault::UnsupportedWindowsNamespace(p@)
            },
            EnvironmentPathError::InvalidWindowsUncPath(p) => PathFault::InvalidWindowsUncPath(p@),
            EnvironmentPathError::JoinPathMustBeRelative(p) => PathFault::JoinPathMustBeRelative(
                p@,
            ),
            EnvironmentPathError::IncompatiblePathFlavor { path, flavor } => {
                PathFault::IncompatiblePathFlavor { path: path@, flavor: *flavor }
            },
        }
    }
}

/// What is said of a refused path.
pub open spec fn fault_message(fault: PathFault) -> Seq<char> {
    match fault {
        PathFault::Empty => "environment path cannot be empty"@,
        PathFault::NotAbsolute(p) => "environment path `"@ + p + "` must be absolute"@,
        PathFault::ContainsNull => "environment path cannot contain a null character"@,
        PathFault::UnsupportedWindowsNamespace(p) => "path `"@ + p
            + "` uses an unsupported Windows device or verbatim namespace"@,
        PathFault::InvalidWindowsUncPath(p) => "Windows UNC path `"@ + p
            + "` must contain a server and share"@,
        PathFault::JoinPathMustBeRelative(p) => "path `"@ + p
            + "` must be relative when joining an environment path"@,
        PathFault::IncompatiblePathFlavor { path, flavor } => "path `"@ + path
            + "` cannot be represented using "@ + (match flavor {
            PathFlavor::Posix => "Posix"@,
            PathFlavor::Windows => "Windows"@,
        }) + " path syntax"@,
    }
}

fn framed(before: &str, middle: &str, after: &str) -> (r: String)
    ensures
        r@ == before@ + middle@ + after@,
{
    let mut m: String = before.to_owned();
    m.append(middle);
    m.append(after);
    m
}

impl EnvironmentPathError {
    /// What went wrong, in words.
    pub fn message(&self) -> (r: String)
        ensures
            r@ == fault_message(self@),
    {
        match self {
            EnvironmentPathError::Empty => "environment path cannot be empty".to_owned(),
            EnvironmentPathError::NotAbsolute(p) => framed(
                "environment path `",
                p.as_str(),
                "` must be absolute",
            ),
            EnvironmentPathError::ContainsNull => {
                "environment path cannot contain a null character".to_owned()
            },
            EnvironmentPathError::UnsupportedWindowsNamespace(p) => framed(
                "path `",
                p.as_str(),
                "` uses an unsupported Windows device or verbatim namespace",
            ),
            EnvironmentPathError::InvalidWindowsUncPath(p) => framed(
                "Windows UNC path `",
                p.as_str(),
                "` must contain a server and share",
            ),
            EnvironmentPathError::JoinPathMustBeRelative(p) => framed(
                "path `",
                p.as_str(),
                "` must be relative when joining an environment path",
            ),
            EnvironmentPathError::IncompatiblePathFlavor { path, flavor } => {
                let mut m = framed("path `", path.as_str(), "` cannot be represented using ");
                match flavor {
                    PathFlavor::Posix => m.append("Posix"),
                    PathFlavor::Windows => m.append("Windows"),
                }
                m.append(" path syntax");
                m
            },
        }
    }
}

/// A normalized absolute URI path in a configured environment.
///
/// Use [`EnvironmentPath::posix`] or [`EnvironmentPath::windows`] for native
/// input, so that a POSIX file name that resembles a drive or UNC path is not
/// given Windows root semantics. [`EnvironmentPath::new`] takes the canonical
/// URI representation and recognizes canonical drive and UNC roots.
#[derive(Clone, Debug, PartialEq, Eq, PartialOrd, Ord, Hash)]
pub struct EnvironmentPath(String);

impl View for EnvironmentPath {
    type V = Seq<char>;

    closed spec fn view(&self) -> Seq<char> {
        self.0@
    }
}

/// How roots are recognized while normalizing.
#[derive(Clone, Copy, Debug, PartialEq, Eq)]
pub enum PathNormalization {
    Posix,
    InferWindowsRoots,
}

// ---------------------------------------------------------------------------
// What the operations mean
// ---------------------------------------------------------------------------
/// `.`
pub open spec fn dot() -> Seq<char> {
    seq!['.']
}

/// `..`
pub open spec fn dot_dot() -> Seq<char> {
    seq!['.', '.']
}

/// Exactly two leading slashes: the spelling of a UNC path.
pub open spec fn has_unc_root(p: Seq<char>) -> bool {
    p.len() >= 2 && p[0] == '/' && p[1] == '/' && !(p.len() >= 3 && p[2] == '/')
}

/// `/x:/` and anything after it.
pub open spec fn is_drive_path(p: Seq<char>) -> bool {
    p.len() >= 4 && p[0] == '/' && text::is_ascii_letter(p[1]) && p[2] == ':' && p[3] == '/'
}

/// `/x:` alone or `/x:/` and anything after it.
pub open spec fn has_drive_head(p: Seq<char>) -> bool {
    p.len() >= 3 && p[0] == '/' && text::is_ascii_letter(p[1]) && p[2] == ':' && (p.len() == 3
        || p[3] == '/')
}

/// The names between the slashes of `p`.
pub open spec fn components(p: Seq<char>) -> Seq<Seq<char>> {
    text::non_empty(text::split_on(p, '/'))
}

/// How many leading components make up the root.
pub open spec fn root_depth(p: Seq<char>) -> nat {
    if has_unc_root(p) {
        2
    } else if is_drive_path(p) {
        1
    } else {
        0
    }
}

/// `names` with `.` removed and `..` resolved, never dropping one of the first `depth`.
pub open spec fn resolve(names: Seq<Seq<char>>, depth: nat) -> Seq<Seq<char>>
    decreases names.len(),
{
    if names.len() == 0 {
        Seq::empty()
    } else {
        let before = resolve(names.drop_last(), depth);
        let name = names.last();
        if name.len() == 0 || name == dot() {
            before
        } else if name == dot_dot() {
            if before.len() > depth {
                before.drop_last()
            } else {
                before
            }
        } else {
            before.push(name)
        }
    }
}

/// A single drive such as `c:`.
pub open spec fn is_drive_name(name: Seq<char>) -> bool {
    name.len() == 2 && name[1] == ':' && text::is_ascii_letter(name[0])
}

/// `names` with the letter of a leading drive in lower case.
pub open spec fn lower_drive(names: Seq<Seq<char>>) -> Seq<Seq<char>> {
    if names.len() > 0 && is_drive_name(names[0]) {
        names.update(0, seq![text::ascii_lower_char(names[0][0]), ':'])
    } else {
        names
    }
}

/// The path with the components `names` and the kind of root that `original` has.
pub open spec fn format_path(
    original: Seq<char>,
    names: Seq<Seq<char>>,
    mode: PathNormalization,
) -> Seq<char> {
    let body = text::join_with(names, seq!['/']);
    if has_unc_root(original) {
        seq!['/', '/'] + body
    } else if mode is InferWindowsRoots && ((original.len() > 0 && original.last() == '/')
        || is_drive_path(original)) && names.len() == 1 && is_drive_name(names[0]) {
        (seq!['/'] + body).push('/')
    } else {
        seq!['/'] + body
    }
}

/// The components of the normal form of `p`: dot segments are resolved within
/// the root, and what then stands first is read as a drive unless the root is
/// that of a UNC path.
pub open spec fn normal_names(p: Seq<char>, mode: PathNormalization) -> Seq<Seq<char>> {
    match mode {
        PathNormalization::Posix => resolve(components(p), 0),
        PathNormalization::InferWindowsRoots => {
            let names = resolve(components(p), root_depth(p));
            if has_unc_root(p) {
                names
            } else {
                lower_drive(names)
            }
        },
    }
}

/// The normal form of `p`.
pub open spec fn normalize(p: Seq<char>, mode: PathNormalization) -> Seq<char> {
    format_path(p, normal_names(p, mode), mode)
}

/// Whether `p`, which starts with two slashes, names a server and a share.
pub open spec fn is_unc(p: Seq<char>) -> bool {
    let names = components(p);
    &&& names.len() >= 2
    &&& names[0] != dot() && names[0] != dot_dot()
    &&& names[1] != dot() && names[1] != dot_dot()
}

/// Whether `p` is in the Windows device or verbatim namespace.
pub open spec fn in_windows_namespace(p: Seq<char>) -> bool {
    let q = text::replace_char(p, '\\', '/');
    seq!['/', '/', '?', '/'].is_prefix_of(q) || seq!['/', '/', '.', '/'].is_prefix_of(q)
}

/// Why `p` is not an absolute POSIX path.
pub open spec fn posix_fault(p: Seq<char>) -> Option<PathFault> {
    if p.len() == 0 {
        Some(PathFault::Empty)
    } else if p.contains('\0') {
        Some(PathFault::ContainsNull)
    } else if p[0] != '/' {
        Some(PathFault::NotAbsolute(p))
    } else {
        None
    }
}

/// Why `p` is not a path in URI syntax.
pub open spec fn environment_fault(p: Seq<char>) -> Option<PathFault> {
    if posix_fault(p) is Some {
        posix_fault(p)
    } else if in_windows_namespace(p) {
        Some(PathFault::UnsupportedWindowsNamespace(p))
    } else if has_unc_root(p) && !is_unc(p) {
        Some(PathFault::InvalidWindowsUncPath(p))
    } else {
        None
    }
}

/// Why `p` is not an absolute native Windows path.
pub open spec fn windows_fault(p: Seq<char>) -> Option<PathFault> {
    if p.len() == 0 {
        Some(PathFault::Empty)
    } else if p.contains('\0') {
        Some(PathFault::ContainsNull)
    } else if in_windows_namespace(p) {
        Some(PathFault::UnsupportedWindowsNamespace(p))
    } else if p.len() >= 2 && ((p[0] == '\\' && p[1] == '\\') || (p[0] == '/' && p[1] == '/')) {
        let q = text::replace_char(p, '\\', '/');
        if has_unc_root(q) && is_unc(q) {
            None
        } else {
            Some(PathFault::InvalidWindowsUncPath(p))
        }
    } else if p.len() >= 3 && text::is_ascii_letter(p[0]) && p[1] == ':' && (p[2] == '/' || p[2]
        == '\\') {
        None
    } else {
        Some(PathFault::NotAbsolute(p))
    }
}

/// What [`EnvironmentPath::new`] makes of `p`.
pub open spec fn new_path(p: Seq<char>) -> Result<Seq<char>, PathFault> {
    let normal = normalize(p, PathNormalization::InferWindowsRoots);
    match environment_fault(p) {
        Some(fault) => Err(fault),
        None => match environment_fault(normal) {
            Some(fault) => Err(fault),
            None => Ok(normal),
        },
    }
}

/// What [`EnvironmentPath::posix`] makes of `p`.
pub open spec fn posix_path(p: Seq<char>) -> Result<Seq<char>, PathFault> {
    match posix_fault(p) {
        Some(fault) => Err(fault),
        None => Ok(normalize(p, PathNormalization::Posix)),
    }
}

/// What [`EnvironmentPath::windows`] makes of `p`.
pub open spec fn windows_path(p: Seq<char>) -> Result<Seq<char>, PathFault> {
    let q = text::replace_char(p, '\\', '/');
    match windows_fault(p) {
        Some(fault) => Err(fault),
        None => if seq!['/', '/'].is_prefix_of(q) {
            Ok(normalize(q, PathNormalization::InferWindowsRoots))
        } else {
            new_path(seq!['/'] + q)
        },
    }
}

/// What [`EnvironmentPath::to_native_path`] makes of the stored path `p`.
pub open spec fn native_path(p: Seq<char>, flavor: PathFlavor) -> Result<Seq<char>, PathFault> {
    match flavor {
        PathFlavor::Posix => Ok(p),
        PathFlavor::Windows => {
            let q = text::replace_char(p, '\\', '/');
            let normal = normalize(q, PathNormalization::InferWindowsRoots);
            if in_windows_namespace(p) {
                Err(PathFault::UnsupportedWindowsNamespace(p))
            } else if !(is_drive_path(q) || (seq!['/', '/'].is_prefix_of(q) && is_unc(q))) {
                Err(PathFault::IncompatiblePathFlavor { path: p, flavor })
            } else if is_drive_path(normal) {
                Ok(text::replace_char(normal.skip(1), '/', '\\'))
            } else if has_unc_root(normal) && is_unc(normal) {
                Ok(text::replace_char(normal, '/', '\\'))
            } else {
                Err(PathFault::IncompatiblePathFlavor { path: p, flavor })
            }
        },
    }
}

/// The last component of `p`, unless `p` is a root.
pub open spec fn base_name(p: Seq<char>) -> Option<Seq<char>> {
    let names = components(p);
    if names.len() <= root_depth(p) {
        None
    } else {
        Some(names.last())
    }
}

/// `p` without its last component, unless `p` is a root.
pub open spec fn parent_path(p: Seq<char>) -> Option<Seq<char>> {
    let names = components(p);
    if names.len() <= root_depth(p) {
        None
    } else {
        Some(format_path(p, names.drop_last(), PathNormalization::InferWindowsRoots))
    }
}

/// `p` without trailing slashes.
pub open spec fn without_trailing_slashes(p: Seq<char>) -> Seq<char> {
    text::trim_end_by(p, |c: char| c == '/')
}

/// What [`EnvironmentPath::join`] makes of `relative` on the path `p`.
pub open spec fn join_path(p: Seq<char>, relative: Seq<char>) -> Result<Seq<char>, PathFault> {
    if relative.len() > 0 && relative[0] == '/' {
        Err(PathFault::JoinPathMustBeRelative(relative))
    } else if relative.contains('\0') {
        Err(PathFault::ContainsNull)
    } else if relative.len() == 0 {
        Ok(p)
    } else {
        new_path(without_trailing_slashes(p).push('/') + relative)
    }
}

/// The view of a constructor's result.
pub open spec fn outcome(r: Result<EnvironmentPath, EnvironmentPathError>) -> Result<
    Seq<char>,
    PathFault,
> {
    match r {
        Ok(p) => Ok(p@),
        Err(e) => Err(e@),
    }
}

// ---------------------------------------------------------------------------
// Operations
// ---------------------------------------------------------------------------
/// `r` gives the error, if any, that `fault` describes.
pub open spec fn reports(r: Result<(), EnvironmentPathError>, fault: Option<PathFault>) -> bool {
    match fault {
        None => r is Ok,
        Some(f) => r matches Err(e) && e@ == f,
    }
}

fn starts_with_two(p: &[char], c: char) -> (r: bool)
    ensures
        r == (p@.len() >= 2 && p@[0] == c && p@[1] == c),
{
    p.len() >= 2 && p[0] == c && p[1] == c
}

fn unc_root(p: &[char]) -> (r: bool)
    ensures
        r == has_unc_root(p@),
{
    p.len() >= 2 && p[0] == '/' && p[1] == '/' && !(p.len() >= 3 && p[2] == '/')
}

/// Whether `path` is `/x:/` and anything after it.
pub fn is_windows_drive_path(path: &[char]) -> (r: bool)
    ensures
        r == is_drive_path(path@),
{
    path.len() >= 4 && path[0] == '/' && text::ascii_letter(path[1]) && path[2] == ':' && path[3]
        == '/'
}

/// The non-empty names between the slashes of `path`.
pub fn environment_path_components(path: &[char]) -> (r: Vec<Vec<char>>)
    ensures
        text::char_views(r@) == components(path@),
{
    text::split_non_empty(path, '/')
}

/// How many leading components of `path` make up its root.
pub fn environment_path_root_depth(path: &[char]) -> (r: usize)
    ensures
        r == root_depth(path@),
{
    if unc_root(path) {
        2
    } else if is_windows_drive_path(path) {
        1
    } else {
        0
    }
}

fn dot_segment(name: &[char]) -> (r: bool)
    ensures
        r == (name@ == dot() || name@ == dot_dot()),
{
    let one = name.len() == 1 && name[0] == '.';
    let two = name.len() == 2 && name[0] == '.' && name[1] == '.';
    assert(one ==> name@ == dot());
    assert(two ==> name@ == dot_dot());
    one || two
}

/// Whether `path`, which starts with two slashes, names a server and a share.
pub fn is_valid_unc_path(path: &[char]) -> (r: bool)
    ensures
        r == is_unc(path@),
{
    let names = environment_path_components(path);
    assert(names@.len() == components(path@).len());
    assert(names@.len() >= 1 ==> components(path@)[0] == names@[0]@);
    assert(names@.len() >= 2 ==> components(path@)[1] == names@[1]@);
    names.len() >= 2 && !dot_segment(&names[0]) && !dot_segment(&names[1])
}

/// Whether `path` is in the Windows device or verbatim namespace.
pub fn has_unsupported_windows_namespace(path: &[char]) -> (r: bool)
    ensures
        r == in_windows_namespace(path@),
{
    let q = text::replaced(path, '\\', '/');
    let verbatim = ['/', '/', '?', '/'];
    let device = ['/', '/', '.', '/'];
    assert(verbatim@ == seq!['/', '/', '?', '/']);
    assert(device@ == seq!['/', '/', '.', '/']);
    text::starts_with(&q, &verbatim) || text::starts_with(&q, &device)
}

/// Fails unless `path` is an absolute POSIX path.
pub fn validate_posix_path(path: &[char]) -> (r: Result<(), EnvironmentPathError>)
    ensures
        reports(r, posix_fault(path@)),
{
    if path.len() == 0 {
        return Err(EnvironmentPathError::Empty);
    }
    if text::has_char(path, '\0') {
        return Err(EnvironmentPathError::ContainsNull);
    }
    if path[0] != '/' {
        return Err(EnvironmentPathError::NotAbsolute(text::string_of(path)));
    }
    Ok(())
}

/// Fails unless `path` is an absolute path in URI syntax.
pub fn validate_environment_path(path: &[char]) -> (r: Result<(), EnvironmentPathError>)
    ensures
        reports(r, environment_fault(path@)),
{
    match validate_posix_path(path) {
        Ok(()) => {},
        Err(e) => return Err(e),
    }
    if has_unsupported_windows_namespace(path) {
        return Err(EnvironmentPathError::UnsupportedWindowsNamespace(text::string_of(path)));
    }
    if unc_root(path) && !is_valid_unc_path(path) {
        return Err(EnvironmentPathError::InvalidWindowsUncPath(text::string_of(path)));
    }
    Ok(())
}

/// Fails unless `path` is an absolute native Windows path.
pub fn validate_windows_path(path: &[char]) -> (r: Result<(), EnvironmentPathError>)
    ensures
        reports(r, windows_fault(path@)),
{
    if path.len() == 0 {
        return Err(EnvironmentPathError::Empty);
    }
    if text::has_char(path, '\0') {
        return Err(EnvironmentPathError::ContainsNull);
    }
    if has_unsupported_windows_namespace(path) {
        return Err(EnvironmentPathError::UnsupportedWindowsNamespace(text::string_of(path)));
    }
    if starts_with_two(path, '\\') || starts_with_two(path, '/') {
        let normalized = text::replaced(path, '\\', '/');
        if unc_root(&normalized) && is_valid_unc_path(&normalized) {
            return Ok(());
        }
        return Err(EnvironmentPathError::InvalidWindowsUncPath(text::string_of(path)));
    }
    if path.len() >= 3 && text::ascii_letter(path[0]) && path[1] == ':' && (path[2] == '/'
        || path[2] == '\\') {
        return Ok(());
    }
    Err(EnvironmentPathError::NotAbsolute(text::string_of(path)))
}

/// Builds the path with the components `names` and the kind of root of `original`.
pub fn format_environment_path(
    original: &[char],
    names: &[Vec<char>],
    normalization: PathNormalization,
) -> (r: Vec<char>)
    ensures
        r@ == format_path(original@, text::char_views(names@), normalization),
{
    let body = text::joined(names, '/');
    let mut out: Vec<char> = Vec::new();
    out.push('/');
    if unc_root(original) {
        out.push('/');
        text::append_chars(&mut out, &body);
        assert(out@ == seq!['/', '/'] + body@);
        return out;
    }
    text::append_chars(&mut out, &body);
    assert(out@ == seq!['/'] + body@);
    let infer = match normalization {
        PathNormalization::Posix => false,
        PathNormalization::InferWindowsRoots => true,
    };
    let rooted = (original.len() > 0 && original[original.len() - 1] == '/')
        || is_windows_drive_path(original);
    if names.len() == 1 {
        assert(text::char_views(names@)[0] == names@[0]@);
    }
    if infer && rooted && names.len() == 1 && names[0].len() == 2 && names[0][1] == ':'
        && text::ascii_letter(names[0][0]) {
        out.push('/');
    }
    out
}

/// Removes `.` and resolves `..`, never dropping one of the first `depth` names.
fn resolved(names: &[Vec<char>], depth: usize) -> (r: Vec<Vec<char>>)
    ensures
        text::char_views(r@) == resolve(text::char_views(names@), depth as nat),
{
    let mut out: Vec<Vec<char>> = Vec::new();
    let mut i: usize = 0;
    assert(text::char_views(names@.take(0)) =~= Seq::empty());
    while i < names.len()
        invariant
            i <= names.len(),
            text::char_views(out@) == resolve(text::char_views(names@.take(i as int)), depth as nat),
        decreases names.len() - i,
    {
        let ghost before = out@;
        proof {
            let post = text::char_views(names@.take(i + 1));
            assert(post.drop_last() == text::char_views(names@.take(i as int)));
            assert(post.last() == names@[i as int]@);
            assert(text::char_views(before).len() == before.len());
        }
        let name: &Vec<char> = &names[i];
        let is_dot = name.len() == 1 && name[0] == '.';
        let is_dot_dot = name.len() == 2 && name[0] == '.' && name[1] == '.';
        assert(is_dot ==> name@ =~= dot());
        assert(is_dot_dot ==> name@ =~= dot_dot());
        if name.len() == 0 || is_dot {
        } else if is_dot_dot {
            if out.len() > depth {
                out.pop();
                assert(text::char_views(out@) == text::char_views(before).drop_last());
            }
        } else {
            out.push(text::part(name, 0, name.len()));
            assert(name@.subrange(0, name@.len() as int) == name@);
            assert(text::char_views(out@) == text::char_views(before).push(name@));
        }
        i += 1;
    }
    assert(names@.take(names@.len() as int) == names@);
    out
}

/// Puts the letter of a leading drive in lower case.
fn lower_drive_letter(names: &mut Vec<Vec<char>>)
    ensures
        text::char_views(final(names)@) == lower_drive(text::char_views(old(names)@)),
{
    assert(names@.len() > 0 ==> text::char_views(names@)[0] == names@[0]@);
    if names.len() > 0 && names[0].len() == 2 && names[0][1] == ':' && text::ascii_letter(
        names[0][0],
    ) {
        let drive = vec![text::lower_char(names[0][0]), ':'];
        assert(drive@ == seq![text::ascii_lower_char(names@[0]@[0]), ':']);
        let ghost before = names@;
        names.set(0, drive);
        assert(text::char_views(names@) == lower_drive(text::char_views(before)));
    }
}

/// The normal form of `path`: no empty and no `.` components, and `..`
/// resolved without escaping the root.
pub fn normalize_environment_path(path: &[char], normalization: PathNormalization) -> (r: Vec<char>)
    ensures
        r@ == normalize(path@, normalization),
{
    let infer = match normalization {
        PathNormalization::Posix => false,
        PathNormalization::InferWindowsRoots => true,
    };
    let depth: usize = if infer {
        environment_path_root_depth(path)
    } else {
        0
    };
    let names = environment_path_components(path);
    let mut kept = resolved(&names, depth);
    if infer && !unc_root(path) {
        lower_drive_letter(&mut kept);
    }
    format_environment_path(path, &kept, normalization)
}

impl EnvironmentPath {
    /// Creates a path from canonical URI path syntax.
    pub fn new(path: &str) -> (r: Result<Self, EnvironmentPathError>)
        ensures
            outcome(r) == new_path(path@),
    {
        let given = text::chars_of(path);
        Self::from_chars(&given)
    }

    fn from_chars(path: &[char]) -> (r: Result<Self, EnvironmentPathError>)
        ensures
            outcome(r) == new_path(path@),
    {
        match validate_environment_path(path) {
            Ok(()) => {},
            Err(e) => return Err(e),
        }
        let normal = normalize_environment_path(path, PathNormalization::InferWindowsRoots);
        match validate_environment_path(&normal) {
            Ok(()) => {},
            Err(e) => return Err(e),
        }
        Ok(EnvironmentPath(text::string_of(&normal)))
    }

    /// Creates a path from native POSIX syntax.
    pub fn posix(path: &str) -> (r: Result<Self, EnvironmentPathError>)
        ensures
            outcome(r) == posix_path(path@),
    {
        let given = text::chars_of(path);
        match validate_posix_path(&given) {
            Ok(()) => {},
            Err(e) => return Err(e),
        }
        let normal = normalize_environment_path(&given, PathNormalization::Posix);
        Ok(EnvironmentPath(text::string_of(&normal)))
    }

    /// Creates a path from native Windows syntax.
    pub fn windows(path: &str) -> (r: Result<Self, EnvironmentPathError>)
        ensures
            outcome(r) == windows_path(path@),
    {
        let given = text::chars_of(path);
        match validate_windows_path(&given) {
            Ok(()) => {},
            Err(e) => return Err(e),
        }
        let q = text::replaced(&given, '\\', '/');
        let two = ['/', '/'];
        assert(two@ == seq!['/', '/']);
        if text::starts_with(&q, &two) {
            let normal = normalize_environment_path(&q, PathNormalization::InferWindowsRoots);
            return Ok(EnvironmentPath(text::string_of(&normal)));
        }
        let mut rooted: Vec<char> = Vec::new();
        rooted.push('/');
        text::append_chars(&mut rooted, &q);
        assert(rooted@ == seq!['/'] + q@);
        Self::from_chars(&rooted)
    }

    /// The stored spelling.
    pub fn as_str(&self) -> (r: &str)
        ensures
            r@ == self@,
    {
        self.0.as_str()
    }

    /// Converts this canonical URI path to the requested native path syntax.
    ///
    /// Windows conversion only succeeds for a fully qualified drive or UNC
    /// path. This avoids returning root-relative paths whose meaning depends on
    /// the process's current drive.
    pub fn to_native_path(&self, flavor: PathFlavor) -> (r: Result<String, EnvironmentPathError>)
        ensures
            match r {
                Ok(p) => native_path(self@, flavor) == Ok::<Seq<char>, PathFault>(p@),
                Err(e) => native_path(self@, flavor) == Err::<Seq<char>, PathFault>(e@),
            },
    {
        match flavor {
            PathFlavor::Posix => Ok(self.0.clone()),
            PathFlavor::Windows => {
                let stored = text::chars_of(self.0.as_str());
                if has_unsupported_windows_namespace(&stored) {
                    return Err(
                        EnvironmentPathError::UnsupportedWindowsNamespace(self.0.clone()),
                    );
                }
                let q = text::replaced(&stored, '\\', '/');
                let two = ['/', '/'];
                assert(two@ == seq!['/', '/']);
                if !(is_windows_drive_path(&q) || (text::starts_with(&q, &two)
                    && is_valid_unc_path(&q))) {
                    return Err(
                        EnvironmentPathError::IncompatiblePathFlavor {
                            path: self.0.clone(),
                            flavor,
                        },
                    );
                }
                let normal = normalize_environment_path(&q, PathNormalization::InferWindowsRoots);
                let native = if is_windows_drive_path(&normal) {
                    text::part(&normal, 1, normal.len())
                } else if unc_root(&normal) && is_valid_unc_path(&normal) {
                    normal
                } else {
                    return Err(
                        EnvironmentPathError::IncompatiblePathFlavor {
                            path: self.0.clone(),
                            flavor,
                        },
                    );
                };
                Ok(text::string_of(&text::replaced(&native, '/', '\\')))
            },
        }
    }

    /// The final path component, or `None` for a filesystem root.
    pub fn basename(&self) -> (r: Option<&str>)
        ensures
            match r {
                Some(name) => base_name(self@) == Some(name@),
                None => base_name(self@) is None,
            },
    {
        let stored = text::chars_of(self.0.as_str());
        let depth = environment_path_root_depth(&stored);
        let names = environment_path_components(&stored);
        assert(text::char_views(names@).len() == names@.len());
        if names.len() <= depth {
            return None;
        }
        let mut to: usize = stored.len();
        while to > 0 && stored[to - 1] == '/'
            invariant
                to <= stored@.len(),
                forall|k: int| to <= k < stored@.len() ==> stored@[k] == '/',
            decreases to,
        {
            to -= 1;
        }
        let mut from: usize = to;
        while from > 0 && stored[from - 1] != '/'
            invariant
                from <= to <= stored@.len(),
                forall|k: int| from <= k < to ==> stored@[k] != '/',
            decreases from,
        {
            from -= 1;
        }
        proof {
            lemma_last_component(stored@, from as int, to as int);
        }
        Some(self.0.as_str().substring_char(from, to))
    }

    /// The normalized parent path, or `None` for a filesystem root.
    pub fn parent(&self) -> (r: Option<Self>)
        ensures
            match r {
                Some(p) => parent_path(self@) == Some(p@),
                None => parent_path(self@) is None,
            },
    {
        let stored = text::chars_of(self.0.as_str());
        let depth = environment_path_root_depth(&stored);
        let mut names = environment_path_components(&stored);
        let ghost all = names@;
        assert(text::char_views(all).len() == all.len());
        if names.len() <= depth {
            return None;
        }
        names.pop();
        assert(text::char_views(names@) == text::char_views(all).drop_last());
        let parent = format_environment_path(
            &stored,
            &names,
            PathNormalization::InferWindowsRoots,
        );
        Some(EnvironmentPath(text::string_of(&parent)))
    }

    /// Lexically joins a relative normalized URI path onto this path.
    pub fn join(&self, path: &str) -> (r: Result<Self, EnvironmentPathError>)
        ensures
            outcome(r) == join_path(self@, path@),
    {
        let relative = text::chars_of(path);
        if relative.len() > 0 && relative[0] == '/' {
            return Err(EnvironmentPathError::JoinPathMustBeRelative(text::string_of(&relative)));
        }
        if text::has_char(&relative, '\0') {
            return Err(EnvironmentPathError::ContainsNull);
        }
        if relative.len() == 0 {
            return Ok(EnvironmentPath(self.0.clone()));
        }
        let stored = text::chars_of(self.0.as_str());
        let mut end: usize = stored.len();
        while end > 0 && stored[end - 1] == '/'
            invariant
                end <= stored@.len(),
                forall|k: int| end <= k < stored@.len() ==> stored@[k] == '/',
            decreases end,
        {
            end -= 1;
        }
        proof {
            text::lemma_trim_end_at(stored@, |c: char| c == '/', end as int);
        }
        let mut whole = text::part(&stored, 0, end);
        assert(whole@ == stored@.take(end as int));
        whole.push('/');
        text::append_chars(&mut whole, &relative);
        Self::from_chars(&whole)
    }

    /// Wraps a path that some other rule has already put into its stored form.
    pub(crate) fn from_normalized(path: String) -> (r: Self)
        ensures
            r@ == path@,
    {
        EnvironmentPath(path)
    }
}

// ---------------------------------------------------------------------------
// Facts about components
// ---------------------------------------------------------------------------
/// The run of non-slash characters before the trailing slashes is the last component.
proof fn lemma_last_component(p: Seq<char>, from: int, to: int)
    requires
        0 <= from <= to <= p.len(),
        forall|k: int| to <= k < p.len() ==> p[k] == '/',
        to > 0 ==> p[to - 1] != '/',
        forall|k: int| from <= k < to ==> p[k] != '/',
        from > 0 ==> p[from - 1] == '/',
    ensures
        to > 0 ==> components(p).len() > 0 && components(p).last() == p.subrange(from, to),
        to == 0 ==> components(p).len() == 0,
    decreases p.len() - to,
{
    if to < p.len() {
        let q = p.drop_last();
        assert forall|k: int| to <= k < q.len() implies q[k] == '/' by {
            assert(q[k] == p[k]);
        }
        assert(to > 0 ==> q[to - 1] == p[to - 1]);
        assert forall|k: int| from <= k < to implies q[k] != '/' by {
            assert(q[k] == p[k]);
        }
        assert(from > 0 ==> q[from - 1] == p[from - 1]);
        lemma_last_component(q, from, to);
        assert(q.push('/') == p);
        text::lemma_pieces_trail(q, '/');
        assert(q.subrange(from, to) == p.subrange(from, to));
    } else if to == 0 {
        assert(p == Seq::<char>::empty());
        text::lemma_single_piece(p, '/');
    } else {
        let name = p.subrange(from, to);
        assert(!name.contains('/')) by {
            assert forall|k: int| 0 <= k < name.len() implies name[k] != '/' by {
                assert(name[k] == p[from + k]);
            }
        }
        text::lemma_single_piece(name, '/');
        if from == 0 {
            assert(name == p);
        } else {
            let head = p.take(from - 1);
            assert(p == head + seq!['/'] + name);
            text::lemma_pieces_concat(head, name, '/');
        }
    }
}

// ---------------------------------------------------------------------------
// Sizes
// ---------------------------------------------------------------------------
proof fn lemma_resolve_size(names: Seq<Seq<char>>, depth: nat)
    ensures
        text::segments_size(resolve(names, depth)) <= text::segments_size(names),
    decreases names.len(),
{
    if names.len() > 0 {
        let before = resolve(names.drop_last(), depth);
        lemma_resolve_size(names.drop_last(), depth);
        assert(before.push(names.last()).drop_last() == before);
    }
}

proof fn lemma_lower_drive_size(names: Seq<Seq<char>>)
    ensures
        text::segments_size(lower_drive(names)) == text::segments_size(names),
{
    if names.len() > 0 && is_drive_name(names[0]) {
        let drive = seq![text::ascii_lower_char(names[0][0]), ':'];
        let rest = names.skip(1);
        assert(names =~= seq![names[0]] + rest);
        assert(lower_drive(names) =~= seq![drive] + rest);
        text::lemma_segments_size_concat(seq![names[0]], rest);
        text::lemma_segments_size_concat(seq![drive], rest);
        text::lemma_single_size(names[0]);
        text::lemma_single_size(drive);
        vstd::utf8::is_ascii_chars_encode_utf8(names[0]);
        vstd::utf8::is_ascii_chars_encode_utf8(drive);
    }
}

/// Normalization adds at most two slashes.
pub proof fn lemma_normalized_size(p: Seq<char>, mode: PathNormalization)
    ensures
        text::utf8_len(normalize(p, mode)) <= text::utf8_len(p) + 2,
{
    let depth = if mode is InferWindowsRoots {
        root_depth(p)
    } else {
        0
    };
    let names = normal_names(p, mode);
    let body = text::join_with(names, seq!['/']);
    text::lemma_split_size(p);
    text::lemma_non_empty_size(text::split_on(p, '/'));
    lemma_resolve_size(components(p), depth);
    lemma_lower_drive_size(resolve(components(p), depth));
    text::lemma_join_size(names);
    text::lemma_slash_size();
    text::lemma_utf8_len_concat(seq!['/'], body);
    text::lemma_utf8_len_concat(seq!['/'], seq!['/']);
    assert(seq!['/'] + seq!['/'] =~= seq!['/', '/']);
    text::lemma_utf8_len_concat(seq!['/', '/'], body);
    assert((seq!['/'] + body).push('/') =~= seq!['/'] + body + seq!['/']);
    text::lemma_utf8_len_concat(seq!['/'] + body, seq!['/']);
}

} // verus!
