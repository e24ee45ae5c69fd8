//! Where the Codex home directory and its runtime caches are.

use vstd::prelude::*;
use vstd::utf8::*;

use crate::directories;
use crate::environment_path::PathFlavor;
use crate::text;

verus! {

/// The environment variable that opts into a native home under WSL.
pub const CODEX_DESKTOP_WSL_NATIVE_CODEX_HOME_ENV_VAR: &'static str = "CODEX_DESKTOP_WSL_NATIVE_CODEX_HOME";

/// The name of the Codex home under the home directory of the user.
pub const DEFAULT_CODEX_HOME_NAME: &'static str = ".codex";

/// Where native runtime caches are under the home directory of the user.
pub const NATIVE_CACHE_DIR: &'static str = ".codex/runtime/wsl";

/// The namespace of a distribution without a usable name.
pub const DEFAULT_NAMESPACE: &'static str = "default";

// ---------------------------------------------------------------------------
// Windows paths under WSL
// ---------------------------------------------------------------------------
/// `x:/` and anything after it.
pub open spec fn is_drive_spelling(p: Seq<char>) -> bool {
    p.len() >= 3 && text::is_ascii_letter(p[0]) && p[1] == ':' && p[2] == '/'
}

/// `/mnt/x` and anything below it, in any case.
pub open spec fn is_drive_mount(p: Seq<char>) -> bool {
    let names = text::non_empty(text::split_on(p, '/'));
    &&& names.len() >= 2
    &&& text::ascii_lower(names[0]) == seq!['m', 'n', 't']
    &&& names[1].len() == 1
    &&& text::is_ascii_letter(names[1][0])
}

/// Whether `path` is on a Windows drive, as seen from WSL.
pub open spec fn is_windows_backed(path: Seq<char>) -> bool {
    let p = text::replace_char(path, '\\', '/');
    is_drive_spelling(p) || is_drive_mount(p)
}

/// Whether `path` is on a Windows drive, as seen from WSL.
pub fn looks_like_windows_path_in_wsl(path: &str) -> (r: bool)
    ensures
        r == is_windows_backed(path@),
{
    let chars = text::chars_of(path);
    let normalized = text::replaced(&chars, '\\', '/');
    if normalized.len() >= 3 && normalized[1] == ':' && text::ascii_letter(normalized[0])
        && normalized[2] == '/' {
        return true;
    }
    let names = text::split_non_empty(&normalized, '/');
    assert(text::char_views(names@).len() == names@.len());
    if names.len() < 2 {
        return false;
    }
    let mnt = ['m', 'n', 't'];
    assert(mnt@ == seq!['m', 'n', 't']);
    let first = text::lower_chars(&names[0]);
    assert(text::char_views(names@)[0] == names@[0]@);
    assert(text::char_views(names@)[1] == names@[1]@);
    text::same(&first, &mnt) && names[1].len() == 1 && text::ascii_letter(names[1][0])
}

/// Whether a path, which has a spelling only if it is text, is on a Windows
/// drive.
pub fn path_looks_like_windows_path_in_wsl(path: Option<&str>) -> (r: bool)
    ensures
        r == (path is Some && is_windows_backed(path->0@)),
{
    match path {
        Some(path) => looks_like_windows_path_in_wsl(path),
        None => false,
    }
}

/// Whether a configured home gives way to the native one.
pub fn should_use_native_wsl_codex_home(
    codex_home_env: &str,
    is_wsl: bool,
    use_native_wsl_codex_home: bool,
) -> (r: bool)
    ensures
        r == (is_wsl && use_native_wsl_codex_home && is_windows_backed(codex_home_env@)),
{
    is_wsl && use_native_wsl_codex_home && looks_like_windows_path_in_wsl(codex_home_env)
}

/// The values that switch a variable on.
pub open spec fn is_truthy(value: Seq<char>) -> bool {
    value == "1"@ || value == "true"@ || value == "TRUE"@ || value == "yes"@ || value == "on"@
}

/// Whether the value of an environment variable, if it is set, switches it on.
pub fn env_var_truthy(value: Option<&str>) -> (r: bool)
    ensures
        r == (value is Some && is_truthy(value->0@)),
{
    match value {
        Some(value) => {
            let chars = text::chars_of(value);
            text::is_text(&chars, "1") || text::is_text(&chars, "true") || text::is_text(
                &chars,
                "TRUE",
            ) || text::is_text(&chars, "yes") || text::is_text(&chars, "on")
        },
        None => false,
    }
}

// ---------------------------------------------------------------------------
// Recognizing WSL
// ---------------------------------------------------------------------------
/// What `str::to_lowercase` makes of a text.
pub uninterp spec fn lowercase(s: Seq<char>) -> Seq<char>;

/// Wraps `str::to_lowercase`.
///
/// Trusted: the result depends on the text alone, and ASCII text has its
/// letters in lower case. What other letters become is left to the standard
/// library.
#[verifier::external_body]
fn to_lowercase(s: &str) -> (r: String)
    ensures
        r@ == lowercase(s@),
        is_ascii_chars(s@) ==> r@ == text::ascii_lower(s@),
{
    s.to_lowercase()
}

/// Whether a kernel version in lower case is that of WSL.
pub fn names_microsoft(version: &str) -> (r: bool)
    ensures
        r == text::occurs_in(version@, "microsoft"@),
{
    let chars = text::chars_of(version);
    text::has_text(&chars, "microsoft")
}

/// Whether Linux runs under WSL, going by whether a distribution is named and
/// by the kernel version, if it can be read.
pub fn is_wsl_runtime(has_distro_name: bool, version: Option<&str>) -> (r: bool)
    ensures
        r == (has_distro_name || (version is Some && text::occurs_in(
            lowercase(version->0@),
            "microsoft"@,
        ))),
        version matches Some(v) ==> (is_ascii_chars(v@) ==> r == (has_distro_name
            || text::occurs_in(text::ascii_lower(v@), "microsoft"@))),
        version matches Some(v) ==> (is_ascii_chars(v@) && !has_distro_name ==> lowercase(v@)
            == text::ascii_lower(v@)),
{
    if has_distro_name {
        return true;
    }
    match version {
        Some(version) => names_microsoft(to_lowercase(version).as_str()),
        None => false,
    }
}

// ---------------------------------------------------------------------------
// Finding the home
// ---------------------------------------------------------------------------
/// What kind of failure it is.
#[derive(Clone, Copy, Debug, PartialEq, Eq, Structural)]
pub enum HomeErrorKind {
    NotFound,
    InvalidInput,
    /// The kind of the failure that led to it.
    SameAsCause,
}

/// Why there is no home directory to use.
#[derive(Clone, Debug, PartialEq, Eq)]
pub struct HomeError {
    pub kind: HomeErrorKind,
    pub message: String,
}

/// The next step in finding the home.
#[derive(Clone, Debug, PartialEq, Eq)]
pub enum HomeSearch {
    /// Look at this configured path.
    Check(String),
    /// Use this path, which need not exist.
    Found(String),
    Failed(HomeError),
}

/// What is at a configured path.
#[derive(Clone, Debug, PartialEq, Eq)]
pub enum HomeMetadata {
    Directory,
    NotADirectory,
    NotFound,
    /// Any other failure, with its message.
    Failed(String),
}

/// What `format!` with `{:?}` makes of a text.
pub uninterp spec fn debug_text(s: Seq<char>) -> Seq<char>;

/// Wraps the `Debug` formatting of `str`.
///
/// Trusted: the result depends on the text alone. How it quotes and escapes
/// the text is left to the standard library.
#[verifier::external_body]
fn quoted(s: &str) -> (r: String)
    ensures
        r@ == debug_text(s@),
{
    format!("{s:?}")
}

/// The configured home that counts, if there is one.
pub open spec fn effective_home(
    configured: Option<Seq<char>>,
    is_wsl: bool,
    native: bool,
) -> Option<Seq<char>> {
    match configured {
        Some(v) => if is_wsl && native && is_windows_backed(v) {
            None
        } else {
            Some(v)
        },
        None => None,
    }
}

pub open spec fn str_view(s: Option<&str>) -> Option<Seq<char>> {
    match s {
        Some(s) => Some(s@),
        None => None,
    }
}

/// `value` unless it is empty.
pub fn non_empty_value(value: Option<String>) -> (r: Option<String>)
    ensures
        match value {
            Some(v) => if v@.len() > 0 {
                r == Some(v)
            } else {
                r is None
            },
            None => r is None,
        },
{
    match value {
        Some(v) => {
            let empty = v.as_str().is_empty();
            if empty {
                None
            } else {
                Some(v)
            }
        },
        None => None,
    }
}

/// The Codex home of a user whose home directory is `home`.
pub fn codex_home_under(home: &str, host: PathFlavor) -> (r: String)
    ensures
        r@ == under(home@, DEFAULT_CODEX_HOME_NAME@, host),
        host is Posix && home@.len() > 0 && home@.last() != '/' ==> r@ == home@ + "/.codex"@,
{
    proof {
        reveal_strlit(".codex");
        reveal_strlit("/.codex");
        assert(home@.push('/') + ".codex"@ =~= home@ + "/.codex"@);
    }
    join_under(home, DEFAULT_CODEX_HOME_NAME, host)
}

/// Decides where the home is: at the configured path, which is still to be
/// checked, or under the home directory of the user.
pub fn find_codex_home_from_env_and_context(
    codex_home_env: Option<&str>,
    is_wsl: bool,
    use_native_wsl_codex_home: bool,
    default_home_dir: Option<&str>,
    host: PathFlavor,
) -> (r: HomeSearch)
    ensures
        match effective_home(str_view(codex_home_env), is_wsl, use_native_wsl_codex_home) {
            Some(v) => r matches HomeSearch::Check(p) && p@ == v,
            None => match default_home_dir {
                Some(home) => r matches HomeSearch::Found(p) && p@ == under(
                    home@,
                    DEFAULT_CODEX_HOME_NAME@,
                    host,
                ),
                None => r matches HomeSearch::Failed(e) && e.kind is NotFound && e.message@
                    == "Could not find home directory"@,
            },
        },
{
    match codex_home_env {
        Some(val) => if !should_use_native_wsl_codex_home(
            val,
            is_wsl,
            use_native_wsl_codex_home,
        ) {
            return HomeSearch::Check(val.to_owned());
        },
        None => {},
    }
    match default_home_dir {
        Some(home) => HomeSearch::Found(codex_home_under(home, host)),
        None => HomeSearch::Failed(
            HomeError {
                kind: HomeErrorKind::NotFound,
                message: "Could not find home directory".to_owned(),
            },
        ),
    }
}

/// What is wrong with a configured home that is quoted as `quoted`, or nothing
/// if it is a directory.
pub open spec fn home_fault(quoted: Seq<char>, found: HomeMetadata) -> Option<
    (HomeErrorKind, Seq<char>),
> {
    match found {
        HomeMetadata::Directory => None,
        HomeMetadata::NotADirectory => Some(
            (
                HomeErrorKind::InvalidInput,
                "CODEX_HOME points to "@ + quoted + ", but that path is not a directory"@,
            ),
        ),
        HomeMetadata::NotFound => Some(
            (
                HomeErrorKind::NotFound,
                "CODEX_HOME points to "@ + quoted + ", but that path does not exist"@,
            ),
        ),
        HomeMetadata::Failed(error) => Some(
            (
                HomeErrorKind::SameAsCause,
                "failed to read CODEX_HOME "@ + quoted + ": "@ + error@,
            ),
        ),
    }
}

pub open spec fn tells(r: Result<(), HomeError>, fault: Option<(HomeErrorKind, Seq<char>)>) -> bool {
    match fault {
        None => r is Ok,
        Some((kind, message)) => r matches Err(e) && e.kind == kind && e.message@ == message,
    }
}

/// Takes what is at a configured path whose quoted spelling is `quoted`.
pub fn check_quoted_home(quoted: &str, found: &HomeMetadata) -> (r: Result<(), HomeError>)
    ensures
        tells(r, home_fault(quoted@, *found)),
{
    match found {
        HomeMetadata::Directory => Ok(()),
        HomeMetadata::NotADirectory => {
            let mut message: String = "CODEX_HOME points to ".to_owned();
            message.append(quoted);
            message.append(", but that path is not a directory");
            Err(HomeError { kind: HomeErrorKind::InvalidInput, message })
        },
        HomeMetadata::NotFound => {
            let mut message: String = "CODEX_HOME points to ".to_owned();
            message.append(quoted);
            message.append(", but that path does not exist");
            Err(HomeError { kind: HomeErrorKind::NotFound, message })
        },
        HomeMetadata::Failed(error) => {
            let mut message: String = "failed to read CODEX_HOME ".to_owned();
            message.append(quoted);
            message.append(": ");
            message.append(error.as_str());
            Err(HomeError { kind: HomeErrorKind::SameAsCause, message })
        },
    }
}

/// Takes what is at the configured path `val`: only a directory will do.
pub fn check_codex_home(val: &str, found: &HomeMetadata) -> (r: Result<(), HomeError>)
    ensures
        tells(r, home_fault(debug_text(val@), *found)),
{
    check_quoted_home(quoted(val).as_str(), found)
}

/// The error for a configured path, quoted as `quoted`, that could not be
/// canonicalized.
pub fn quoted_canonicalize_error(quoted: &str, error: &str) -> (r: HomeError)
    ensures
        r.kind is SameAsCause,
        r.message@ == "failed to canonicalize CODEX_HOME "@ + quoted@ + ": "@ + error@,
{
    let mut message: String = "failed to canonicalize CODEX_HOME ".to_owned();
    message.append(quoted);
    message.append(": ");
    message.append(error);
    HomeError { kind: HomeErrorKind::SameAsCause, message }
}

/// The error for the configured path `val` that could not be canonicalized.
pub fn canonicalize_error(val: &str, error: &str) -> (r: HomeError)
    ensures
        r.kind is SameAsCause,
        r.message@ == "failed to canonicalize CODEX_HOME "@ + debug_text(val@) + ": "@ + error@,
{
    quoted_canonicalize_error(quoted(val).as_str(), error)
}

// ---------------------------------------------------------------------------
// Runtime caches
// ---------------------------------------------------------------------------
/// Whether `c` stays as it is in a namespace.
pub open spec fn is_namespace_char(c: char) -> bool {
    text::is_ascii_letter(c) || text::is_ascii_digit(c) || c == '-' || c == '_' || c == '.'
}

/// `value` with a dash for every character that a namespace cannot have.
pub open spec fn with_dashes(value: Seq<char>) -> Seq<char> {
    value.map_values(
        |c: char|
            if is_namespace_char(c) {
                c
            } else {
                '-'
            },
    )
}

/// `s` without dashes at either end.
pub open spec fn without_outer_dashes(s: Seq<char>) -> Seq<char> {
    text::trim_end_by(text::trim_start_by(s, |c: char| c == '-'), |c: char| c == '-')
}

/// The namespace for `value`.
pub open spec fn namespace_of(value: Seq<char>) -> Seq<char> {
    let s = without_outer_dashes(with_dashes(value));
    if s.len() == 0 {
        DEFAULT_NAMESPACE@
    } else {
        s
    }
}

/// The namespace for `value`.
pub fn sanitize_namespace_component(value: &str) -> (r: String)
    ensures
        r@ == namespace_of(value@),
{
    let chars = text::chars_of(value);
    let mut out: Vec<char> = Vec::new();
    let mut i: usize = 0;
    while i < chars.len()
        invariant
            i <= chars@.len(),
            out@ == with_dashes(chars@).take(i as int),
        decreases chars.len() - i,
    {
        let c = chars[i];
        if text::ascii_letter(c) || text::ascii_digit(c) || c == '-' || c == '_' || c == '.' {
            out.push(c);
        } else {
            out.push('-');
        }
        i += 1;
        assert(with_dashes(chars@).take(i as int) == with_dashes(chars@).take(i - 1).push(
            with_dashes(chars@)[i - 1],
        ));
    }
    assert(with_dashes(chars@).take(chars@.len() as int) == with_dashes(chars@));
    let ghost dash = |c: char| c == '-';
    let mut from: usize = 0;
    while from < out.len() && out[from] == '-'
        invariant
            from <= out@.len(),
            forall|k: int| 0 <= k < from ==> #[trigger] out@[k] == '-',
        decreases out.len() - from,
    {
        from += 1;
    }
    let mut to: usize = out.len();
    while to > from && out[to - 1] == '-'
        invariant
            from <= to <= out@.len(),
            forall|k: int| to <= k < out@.len() ==> #[trigger] out@[k] == '-',
        decreases to - from,
    {
        to -= 1;
    }
    proof {
        assert forall|i: int| 0 <= i < from implies dash(#[trigger] out@[i]) by {}
        text::lemma_trim_start_at(out@, dash, from as int);
        let t = out@.skip(from as int);
        assert forall|i: int| to - from <= i < t.len() implies dash(#[trigger] t[i]) by {
            assert(t[i] == out@[i + from]);
        }
        assert(to > from ==> t[to - from - 1] == out@[to - 1]);
        text::lemma_trim_end_at(t, dash, to - from);
        assert(t.take(to - from) == out@.subrange(from as int, to as int));
    }
    if from == to {
        return DEFAULT_NAMESPACE.to_owned();
    }
    text::string_of(&text::part(&out, from, to))
}

/// Whether a name can follow the directory `base` as it is: nothing stands
/// before it, a separator does, or on Windows a drive, which has a current
/// directory of its own.
pub open spec fn takes_names(base: Seq<char>, host: PathFlavor) -> bool {
    ||| base.len() == 0
    ||| base.last() == '/'
    ||| host is Windows && base.last() == '\\'
    ||| host is Windows && base.len() == 2 && text::is_ascii_letter(base[0]) && base[1] == ':'
}

/// The relative path `name` under the directory `base`, as the host joins them.
pub open spec fn under(base: Seq<char>, name: Seq<char>, host: PathFlavor) -> Seq<char> {
    if takes_names(base, host) {
        base + name
    } else {
        base.push(directories::separator(host)) + name
    }
}

fn join_under(base: &str, name: &str, host: PathFlavor) -> (r: String)
    ensures
        r@ == under(base@, name@, host),
{
    let chars = text::chars_of(base);
    let total: usize = chars.len();
    let mut out: String = base.to_owned();
    let windows = match host {
        PathFlavor::Posix => false,
        PathFlavor::Windows => true,
    };
    let ready = total == 0 || chars[total - 1] == '/' || (windows && chars[total - 1] == '\\') || (
    windows && total == 2 && text::ascii_letter(chars[0]) && chars[1] == ':');
    if !ready {
        out.push(
            if windows {
                '\\'
            } else {
                '/'
            },
        );
    }
    out.append(name);
    out
}

/// Where runtime caches go: next to everything else, unless that is on a
/// Windows drive seen from WSL and there is a native home to go to.
pub open spec fn cache_home(
    codex_home: Seq<char>,
    is_wsl: bool,
    default_home: Option<Seq<char>>,
    distro: Option<Seq<char>>,
    host: PathFlavor,
) -> Seq<char> {
    match default_home {
        Some(home) => if is_wsl && is_windows_backed(codex_home) {
            under(
                under(home, NATIVE_CACHE_DIR@, host),
                namespace_of(
                    match distro {
                        Some(d) => d,
                        None => DEFAULT_NAMESPACE@,
                    },
                ),
                host,
            )
        } else {
            codex_home
        },
        None => codex_home,
    }
}

/// Where runtime caches go when the Codex home is at `codex_home`.
pub fn runtime_cache_home_for_codex_home_from_context(
    codex_home: &str,
    is_wsl: bool,
    default_home_dir: Option<&str>,
    distro_name: Option<&str>,
    host: PathFlavor,
) -> (r: String)
    ensures
        r@ == cache_home(
            codex_home@,
            is_wsl,
            str_view(default_home_dir),
            str_view(distro_name),
            host,
        ),
{
    if !is_wsl || !looks_like_windows_path_in_wsl(codex_home) {
        return codex_home.to_owned();
    }
    let native_home = match default_home_dir {
        Some(home) => home,
        None => {
            return codex_home.to_owned();
        },
    };
    let distro = match distro_name {
        Some(name) => name,
        None => DEFAULT_NAMESPACE,
    };
    let base = join_under(native_home, NATIVE_CACHE_DIR, host);
    join_under(base.as_str(), sanitize_namespace_component(distro).as_str(), host)
}

// ---------------------------------------------------------------------------
// Laws
// ---------------------------------------------------------------------------
proof fn lemma_trimmed_dashes(s: Seq<char>)
    ensures
        ({
            let t = without_outer_dashes(s);
            &&& t.len() > 0 ==> t[0] != '-' && t.last() != '-'
            &&& forall|c: char| t.contains(c) ==> s.contains(c)
        }),
{
    let dash = |c: char| c == '-';
    let a = text::trim_start_by(s, dash);
    text::lemma_trim_start_head(s, dash);
    lemma_trim_end_shape(a, dash);
    lemma_trim_start_shape(s, dash);
    let t = without_outer_dashes(s);
    if t.len() > 0 {
        assert(t[0] == a[0]);
    }
    assert forall|c: char| t.contains(c) implies s.contains(c) by {
        let i = choose|i: int| 0 <= i < t.len() && t[i] == c;
        assert(a[i] == c);
        assert(s[i + (s.len() - a.len())] == c);
    }
}

proof fn lemma_trim_end_shape(s: Seq<char>, drop: spec_fn(char) -> bool)
    ensures
        text::trim_end_by(s, drop).is_prefix_of(s),
        text::trim_end_by(s, drop).len() > 0 ==> !drop(text::trim_end_by(s, drop).last()),
    decreases s.len(),
{
    if s.len() > 0 && drop(s.last()) {
        lemma_trim_end_shape(s.drop_last(), drop);
    }
}

proof fn lemma_trim_start_shape(s: Seq<char>, drop: spec_fn(char) -> bool)
    ensures
        text::trim_start_by(s, drop).len() <= s.len(),
        text::trim_start_by(s, drop) == s.skip(s.len() - text::trim_start_by(s, drop).len()),
    decreases s.len(),
{
    if s.len() > 0 && drop(s[0]) {
        lemma_trim_start_shape(s.drop_first(), drop);
        let t = text::trim_start_by(s, drop);
        assert(s.drop_first().skip(s.len() - 1 - t.len()) =~= s.skip(s.len() - t.len()));
    } else {
        assert(s.skip(0) =~= s);
    }
}

/// A namespace is one path component of safe characters, never empty, and
/// naming it again changes nothing.
pub proof fn law_namespaces_are_safe(value: Seq<char>)
    ensures
        ({
            let n = namespace_of(value);
            &&& n.len() > 0
            &&& forall|i: int| 0 <= i < n.len() ==> is_namespace_char(#[trigger] n[i])
            &&& n[0] != '-' && n.last() != '-'
            &&& namespace_of(n) == n
        }),
{
    let n = namespace_of(value);
    let dashed = with_dashes(value);
    reveal_strlit("default");
    lemma_trimmed_dashes(dashed);
    assert forall|i: int| 0 <= i < n.len() implies is_namespace_char(#[trigger] n[i]) by {
        let t = without_outer_dashes(dashed);
        if t.len() > 0 {
            assert(t.contains(t[i]));
            let k = choose|k: int| 0 <= k < dashed.len() && dashed[k] == t[i];
            assert(is_namespace_char(dashed[k]));
        }
    }
    assert(with_dashes(n) =~= n);
}

/// Only a Windows-backed home under WSL has its caches moved, and they move
/// below the native home.
pub proof fn law_only_windows_homes_move(
    codex_home: Seq<char>,
    is_wsl: bool,
    default_home: Option<Seq<char>>,
    distro: Option<Seq<char>>,
    host: PathFlavor,
)
    ensures
        !(is_wsl && is_windows_backed(codex_home)) ==> cache_home(
            codex_home,
            is_wsl,
            default_home,
            distro,
            host,
        ) == codex_home,
        is_wsl && is_windows_backed(codex_home) && default_home is Some ==> default_home->0.is_prefix_of(
            cache_home(codex_home, is_wsl, default_home, distro, host),
        ),
{
}

proof fn lemma_namespace_mapping(value: Seq<char>, n: int, m: int)
    requires
        0 <= n <= m <= value.len(),
        forall|k: int|
            0 <= k < n || m <= k < value.len() ==> !is_namespace_char(#[trigger] value[k])
                || value[k] == '-',
        n < m ==> is_namespace_char(value[n]) && value[n] != '-',
        n < m ==> is_namespace_char(value[m - 1]) && value[m - 1] != '-',
    ensures
        without_outer_dashes(with_dashes(value)) == with_dashes(value).subrange(n, m),
{
    let dash = |c: char| c == '-';
    let s = with_dashes(value);
    if n == m {
        assert forall|k: int| 0 <= k < s.len() implies dash(#[trigger] s[k]) by {
            assert(k < n || m <= k);
            assert(!is_namespace_char(value[k]) || value[k] == '-');
        }
        text::lemma_trim_start_at(s, dash, s.len() as int);
        assert(s.skip(s.len() as int) =~= Seq::<char>::empty());
        assert(text::trim_end_by(Seq::<char>::empty(), dash) =~= Seq::<char>::empty());
        assert(s.subrange(n, m) =~= Seq::<char>::empty());
    } else {
        assert forall|k: int| 0 <= k < n implies dash(#[trigger] s[k]) by {
            assert(!is_namespace_char(value[k]) || value[k] == '-');
        }
        text::lemma_trim_start_at(s, dash, n);
        let t = s.skip(n);
        assert forall|k: int| m - n <= k < t.len() implies dash(#[trigger] t[k]) by {
            assert(t[k] == s[k + n]);
            assert(!is_namespace_char(value[k + n]) || value[k + n] == '-');
        }
        assert(t[m - n - 1] == s[m - 1]);
        text::lemma_trim_end_at(t, dash, m - n);
        assert(t.take(m - n) =~= s.subrange(n, m));
    }
}

/// A namespace keeps every letter, digit, dot, dash and underscore of a name where
/// it stands and has a dash for every other character; what would be dashes at
/// either end is left out. Where nothing is left the namespace is `default`.
pub proof fn law_namespaces_keep_names(value: Seq<char>, n: int, m: int)
    requires
        0 <= n <= m <= value.len(),
        forall|k: int|
            0 <= k < n || m <= k < value.len() ==> !is_namespace_char(#[trigger] value[k])
                || value[k] == '-',
        n < m ==> is_namespace_char(value[n]) && value[n] != '-',
        n < m ==> is_namespace_char(value[m - 1]) && value[m - 1] != '-',
    ensures
        n == m ==> namespace_of(value) == "default"@,
        n < m ==> namespace_of(value).len() == m - n,
        n < m ==> forall|k: int|
            n <= k < m ==> #[trigger] namespace_of(value)[k - n] == (if ('a' <= value[k]
                && value[k] <= 'z') || ('A' <= value[k] && value[k] <= 'Z') || ('0' <= value[k]
                && value[k] <= '9') || value[k] == '-' || value[k] == '_' || value[k] == '.' {
                value[k]
            } else {
                '-'
            }),
{
    lemma_namespace_mapping(value, n, m);
    let s = with_dashes(value);
    assert(s.subrange(n, m).len() == m - n);
    if n < m {
        assert forall|k: int| n <= k < m implies #[trigger] namespace_of(value)[k - n] == (if ('a'
            <= value[k] && value[k] <= 'z') || ('A' <= value[k] && value[k] <= 'Z') || ('0'
            <= value[k] && value[k] <= '9') || value[k] == '-' || value[k] == '_' || value[k]
            == '.' {
            value[k]
        } else {
            '-'
        }) by {
            assert(s.subrange(n, m)[k - n] == s[k]);
        }
    }
}

/// A drive is a Windows path under WSL whichever way its separators lean, and so is
/// a drive that is mounted under `/mnt`, with everything below it.
pub proof fn law_windows_drives_in_wsl(letter: char, rest: Seq<char>)
    requires
        text::is_ascii_letter(letter),
    ensures
        is_windows_backed(seq![letter, ':', '/'] + rest),
        is_windows_backed(seq![letter, ':', '\\'] + rest),
        is_windows_backed(seq!['/', 'm', 'n', 't', '/', letter]),
        is_windows_backed(seq!['/', 'm', 'n', 't', '/', letter, '/'] + rest),
{
    let a = text::replace_char(seq![letter, ':', '/'] + rest, '\\', '/');
    assert(a[0] == letter && a[1] == ':' && a[2] == '/');
    let b = text::replace_char(seq![letter, ':', '\\'] + rest, '\\', '/');
    assert(b[0] == letter && b[1] == ':' && b[2] == '/');
    lemma_mount(letter, Seq::empty(), false);
    lemma_mount(letter, rest, true);
}

proof fn lemma_mount(letter: char, rest: Seq<char>, deeper: bool)
    requires
        text::is_ascii_letter(letter),
        !deeper ==> rest.len() == 0,
    ensures
        is_windows_backed(
            if deeper {
                seq!['/', 'm', 'n', 't', '/', letter, '/'] + rest
            } else {
                seq!['/', 'm', 'n', 't', '/', letter]
            },
        ),
{
    let path = if deeper {
        seq!['/', 'm', 'n', 't', '/', letter, '/'] + rest
    } else {
        seq!['/', 'm', 'n', 't', '/', letter]
    };
    let p = text::replace_char(path, '\\', '/');
    let mnt = seq!['m', 'n', 't'];
    let drive = seq![letter];
    let tail = text::replace_char(rest, '\\', '/');
    text::lemma_single_piece(mnt, '/');
    text::lemma_single_piece(drive, '/');
    text::lemma_pieces_lead(mnt, '/');
    let head = seq!['/'] + mnt;
    text::lemma_pieces_concat(head, drive, '/');
    let both = head + seq!['/'] + drive;
    text::lemma_pieces_concat(both, tail, '/');
    if deeper {
        assert(p =~= both + seq!['/'] + tail);
    } else {
        assert(p =~= both);
    }
    let names = text::non_empty(text::split_on(p, '/'));
    assert(names[0] == mnt);
    assert(names[1] == drive);
    assert(text::ascii_lower(mnt) =~= mnt);
}

/// A configured home counts unless it is on a Windows drive under WSL and the native
/// home was asked for. Without one that counts the home is `.codex` in the home
/// directory of the user.
pub proof fn law_which_home_counts(configured: Seq<char>, is_wsl: bool, native: bool)
    ensures
        effective_home(None, is_wsl, native) is None,
        effective_home(Some(configured), false, native) == Some(configured),
        effective_home(Some(configured), is_wsl, false) == Some(configured),
        !is_windows_backed(configured) ==> effective_home(Some(configured), is_wsl, native) == Some(
            configured,
        ),
        is_windows_backed(configured) ==> effective_home(Some(configured), true, true) is None,
{
}

/// A name under a directory is the directory, one separator and the name: none is
/// added behind one that is there.
pub proof fn law_names_under_directories(base: Seq<char>, name: Seq<char>)
    requires
        base.len() > 2,
    ensures
        base.last() != '/' ==> under(base, name, PathFlavor::Posix) == base + seq!['/'] + name,
        base.last() == '/' ==> under(base, name, PathFlavor::Posix) == base + name,
        base.last() != '/' && base.last() != '\\' ==> under(base, name, PathFlavor::Windows) == base
            + seq!['\\'] + name,
        base.last() == '/' || base.last() == '\\' ==> under(base, name, PathFlavor::Windows) == base
            + name,
{
    assert(base.push('/') + name =~= base + seq!['/'] + name);
    assert(base.push('\\') + name =~= base + seq!['\\'] + name);
}

/// Caches that move go below `.codex/runtime/wsl` in the native home, into the
/// namespace of the distribution.
pub proof fn law_where_caches_move(
    codex_home: Seq<char>,
    home: Seq<char>,
    distro: Option<Seq<char>>,
)
    requires
        is_windows_backed(codex_home),
        home.len() > 0 && home.last() != '/',
    ensures
        cache_home(codex_home, true, Some(home), distro, PathFlavor::Posix) == home
            + "/.codex/runtime/wsl/"@ + (match distro {
            Some(d) => namespace_of(d),
            None => "default"@,
        }),
        cache_home(codex_home, true, None, distro, PathFlavor::Posix) == codex_home,
{
    reveal_strlit(".codex/runtime/wsl");
    reveal_strlit("/.codex/runtime/wsl/");
    reveal_strlit("default");
    let base = under(home, NATIVE_CACHE_DIR@, PathFlavor::Posix);
    assert(base =~= home.push('/') + ".codex/runtime/wsl"@);
    assert(base.last() == 'l');
    let space = match distro {
        Some(d) => namespace_of(d),
        None => namespace_of("default"@),
    };
    law_namespaces_are_safe("default"@);
    assert(namespace_of("default"@) == "default"@) by {
        law_namespaces_keep_names("default"@, 0, 7);
        let n = namespace_of("default"@);
        assert forall|k: int| 0 <= k < 7 implies n[k] == "default"@[k] by {
            assert(n[k - 0] == "default"@[k]);
        }
        assert(n =~= "default"@);
    }
    assert(base.push('/') + space =~= home + "/.codex/runtime/wsl/"@ + space);
}

/// A variable is switched on by these values and no others.
pub proof fn law_values_that_switch_on(value: Seq<char>)
    ensures
        is_truthy(value) <==> value == "1"@ || value == "true"@ || value == "TRUE"@ || value == "yes"@
            || value == "on"@,
{
}

/// Only a directory will do for a configured home. A missing one is not found,
/// something else is invalid input, and any other failure keeps its kind; the message
/// quotes the path, and the reason where there is one.
pub proof fn law_configured_homes(quoted: Seq<char>, found: HomeMetadata)
    ensures
        home_fault(quoted, found) is None <==> found is Directory,
        found is NotFound ==> (home_fault(quoted, found) matches Some((kind, message))
            && kind is NotFound && text::occurs_in(message, quoted)),
        found is NotADirectory ==> (home_fault(quoted, found) matches Some((kind, message))
            && kind is InvalidInput && text::occurs_in(message, quoted)),
        found matches HomeMetadata::Failed(error) ==> (home_fault(quoted, found) matches Some(
            (kind, message),
        ) && kind is SameAsCause && text::occurs_in(message, quoted) && error@.is_suffix_of(
            message,
        )),
{
    match found {
        HomeMetadata::Directory => {},
        HomeMetadata::NotADirectory => {
            let head = "CODEX_HOME points to "@;
            let m = head + quoted + ", but that path is not a directory"@;
            assert(m.subrange(head.len() as int, head.len() as int + quoted.len()) =~= quoted);
            assert(text::occurs_at(m, quoted, head.len() as int));
        },
        HomeMetadata::NotFound => {
            let head = "CODEX_HOME points to "@;
            let m = head + quoted + ", but that path does not exist"@;
            assert(m.subrange(head.len() as int, head.len() as int + quoted.len()) =~= quoted);
            assert(text::occurs_at(m, quoted, head.len() as int));
        },
        HomeMetadata::Failed(error) => {
            let head = "failed to read CODEX_HOME "@;
            let m = head + quoted + ": "@ + error@;
            assert(m.subrange(head.len() as int, head.len() as int + quoted.len()) =~= quoted);
            assert(text::occurs_at(m, quoted, head.len() as int));
            assert(m.subrange(m.len() - error@.len(), m.len() as int) =~= error@);
        },
    }
}

/// Nothing else is a Windows path under WSL: there is a drive with a separator behind
/// its colon, or the first name is `mnt`, in any case, and the second a single letter.
pub proof fn law_only_drives_are_windows_paths(path: Seq<char>)
    ensures
        ({
            let p = text::replace_char(path, '\\', '/');
            let names = text::non_empty(text::split_on(p, '/'));
            is_windows_backed(path) <==> {
                ||| path.len() >= 3 && text::is_ascii_letter(path[0]) && path[1] == ':' && (path[2]
                    == '/' || path[2] == '\\')
                ||| names.len() >= 2 && names[0].len() == 3 && (names[0][0] == 'm' || names[0][0]
                    == 'M') && (names[0][1] == 'n' || names[0][1] == 'N') && (names[0][2] == 't'
                    || names[0][2] == 'T') && names[1].len() == 1 && text::is_ascii_letter(
                    names[1][0],
                )
            }
        }),
{
    let p = text::replace_char(path, '\\', '/');
    let names = text::non_empty(text::split_on(p, '/'));
    if names.len() >= 2 {
        let first = names[0];
        let low = text::ascii_lower(first);
        let mnt = seq!['m', 'n', 't'];
        if low == mnt {
            assert(low.len() == first.len() && mnt.len() == 3);
            assert(low[0] == mnt[0] && low[1] == mnt[1] && low[2] == mnt[2]);
            lemma_lower_is(first[0], 'm');
            lemma_lower_is(first[1], 'n');
            lemma_lower_is(first[2], 't');
        }
        if first.len() == 3 && (first[0] == 'm' || first[0] == 'M') && (first[1] == 'n' || first[1]
            == 'N') && (first[2] == 't' || first[2] == 'T') {
            assert(low =~= mnt);
        }
    }
}

proof fn lemma_lower_is(c: char, small: char)
    requires
        text::ascii_lower_char(c) == small,
        'a' <= small && small <= 'z',
    ensures
        c as u32 == small as u32 || c as u32 + 32 == small as u32,
{
}

} // verus!
