//! Which URIs and paths are accepted, and what is said of the others.

use vstd::prelude::*;
use vstd::utf8::*;

use crate::environment_path;
use crate::environment_path::{PathFault, PathFlavor};
use crate::path_uri;
use crate::path_uri::UriFault;
use crate::percent;
use crate::text;
use crate::uri_environment_id;
use crate::url_parts;
use crate::url_parts::UrlModel;

verus! {

// ---------------------------------------------------------------------------
// Escapes
// ---------------------------------------------------------------------------
/// A percent sign is bad exactly if two hexadecimal digits do not follow it, wherever
/// it stands; a text without any is fine.
pub proof fn law_bad_escapes(a: Seq<char>, b: Seq<char>)
    ensures
        !(b.len() >= 2 && text::is_hex_digit(b[0]) && text::is_hex_digit(b[1]))
            ==> percent::has_bad_escape(a + seq!['%'] + b),
        !a.contains('%') && b.len() >= 2 && text::is_hex_digit(b[0]) && text::is_hex_digit(b[1])
            ==> percent::has_bad_escape(a + seq!['%'] + b) == percent::has_bad_escape(b.skip(2)),
        !a.contains('%') ==> !percent::has_bad_escape(a),
{
    let s = a + seq!['%'] + b;
    let n = a.len() as int;
    assert(s[n] == '%');
    if !(b.len() >= 2 && text::is_hex_digit(b[0]) && text::is_hex_digit(b[1])) {
        if b.len() >= 2 {
            assert(s[n + 1] == b[0] && s[n + 2] == b[1]);
        }
        assert(percent::is_bad_percent(s, n));
    } else if !a.contains('%') {
        let rest = b.skip(2);
        assert(s[n + 1] == b[0] && s[n + 2] == b[1]);
        if percent::has_bad_escape(rest) {
            let i = choose|i: int| 0 <= i < rest.len() && #[trigger] percent::is_bad_percent(
                rest,
                i,
            );
            assert(s[n + 3 + i] == rest[i]);
            if i + 2 < rest.len() {
                assert(s[n + 4 + i] == rest[i + 1] && s[n + 5 + i] == rest[i + 2]);
            }
            assert(percent::is_bad_percent(s, n + 3 + i));
        }
        if percent::has_bad_escape(s) {
            let i = choose|i: int| 0 <= i < s.len() && #[trigger] percent::is_bad_percent(s, i);
            if i < n {
                assert(s[i] == a[i]);
                assert(a.contains(a[i]));
            }
            assert(i >= n + 3) by {
                if i == n + 1 {
                    assert(s[i] == b[0]);
                }
                if i == n + 2 {
                    assert(s[i] == b[1]);
                }
            }
            assert(s[i] == rest[i - n - 3]);
            if i + 2 < s.len() {
                assert(s[i + 1] == rest[i - n - 2] && s[i + 2] == rest[i - n - 1]);
            }
            assert(percent::is_bad_percent(rest, i - n - 3));
        }
    }
    if !a.contains('%') {
        assert forall|i: int| 0 <= i < a.len() implies !#[trigger] percent::is_bad_percent(
            a,
            i,
        ) by {
            assert(a.contains(a[i]));
        }
    }
}

/// An escaped slash is found wherever it stands and however it is spelled, and only
/// there.
pub proof fn law_escaped_slashes(a: Seq<char>, b: Seq<char>)
    ensures
        percent::has_escaped_slash(a + seq!['%', '2', 'F'] + b),
        percent::has_escaped_slash(a + seq!['%', '2', 'f'] + b),
        !a.contains('%') ==> !percent::has_escaped_slash(a),
{
    let n = a.len() as int;
    let s = a + seq!['%', '2', 'F'] + b;
    assert(s[n] == '%' && s[n + 1] == '2' && s[n + 2] == 'F');
    assert(percent::is_escaped_slash(s, n));
    let t = a + seq!['%', '2', 'f'] + b;
    assert(t[n] == '%' && t[n + 1] == '2' && t[n + 2] == 'f');
    assert(percent::is_escaped_slash(t, n));
    if !a.contains('%') {
        assert forall|i: int| 0 <= i < a.len() implies !#[trigger] percent::is_escaped_slash(
            a,
            i,
        ) by {
            assert(a.contains(a[i]));
        }
    }
}

// ---------------------------------------------------------------------------
// URLs
// ---------------------------------------------------------------------------
/// Nothing but a path may be in a path URI: credentials and a port, a query and a
/// fragment are refused, in this order.
pub proof fn law_paths_and_nothing_else(u: UrlModel)
    requires
        u.scheme == "file"@ || u.scheme == "codex-env"@,
    ensures
        u.username.len() > 0 || u.password is Some || u.port is Some ==> path_uri::accepted(u)
            == Err::<UrlModel, UriFault>(UriFault::CredentialsOrPortNotAllowed),
        u.username.len() == 0 && u.password is None && u.port is None && u.query is Some
            ==> path_uri::accepted(u) == Err::<UrlModel, UriFault>(UriFault::QueryNotAllowed),
        u.username.len() == 0 && u.password is None && u.port is None && u.query is None
            && u.fragment is Some ==> path_uri::accepted(u) == Err::<UrlModel, UriFault>(
            UriFault::FragmentNotAllowed,
        ),
{
    path_uri::lemma_schemes_differ();
}

/// Schemes other than `file` and `codex-env` are not known.
pub proof fn law_unknown_schemes(u: UrlModel)
    requires
        u.scheme != "file"@,
        u.scheme != "codex-env"@,
    ensures
        path_uri::accepted(u) == Err::<UrlModel, UriFault>(UriFault::UnsupportedScheme(u.scheme)),
{
}

/// A `file:` URL with a path and nothing else is accepted as it is if every escape in
/// it is complete and none stands for a slash or a null byte, and refused otherwise.
pub proof fn law_which_file_urls_are_accepted(u: UrlModel)
    requires
        u.scheme == "file"@,
        u.username.len() == 0 && u.password is None && u.port is None,
        u.query is None && u.fragment is None,
        u.host is None,
        u.path.len() > 0 && u.path[0] == '/',
    ensures
        ({
            let sound = !percent::has_bad_escape(u.path) && !percent::has_escaped_slash(u.path)
                && !percent::percent_decoded(encode_utf8(u.path)).contains(0);
            &&& sound ==> path_uri::accepted(u) == Ok::<UrlModel, UriFault>(u)
            &&& !sound ==> path_uri::accepted(u) == Err::<UrlModel, UriFault>(
                UriFault::InvalidFileUriPath,
            )
        }),
{
    let sound = !percent::has_bad_escape(u.path) && !percent::has_escaped_slash(u.path)
        && !percent::percent_decoded(encode_utf8(u.path)).contains(0);
    if sound {
        lemma_sound_path(u.path);
    }
}

/// The decoded form of a sound absolute path is an absolute path.
proof fn lemma_sound_path(path: Seq<char>)
    requires
        path.len() > 0 && path[0] == '/',
        !percent::has_bad_escape(path),
        !percent::percent_decoded(encode_utf8(path)).contains(0),
    ensures
        environment_path::posix_fault(percent::decoded_or_kept(path)) is None,
{
    let bytes = percent::percent_decoded(encode_utf8(path));
    let rest = path.skip(1);
    assert(path =~= seq!['/'] + rest);
    text::lemma_encode_concat(seq!['/'], rest);
    text::lemma_slash_size();
    is_ascii_chars_encode_utf8(seq!['/']);
    let tail = percent::percent_decoded(encode_utf8(rest));
    percent::lemma_decode_literal(seq![47u8], encode_utf8(rest));
    assert(encode_utf8(seq!['/']) =~= seq![47u8]);
    assert(bytes == seq![47u8] + tail);
    match percent::decoded_text(path) {
        Some(t) => {
            decode_utf8_encode_utf8(bytes);
            assert(encode_utf8(t) == bytes);
            lemma_first_and_nulls(t, bytes);
        },
        None => {
            assert(!path.contains('\0')) by {
                if path.contains('\0') {
                    lemma_null_stays(path);
                }
            }
        },
    }
}

proof fn lemma_first_and_nulls(t: Seq<char>, bytes: Seq<u8>)
    requires
        encode_utf8(t) == bytes,
        bytes.len() > 0,
        bytes[0] == 47,
        !bytes.contains(0),
    ensures
        t.len() > 0,
        t[0] == '/',
        !t.contains('\0'),
{
    if t.len() == 0 {
        assert(encode_utf8(t) =~= Seq::<u8>::empty());
    }
    let c = t[0];
    assert(encode_utf8(t) == encode_scalar(c as u32) + encode_utf8(t.drop_first()));
    percent::lemma_scalar_bytes(c);
    percent::lemma_scalar_some(c);
    assert(encode_scalar(c as u32)[0] == bytes[0]);
    percent::lemma_same_char(c, '/');
    if t.contains('\0') {
        let k = choose|k: int| 0 <= k < t.len() && t[k] == '\0';
        let a = t.take(k);
        let b = t.skip(k);
        assert(t =~= a + b);
        text::lemma_encode_concat(a, b);
        assert(b[0] == '\0');
        assert(encode_utf8(b) == encode_scalar('\0' as u32) + encode_utf8(b.drop_first()));
        percent::lemma_scalar_bytes('\0');
        percent::lemma_scalar_some('\0');
        assert(encode_scalar('\0' as u32)[0] == 0);
        assert(bytes[encode_utf8(a).len() as int] == 0);
    }
}

/// A null character decodes to a null byte.
proof fn lemma_null_stays(path: Seq<char>)
    requires
        path.contains('\0'),
        !percent::has_bad_escape(path),
    ensures
        percent::percent_decoded(encode_utf8(path)).contains(0),
{
    let k = choose|k: int| 0 <= k < path.len() && path[k] == '\0';
    let a = path.take(k);
    let b = path.skip(k);
    assert(path =~= a + b);
    assert(!percent::has_bad_escape(a)) by {
        assert forall|i: int| 0 <= i < a.len() implies !#[trigger] percent::is_bad_percent(
            a,
            i,
        ) by {
            assert(!percent::is_bad_percent(path, i));
            assert(path[i] == a[i]);
            if a[i] == '%' {
                assert(i + 1 != k && i + 2 != k) by {
                    assert(!text::is_hex_digit('\0'));
                }
                assert(path[i + 1] == a[i + 1] && path[i + 2] == a[i + 2]);
            }
        }
    }
    text::lemma_encode_concat(a, b);
    percent::lemma_decode_complete(a, encode_utf8(b));
    assert(b[0] == '\0');
    let rest = encode_utf8(b.drop_first());
    assert(encode_utf8(b) == encode_scalar('\0' as u32) + rest);
    percent::lemma_scalar_bytes('\0');
    percent::lemma_scalar_some('\0');
    let head = encode_scalar('\0' as u32);
    assert forall|i: int| 0 <= i < head.len() implies head[i] != 37 by {}
    percent::lemma_decode_literal(head, rest);
    let before = percent::percent_decoded(encode_utf8(a));
    let all = percent::percent_decoded(encode_utf8(path));
    assert(all == before + (head + percent::percent_decoded(rest)));
    assert(all[before.len() as int] == 0);
}

/// An environment URL has no authority, and its path is an identifier and a path
/// behind it. Every other one is refused.
pub proof fn law_environment_urls_need_a_path(u: UrlModel)
    requires
        u.scheme == "codex-env"@,
        u.username.len() == 0 && u.password is None && u.port is None,
        u.query is None && u.fragment is None,
    ensures
        u.host is Some ==> path_uri::accepted(u) == Err::<UrlModel, UriFault>(
            UriFault::EnvironmentUriMustNotHaveAuthority,
        ),
        u.host is None && (percent::has_bad_escape(u.path) || u.path.len() == 0 || u.path[0] != '/'
            || !u.path.skip(1).contains('/')) ==> path_uri::accepted(u) == Err::<
            UrlModel,
            UriFault,
        >(UriFault::InvalidEnvironmentUriPath),
{
    path_uri::lemma_schemes_differ();
    path_uri::lemma_cut_none(u.path.skip(1), '/');
}

/// What the two parts of an environment URI are, behind their escapes: an identifier
/// and a path in URI syntax. An escaped slash in the path, or bytes that are no text,
/// make no address, and a part that is not valid is refused for what is wrong with it.
pub proof fn law_addresses(spelled_id: Seq<char>, rest: Seq<char>)
    ensures
        ({
            let address = path_uri::environment_address(spelled_id, rest);
            let id = percent::decoded_text(spelled_id);
            let path = percent::decoded_text(seq!['/'] + rest);
            &&& percent::has_escaped_slash(rest) || id is None ==> address == Err::<
                (Seq<char>, Seq<char>),
                UriFault,
            >(UriFault::InvalidEnvironmentUriPath)
            &&& !percent::has_escaped_slash(rest) && id is Some ==> (
            uri_environment_id::id_fault(id->0) matches Some(fault) ==> address == Err::<
                (Seq<char>, Seq<char>),
                UriFault,
            >(UriFault::InvalidEnvironmentId(fault)))
            &&& !percent::has_escaped_slash(rest) && id is Some && uri_environment_id::id_fault(
                id->0,
            ) is None ==> match path {
                None => address == Err::<(Seq<char>, Seq<char>), UriFault>(
                    UriFault::InvalidEnvironmentUriPath,
                ),
                Some(p) => match environment_path::new_path(p) {
                    Ok(q) => address == Ok::<(Seq<char>, Seq<char>), UriFault>((id->0, q)),
                    Err(fault) => address == Err::<(Seq<char>, Seq<char>), UriFault>(
                        UriFault::InvalidEnvironmentPath(fault),
                    ),
                },
            }
        }),
{
    reveal(path_uri::environment_address);
}

/// The text of an environment URI: three slashes, an identifier, a slash and a path.
pub proof fn law_environment_texts(scheme: Seq<char>, remainder: Seq<char>)
    requires
        !scheme.contains(':'),
    ensures
        ({
            let got = path_uri::environment_of_text(scheme + seq![':'] + remainder);
            &&& remainder.contains('?') ==> got == Err::<(Seq<char>, Seq<char>), UriFault>(
                UriFault::QueryNotAllowed,
            )
            &&& !remainder.contains('?') && remainder.contains('#') ==> got == Err::<
                (Seq<char>, Seq<char>),
                UriFault,
            >(UriFault::FragmentNotAllowed)
            &&& !remainder.contains('?') && !remainder.contains('#') && remainder.len() >= 2
                && remainder[0] == '/' && remainder[1] == '/' && !(remainder.len() >= 3
                && remainder[2] == '/') ==> got == Err::<(Seq<char>, Seq<char>), UriFault>(
                UriFault::EnvironmentUriMustNotHaveAuthority,
            )
            &&& !remainder.contains('?') && !remainder.contains('#') && !(remainder.len() >= 2
                && remainder[0] == '/' && remainder[1] == '/') ==> got == Err::<
                (Seq<char>, Seq<char>),
                UriFault,
            >(UriFault::InvalidEnvironmentUriPath)
        }),
{
    let uri = scheme + seq![':'] + remainder;
    lemma_cut_at_first(scheme, remainder, ':');
    let two = seq!['/', '/'];
    let three = seq!['/', '/', '/'];
    if remainder.len() >= 3 {
        assert(remainder.subrange(0, 3)[0] == remainder[0] && remainder.subrange(0, 3)[1]
            == remainder[1] && remainder.subrange(0, 3)[2] == remainder[2]);
    }
    if remainder.len() >= 2 {
        assert(remainder.subrange(0, 2)[0] == remainder[0] && remainder.subrange(0, 2)[1]
            == remainder[1]);
        if remainder[0] == '/' && remainder[1] == '/' {
            assert(remainder.subrange(0, 2) =~= two);
        }
    }
    assert(three.is_prefix_of(remainder) ==> remainder.len() >= 3 && remainder[0] == '/'
        && remainder[1] == '/' && remainder[2] == '/');
}

proof fn lemma_cut_at_first(a: Seq<char>, b: Seq<char>, c: char)
    requires
        !a.contains(c),
    ensures
        path_uri::cut(a + seq![c] + b, c) == Some((a, b)),
{
    let s = a + seq![c] + b;
    assert forall|k: int| 0 <= k < a.len() implies s[k] != c by {
        assert(a.contains(a[k]));
    }
    path_uri::lemma_cut_at(s, c, a.len() as int);
    assert(s.take(a.len() as int) =~= a);
    assert(s.skip(a.len() as int + 1) =~= b);
}

/// What reads as a URI: a letter, then letters, digits and `+`, `-`, `.`, up to a
/// colon. A drive letter with a separator behind its colon is a path.
pub proof fn law_what_reads_as_a_uri(scheme: Seq<char>, rest: Seq<char>)
    requires
        scheme.len() > 0,
        text::is_ascii_letter(scheme[0]),
        forall|i: int|
            0 < i < scheme.len() ==> text::is_ascii_letter(#[trigger] scheme[i])
                || text::is_ascii_digit(scheme[i]) || scheme[i] == '+' || scheme[i] == '-'
                || scheme[i] == '.',
    ensures
        path_uri::scheme_of(scheme + seq![':'] + rest) == Some(scheme),
        path_uri::reads_as_uri(scheme + seq![':'] + rest) <==> !(scheme.len() == 1 && rest.len() > 0
            && (rest[0] == '/' || rest[0] == '\\')),
        path_uri::scheme_of(scheme) is None,
        !path_uri::reads_as_uri(scheme),
{
    assert(!scheme.contains(':')) by {
        if scheme.contains(':') {
            let k = choose|k: int| 0 <= k < scheme.len() && scheme[k] == ':';
            assert(k > 0);
        }
    }
    lemma_cut_at_first(scheme, rest, ':');
    path_uri::lemma_cut_none(scheme, ':');
    let whole = scheme + seq![':'] + rest;
    if scheme.len() == 1 && rest.len() > 0 {
        assert(whole[2] == rest[0]);
    }
}

// ---------------------------------------------------------------------------
// Paths
// ---------------------------------------------------------------------------
/// Which paths are refused: empty ones, those with a null character, those that are
/// not absolute, and for Windows those of the device namespaces and those with two
/// separators and no server and share.
pub proof fn law_refused_paths(p: Seq<char>)
    ensures
        p.len() == 0 ==> {
            &&& environment_path::new_path(p) == Err::<Seq<char>, PathFault>(PathFault::Empty)
            &&& environment_path::posix_path(p) == Err::<Seq<char>, PathFault>(PathFault::Empty)
            &&& environment_path::windows_path(p) == Err::<Seq<char>, PathFault>(PathFault::Empty)
        },
        p.contains('\0') ==> {
            &&& environment_path::new_path(p) == Err::<Seq<char>, PathFault>(
                PathFault::ContainsNull,
            )
            &&& environment_path::posix_path(p) == Err::<Seq<char>, PathFault>(
                PathFault::ContainsNull,
            )
            &&& environment_path::windows_path(p) == Err::<Seq<char>, PathFault>(
                PathFault::ContainsNull,
            )
        },
        p.len() > 0 && !p.contains('\0') && p[0] != '/' ==> {
            &&& environment_path::new_path(p) == Err::<Seq<char>, PathFault>(
                PathFault::NotAbsolute(p),
            )
            &&& environment_path::posix_path(p) == Err::<Seq<char>, PathFault>(
                PathFault::NotAbsolute(p),
            )
        },
        p.len() > 0 && !p.contains('\0') && p[0] == '/' ==> environment_path::posix_path(p) is Ok,
        p.len() > 0 && !p.contains('\0') && p[0] != '/' && p[0] != '\\' && !(p.len() >= 3
            && text::is_ascii_letter(p[0]) && p[1] == ':' && (p[2] == '/' || p[2] == '\\'))
            ==> environment_path::windows_path(p) == Err::<Seq<char>, PathFault>(
            PathFault::NotAbsolute(p),
        ),
{
    if p.contains('\0') {
        assert(p.len() > 0);
    }
    if p.len() > 0 && p[0] != '/' && p[0] != '\\' {
        let q = text::replace_char(p, '\\', '/');
        if q.len() >= 4 {
            assert(q.subrange(0, 4)[0] == q[0]);
        }
        assert(!environment_path::in_windows_namespace(p));
    }
}

/// The URI of a native path: none for a path that has no URL; on a POSIX host, and for
/// a path on a Windows server, the URL itself, if it is accepted; and on a Windows host
/// the normalized path, if it is one.
pub proof fn law_native_uris(u: UrlModel, path: Seq<char>)
    ensures
        path_uri::native_file_uri(None, path, PathFlavor::Posix) == Err::<UrlModel, UriFault>(
            UriFault::PathCannotBeRepresentedAsFileUri,
        ),
        path_uri::native_file_uri(None, path, PathFlavor::Windows) == Err::<UrlModel, UriFault>(
            UriFault::PathCannotBeRepresentedAsFileUri,
        ),
        path_uri::native_file_uri(Some(u), path, PathFlavor::Posix) == path_uri::accepted(u),
        u.host is Some ==> path_uri::native_file_uri(Some(u), path, PathFlavor::Windows)
            == path_uri::accepted(u),
        u.host is None ==> match environment_path::windows_path(path) {
            Err(fault) => path_uri::native_file_uri(Some(u), path, PathFlavor::Windows) == Err::<
                UrlModel,
                UriFault,
            >(UriFault::InvalidEnvironmentPath(fault)),
            Ok(p) => path_uri::native_file_uri(Some(u), path, PathFlavor::Windows) == Ok::<
                UrlModel,
                UriFault,
            >(url_parts::url_with_path("file:///"@, percent::percent_escaped(p))),
        },
{
}

/// Escaping percent signs goes character by character and changes no other.
pub proof fn law_percent_signs_are_escaped(s: Seq<char>, c: char)
    ensures
        percent::percent_escaped(Seq::empty()) == Seq::<char>::empty(),
        percent::percent_escaped(s.push('%')) == percent::percent_escaped(s) + seq!['%', '2', '5'],
        c != '%' ==> percent::percent_escaped(s.push(c)) == percent::percent_escaped(s).push(c),
{
    assert(s.push('%').drop_last() =~= s);
    assert(s.push(c).drop_last() =~= s);
}

} // verus!
