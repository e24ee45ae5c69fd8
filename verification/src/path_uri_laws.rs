//! What holds of path URIs as a whole.

use vstd::prelude::*;
use vstd::utf8::*;

use crate::environment_id;
use crate::environment_path;
use crate::environment_path_laws;
use crate::path_uri;
use crate::path_uri::{UriFault, UriView, CODEX_ENVIRONMENT_SCHEME, FILE_SCHEME};
use crate::percent;
use crate::text;
use crate::uri_environment_id;
use crate::url_parts;
use crate::url_parts::UrlModel;

verus! {

// ---------------------------------------------------------------------------
// Spelling of segments
// ---------------------------------------------------------------------------
proof fn lemma_concat_escapes(a: Seq<char>, b: Seq<char>)
    requires
        !percent::has_bad_escape(a),
        !percent::has_bad_escape(b),
    ensures
        !percent::has_bad_escape(a + b),
        !percent::has_escaped_slash(a) && !percent::has_escaped_slash(b)
            ==> !percent::has_escaped_slash(a + b),
{
    let w = a + b;
    let n = a.len() as int;
    assert forall|i: int| 0 <= i < w.len() implies !#[trigger] percent::is_bad_percent(w, i) by {
        if i < n {
            assert(!percent::is_bad_percent(a, i));
            assert(w[i] == a[i]);
            if a[i] == '%' {
                assert(w[i + 1] == a[i + 1] && w[i + 2] == a[i + 2]);
            }
        } else {
            assert(!percent::is_bad_percent(b, i - n));
            assert(w[i] == b[i - n]);
            if w[i] == '%' {
                assert(w[i + 1] == b[i - n + 1] && w[i + 2] == b[i - n + 2]);
            }
        }
    }
    if !percent::has_escaped_slash(a) && !percent::has_escaped_slash(b) {
        assert forall|i: int| 0 <= i < w.len() implies !#[trigger] percent::is_escaped_slash(
            w,
            i,
        ) by {
            if i < n {
                assert(!percent::is_bad_percent(a, i));
                assert(!percent::is_escaped_slash(a, i));
                assert(w[i] == a[i]);
                if a[i] == '%' {
                    assert(w[i + 1] == a[i + 1] && w[i + 2] == a[i + 2]);
                }
            } else {
                assert(!percent::is_escaped_slash(b, i - n));
                assert(w[i] == b[i - n]);
                if w[i] == '%' && i + 2 < w.len() {
                    assert(w[i + 1] == b[i - n + 1] && w[i + 2] == b[i - n + 2]);
                }
            }
        }
    }
}

proof fn lemma_slash_escapes()
    ensures
        !percent::has_bad_escape(seq!['/']),
        !percent::has_escaped_slash(seq!['/']),
        percent::percent_decoded(seq![47u8]) == seq![47u8],
        percent::percent_decoded(Seq::empty()) == Seq::<u8>::empty(),
{
    let s = seq!['/'];
    assert forall|i: int| 0 <= i < s.len() implies !#[trigger] percent::is_bad_percent(s, i) by {}
    assert forall|i: int| 0 <= i < s.len() implies !#[trigger] percent::is_escaped_slash(s, i) by {}
    assert(seq![47u8].skip(1) =~= Seq::<u8>::empty());
    assert(seq![47u8] + percent::percent_decoded(Seq::empty()) =~= seq![47u8]);
}

/// The characters that begin a query or a fragment.
pub open spec fn has_metadata(s: Seq<char>) -> bool {
    s.contains('?') || s.contains('#')
}

proof fn lemma_no_metadata(s: Seq<char>)
    requires
        forall|i: int| 0 <= i < s.len() ==> (#[trigger] s[i]) != '?' && s[i] != '#',
    ensures
        !has_metadata(s),
{
}

/// Names spelled out with slashes between them decode to the names with slashes
/// between them.
proof fn lemma_joined_texts(texts: Seq<Seq<char>>, pieces: Seq<Seq<char>>)
    requires
        texts.len() == pieces.len(),
        forall|i: int|
            0 <= i < pieces.len() ==> !(#[trigger] pieces[i]).contains('/') && percent::spells(
                texts[i],
                pieces[i],
            ),
    ensures
        ({
            let t = text::join_with(texts, seq!['/']);
            &&& !percent::has_bad_escape(t)
            &&& !percent::has_escaped_slash(t)
            &&& forall|i: int| 0 <= i < t.len() ==> (#[trigger] t[i]) != '?' && t[i] != '#'
            &&& percent::percent_decoded(encode_utf8(t)) == encode_utf8(
                text::join_with(pieces, seq!['/']),
            )
        }),
    decreases pieces.len(),
{
    let t = text::join_with(texts, seq!['/']);
    let plain = text::join_with(pieces, seq!['/']);
    lemma_slash_escapes();
    if pieces.len() == 0 {
        assert(encode_utf8(t) =~= Seq::<u8>::empty());
        assert(encode_utf8(plain) =~= Seq::<u8>::empty());
    } else if pieces.len() == 1 {
        assert(percent::spells(texts[0], pieces[0]));
    } else {
        let init = pieces.drop_last();
        let last = pieces.last();
        assert(last == pieces[pieces.len() - 1]);
        assert forall|i: int| 0 <= i < init.len() implies !(#[trigger] init[i]).contains('/')
            && percent::spells(texts.drop_last()[i], init[i]) by {
            assert(init[i] == pieces[i]);
            assert(texts.drop_last()[i] == texts[i]);
        }
        lemma_joined_texts(texts.drop_last(), init);
        let t0 = text::join_with(texts.drop_last(), seq!['/']);
        let e = texts.last();
        let p0 = text::join_with(init, seq!['/']);
        assert(percent::spells(e, last));
        lemma_concat_escapes(t0, seq!['/']);
        lemma_concat_escapes(t0 + seq!['/'], e);
        text::lemma_encode_concat(t0, seq!['/']);
        text::lemma_encode_concat(t0 + seq!['/'], e);
        text::lemma_encode_concat(p0, seq!['/']);
        text::lemma_encode_concat(p0 + seq!['/'], last);
        text::lemma_slash_size();
        percent::lemma_decode_complete(t0, seq![47u8]);
        percent::lemma_decode_complete(t0 + seq!['/'], encode_utf8(e));
        assert forall|i: int| 0 <= i < t.len() implies (#[trigger] t[i]) != '?' && t[i] != '#' by {
            if i < t0.len() {
                assert(t[i] == t0[i]);
            } else if i > t0.len() {
                assert(t[i] == e[i - t0.len() - 1]);
            }
        }
    }
}

/// Segments spelled out with slashes between them decode to the segments with
/// slashes between them.
proof fn lemma_joined_segments(pieces: Seq<Seq<char>>)
    requires
        forall|i: int| 0 <= i < pieces.len() ==> !(#[trigger] pieces[i]).contains('/'),
    ensures
        ({
            let t = text::join_with(percent::segment_texts(pieces), seq!['/']);
            &&& !percent::has_bad_escape(t)
            &&& !percent::has_escaped_slash(t)
            &&& forall|i: int| 0 <= i < t.len() ==> (#[trigger] t[i]) != '?' && t[i] != '#'
            &&& percent::percent_decoded(encode_utf8(t)) == encode_utf8(
                text::join_with(pieces, seq!['/']),
            )
        }),
{
    let texts = percent::segment_texts(pieces);
    assert forall|i: int| 0 <= i < pieces.len() implies !(#[trigger] pieces[i]).contains('/')
        && percent::spells(texts[i], pieces[i]) by {
        percent::lemma_segment_text(pieces[i]);
    }
    lemma_joined_texts(texts, pieces);
}

// ---------------------------------------------------------------------------
// Environment URIs
// ---------------------------------------------------------------------------
/// Whether a path in an environment can be written as a URI without loss: the
/// identifier is valid, the path is canonical, and neither holds a tab or a
/// line break, which URLs leave out.
pub open spec fn is_representable(id: Seq<char>, path: Seq<char>) -> bool {
    &&& uri_environment_id::id_fault(id) is None
    &&& environment_path_laws::canonical(path)
    &&& !url_parts::has_tab_or_break(id)
    &&& !url_parts::has_tab_or_break(path)
}

/// What stands behind the identifier and a slash in the URI of `path`.
pub open spec fn rest_of(path: Seq<char>) -> Seq<char> {
    text::join_with(percent::segment_texts(path_uri::path_segments(path)), seq!['/'])
}

proof fn lemma_split_pieces(s: Seq<char>)
    ensures
        forall|i: int|
            0 <= i < text::split_on(s, '/').len() ==> {
                let piece = #[trigger] text::split_on(s, '/')[i];
                &&& !piece.contains('/')
                &&& forall|c: char| piece.contains(c) ==> s.contains(c)
                &&& piece.len() > 0 ==> environment_path::components(s).contains(piece)
            },
    decreases s.len(),
{
    text::lemma_split_pieces_free(s, '/');
    let pieces = text::split_on(s, '/');
    lemma_pieces_contained(s);
    assert forall|i: int| 0 <= i < pieces.len() implies ({
        let piece = #[trigger] pieces[i];
        &&& !piece.contains('/')
        &&& forall|c: char| piece.contains(c) ==> s.contains(c)
        &&& piece.len() > 0 ==> environment_path::components(s).contains(piece)
    }) by {
        if pieces[i].len() > 0 {
            lemma_non_empty_contains(pieces, i);
        }
    }
}

proof fn lemma_pieces_contained(s: Seq<char>)
    ensures
        forall|i: int, c: char|
            0 <= i < text::split_on(s, '/').len() && (#[trigger] text::split_on(s, '/')[i]).contains(c)
                ==> #[trigger] s.contains(c),
    decreases s.len(),
{
    if s.len() > 0 {
        let t = s.drop_last();
        let before = text::split_on(t, '/');
        let pieces = text::split_on(s, '/');
        lemma_pieces_contained(t);
        text::lemma_split_some(t, '/');
        assert forall|i: int, c: char|
            0 <= i < pieces.len() && (#[trigger] pieces[i]).contains(c) implies #[trigger] s.contains(
            c,
        ) by {
            let k = choose|k: int| 0 <= k < pieces[i].len() && pieces[i][k] == c;
            if s.last() != '/' && i == pieces.len() - 1 && k == pieces[i].len() - 1 {
                assert(s[s.len() - 1] == c);
            } else {
                assert(before[i][k] == c);
                assert(before[i].contains(c));
                assert(t.contains(c));
                let j = choose|j: int| 0 <= j < t.len() && t[j] == c;
                assert(s[j] == c);
            }
        }
    }
}

proof fn lemma_non_empty_contains(pieces: Seq<Seq<char>>, i: int)
    requires
        0 <= i < pieces.len(),
        pieces[i].len() > 0,
    ensures
        text::non_empty(pieces).contains(pieces[i]),
    decreases pieces.len(),
{
    let before = text::non_empty(pieces.drop_last());
    if i < pieces.len() - 1 {
        assert(pieces.drop_last()[i] == pieces[i]);
        lemma_non_empty_contains(pieces.drop_last(), i);
        let k = choose|k: int| 0 <= k < before.len() && before[k] == pieces[i];
        assert(text::non_empty(pieces)[k] == pieces[i]);
    } else {
        let all = text::non_empty(pieces);
        assert(all[all.len() - 1] == pieces[i]);
    }
}

/// The segments of the URI of a representable path are plain.
pub proof fn lemma_plain(id: Seq<char>, path: Seq<char>)
    requires
        is_representable(id, path),
    ensures
        url_parts::are_plain_segments(path_uri::environment_segments(id, path)),
        path.len() > 0,
        path[0] == '/',
        forall|i: int|
            0 <= i < path_uri::path_segments(path).len() ==> !(#[trigger] path_uri::path_segments(
                path,
            )[i]).contains('/'),
{
    let inner = path.skip(1);
    let pieces = text::split_on(inner, '/');
    let segments = path_uri::environment_segments(id, path);
    let infer = environment_path::PathNormalization::InferWindowsRoots;
    environment_path_laws::law_normalization_is_tidy(path, infer);
    assert(path =~= seq!['/'] + inner);
    text::lemma_pieces_lead(inner, '/');
    assert(environment_path::components(path) == environment_path::components(inner));
    lemma_split_pieces(inner);
    assert forall|i: int| #![trigger segments[i]] 0 <= i < segments.len() implies {
        &&& segments[i] != seq!['.']
        &&& segments[i] != seq!['.', '.']
        &&& !url_parts::has_tab_or_break(segments[i])
    } by {
        if i > 0 {
            let piece = pieces[i - 1];
            assert(segments[i] == piece);
            if piece.len() > 0 {
                let names = environment_path::components(path);
                let k = choose|k: int| 0 <= k < names.len() && names[k] == piece;
                assert(names[k] == piece);
            }
            assert forall|c: char| piece.contains(c) implies path.contains(c) by {
                assert(inner.contains(c));
                let j = choose|j: int| 0 <= j < inner.len() && inner[j] == c;
                assert(path[j + 1] == c);
            }
        }
    }
}

/// The path of the URL has the identifier first and then the path.
proof fn lemma_segments_path(id: Seq<char>, path: Seq<char>)
    requires
        is_representable(id, path),
    ensures
        url_parts::segments_path(path_uri::environment_segments(id, path)) == seq!['/']
            + percent::segment_text(id) + seq!['/'] + rest_of(path),
{
    let pieces = path_uri::path_segments(path);
    let segments = path_uri::environment_segments(id, path);
    text::lemma_split_some(path.skip(1), '/');
    lemma_plain(id, path);
    lemma_join_head(percent::segment_text(id), percent::segment_texts(pieces));
    assert(percent::segment_texts(segments) =~= seq![percent::segment_text(id)]
        + percent::segment_texts(pieces));
    assert(url_parts::segments_path(segments) =~= seq!['/'] + percent::segment_text(id) + seq!['/']
        + rest_of(path));
}

proof fn lemma_join_head(head: Seq<char>, tail: Seq<Seq<char>>)
    requires
        tail.len() > 0,
    ensures
        text::join_with(seq![head] + tail, seq!['/']) == head + seq!['/'] + text::join_with(
            tail,
            seq!['/'],
        ),
    decreases tail.len(),
{
    let all = seq![head] + tail;
    assert(all.last() == tail.last());
    if tail.len() == 1 {
        assert(all.drop_last() =~= seq![head]);
        assert(text::join_with(seq![head], seq!['/']) == head);
    } else {
        assert(all.drop_last() =~= seq![head] + tail.drop_last());
        lemma_join_head(head, tail.drop_last());
        assert(text::join_with(all, seq!['/']) =~= head + seq!['/'] + text::join_with(
            tail,
            seq!['/'],
        ));
    }
}

/// The spelled parts of a URI give back the identifier and the path.
proof fn lemma_address(id: Seq<char>, path: Seq<char>)
    requires
        is_representable(id, path),
    ensures
        path_uri::environment_address(percent::segment_text(id), rest_of(path)) == Ok::<
            (Seq<char>, Seq<char>),
            UriFault,
        >((id, path)),
        percent::decoded_text(seq!['/'] + rest_of(path)) == Some(path),
        !percent::has_bad_escape(rest_of(path)),
        !has_metadata(rest_of(path)),
{
    reveal(path_uri::environment_address);
    lemma_plain(id, path);
    let pieces = path_uri::path_segments(path);
    let rest = rest_of(path);
    percent::lemma_segment_text(id);
    lemma_joined_segments(pieces);
    lemma_no_metadata(rest);
    text::lemma_join_split(path.skip(1), '/');
    assert(text::join_with(pieces, seq!['/']) == path.skip(1));
    lemma_slash_escapes();
    text::lemma_slash_size();
    text::lemma_encode_concat(seq!['/'], rest);
    text::lemma_encode_concat(seq!['/'], path.skip(1));
    assert(seq!['/'] + path.skip(1) =~= path);
    percent::lemma_decode_complete(seq!['/'], encode_utf8(rest));
    let bytes = percent::percent_decoded(encode_utf8(seq!['/'] + rest));
    assert(bytes == encode_utf8(path));
    encode_utf8_valid_utf8(path);
    encode_utf8_decode_utf8(path);
}

/// A URL whose path spells an identifier and a path shows that identifier and
/// that path, and is a path URI in canonical form.
pub proof fn law_environment_url_shows_its_address(u: UrlModel, id: Seq<char>, path: Seq<char>)
    requires
        is_representable(id, path),
        u.scheme == CODEX_ENVIRONMENT_SCHEME@,
        u.host is None,
        path_uri::common_fault(u) is None,
        u.path == url_parts::segments_path(path_uri::environment_segments(id, path)),
    ensures
        path_uri::shown(u) == (UriView::Environment { environment_id: id, path }),
        path_uri::environment_of_url(u) == Ok::<(Seq<char>, Seq<char>), UriFault>((id, path)),
        path_uri::accepted(u) == Ok::<UrlModel, UriFault>(path_uri::environment_url_of(id, path)),
{
    let e = percent::segment_text(id);
    let rest = rest_of(path);
    lemma_segments_path(id, path);
    lemma_address(id, path);
    percent::lemma_segment_text(id);
    let inner = u.path.skip(1);
    assert(inner =~= e + seq!['/'] + rest);
    assert(inner[e.len() as int] == '/');
    assert forall|k: int| 0 <= k < e.len() implies inner[k] != '/' by {
        assert(inner[k] == e[k]);
    }
    path_uri::lemma_cut_at(inner, '/', e.len() as int);
    assert(inner.take(e.len() as int) =~= e);
    assert(inner.skip(e.len() as int + 1) =~= rest);
    lemma_slash_escapes();
    lemma_concat_escapes(seq!['/'], e);
    lemma_concat_escapes(seq!['/'] + e, seq!['/']);
    lemma_concat_escapes(seq!['/'] + e + seq!['/'], rest);
    path_uri::lemma_schemes_differ();
}

/// The identifier and the path in an environment URI are valid, so they are
/// representable unless one of them holds a tab or a line break.
pub proof fn law_addresses_are_valid(spelled_id: Seq<char>, rest: Seq<char>)
    ensures
        path_uri::environment_address(spelled_id, rest) matches Ok((id, path)) ==> (
        is_representable(id, path) <==> !url_parts::has_tab_or_break(id)
            && !url_parts::has_tab_or_break(path)),
{
    reveal(path_uri::environment_address);
    if let Ok((id, path)) = path_uri::environment_address(spelled_id, rest) {
        let given = percent::decoded_text(seq!['/'] + rest)->0;
        environment_path_laws::law_new_is_idempotent(given, path);
    }
}

/// Every valid identifier can be embedded as a single path segment: its
/// spelling holds no separator, query or fragment, is no dot segment, and
/// decodes to the identifier.
pub proof fn law_ids_are_single_segments(id: Seq<char>)
    requires
        environment_id::id_fault(id) is None,
    ensures
        ({
            let spelled = percent::segment_text(id);
            &&& spelled.len() > 0
            &&& !spelled.contains('/')
            &&& !has_metadata(spelled)
            &&& spelled != seq!['.'] && spelled != seq!['.', '.']
            &&& percent::decoded_text(spelled) == Some(id)
        }),
{
    let spelled = percent::segment_text(id);
    percent::lemma_segment_text(id);
    lemma_no_metadata(spelled);
    lemma_dots_decode();
}

proof fn lemma_dots_decode()
    ensures
        percent::decoded_text(seq!['.']) == Some(seq!['.']),
        percent::decoded_text(seq!['.', '.']) == Some(seq!['.', '.']),
{
    lemma_plain_text_decodes(seq!['.']);
    lemma_plain_text_decodes(seq!['.', '.']);
}

proof fn lemma_plain_text_decodes(s: Seq<char>)
    requires
        is_ascii_chars(s),
        !s.contains('%'),
    ensures
        percent::decoded_text(s) == Some(s),
{
    let bytes = encode_utf8(s);
    is_ascii_chars_encode_utf8(s);
    assert forall|i: int| 0 <= i < bytes.len() implies bytes[i] != 37 by {
        assert(s.contains(s[i]));
    }
    percent::lemma_decode_literal(bytes, Seq::empty());
    lemma_slash_escapes();
    assert(bytes + Seq::<u8>::empty() =~= bytes);
    encode_utf8_valid_utf8(s);
    encode_utf8_decode_utf8(s);
}

/// Where the scheme of an environment URI ends.
proof fn lemma_environment_scheme(path: Seq<char>)
    ensures
        path_uri::has_environment_scheme("codex-env://"@ + path),
        path_uri::cut("codex-env://"@ + path, ':') == Some(
            ("codex-env"@, seq!['/', '/'] + path),
        ),
{
    let uri = "codex-env://"@ + path;
    reveal_strlit("codex-env://");
    reveal_strlit("codex-env");
    let scheme = uri.take(9);
    assert(uri[9] == ':');
    assert(scheme =~= "codex-env"@);
    assert forall|k: int| 0 <= k < 9 implies uri[k] != ':' by {
        assert(uri[k] == "codex-env"@[k]);
    }
    path_uri::lemma_cut_at(uri, ':', 9);
    assert(uri.skip(10) =~= seq!['/', '/'] + path);
    assert(path_uri::is_scheme(scheme));
    assert(text::ascii_lower(scheme) =~= scheme);
}

/// What stands behind the scheme of an environment URI.
proof fn lemma_environment_remainder(e: Seq<char>, rest: Seq<char>)
    requires
        !e.contains('/') && !has_metadata(e) && !has_metadata(rest),
    ensures
        ({
            let remainder = seq!['/', '/'] + (seq!['/'] + e + seq!['/'] + rest);
            &&& !remainder.contains('?') && !remainder.contains('#')
            &&& seq!['/', '/', '/'].is_prefix_of(remainder)
            &&& path_uri::cut(remainder.skip(3), '/') == Some((e, rest))
        }),
{
    let remainder = seq!['/', '/'] + (seq!['/'] + e + seq!['/'] + rest);
    assert forall|k: int| 0 <= k < remainder.len() implies remainder[k] != '?' && remainder[k]
        != '#' by {
        if k >= 3 && k < 3 + e.len() {
            assert(remainder[k] == e[k - 3]);
            assert(e.contains(e[k - 3]));
        } else if k > 3 + e.len() {
            assert(remainder[k] == rest[k - 4 - e.len()]);
            assert(rest.contains(rest[k - 4 - e.len()]));
        }
    }
    assert(remainder.subrange(0, 3) =~= seq!['/', '/', '/']);
    let inner = remainder.skip(3);
    assert(inner =~= e + seq!['/'] + rest);
    assert forall|k: int| 0 <= k < e.len() implies inner[k] != '/' by {
        assert(inner[k] == e[k]);
        assert(e.contains(e[k]));
    }
    assert(inner[e.len() as int] == '/');
    path_uri::lemma_cut_at(inner, '/', e.len() as int);
    assert(inner.take(e.len() as int) =~= e);
    assert(inner.skip(e.len() as int + 1) =~= rest);
}

/// The text of an environment URI holds the identifier and the path.
proof fn lemma_environment_text(id: Seq<char>, path: Seq<char>)
    requires
        is_representable(id, path),
    ensures
        path_uri::environment_of_text(
            "codex-env://"@ + url_parts::segments_path(path_uri::environment_segments(id, path)),
        ) == Ok::<(Seq<char>, Seq<char>), UriFault>((id, path)),
{
    let e = percent::segment_text(id);
    let rest = rest_of(path);
    lemma_segments_path(id, path);
    lemma_address(id, path);
    percent::lemma_segment_text(id);
    lemma_no_metadata(e);
    lemma_environment_scheme(seq!['/'] + e + seq!['/'] + rest);
    lemma_environment_remainder(e, rest);
}

/// Parsing the text of an environment URI gives the identifier and the path
/// that it was made of.
pub proof fn law_environment_text_round_trip(id: Seq<char>, path: Seq<char>)
    requires
        is_representable(id, path),
    ensures
        path_uri::parsed(
            "codex-env://"@ + url_parts::segments_path(path_uri::environment_segments(id, path)),
        ) == Ok::<UrlModel, UriFault>(path_uri::environment_url_of(id, path)),
{
    lemma_environment_text(id, path);
    lemma_environment_scheme(url_parts::segments_path(path_uri::environment_segments(id, path)));
}

// ---------------------------------------------------------------------------
// All path URIs
// ---------------------------------------------------------------------------
/// Whatever is accepted has no credentials, port, query or fragment, keeps its
/// path to real separators, and is of a known scheme.
pub proof fn law_accepted_uris_are_paths(u: UrlModel)
    requires
        path_uri::accepted(u) is Ok,
    ensures
        u.scheme == FILE_SCHEME@ || u.scheme == CODEX_ENVIRONMENT_SCHEME@,
        u.username.len() == 0,
        u.password is None,
        u.port is None,
        u.query is None,
        u.fragment is None,
        !percent::has_bad_escape(u.path),
        u.scheme == FILE_SCHEME@ ==> !percent::has_escaped_slash(u.path),
        u.scheme == CODEX_ENVIRONMENT_SCHEME@ ==> u.host is None,
{
    path_uri::lemma_schemes_differ();
}

/// Whatever parses as a `file:` URI names no host: `localhost` is left out, and
/// another host is refused.
pub proof fn law_parsed_file_uris_are_local(uri: Seq<char>, u: UrlModel)
    requires
        !path_uri::has_environment_scheme(uri),
        url_parts::parsed_url(uri) == Ok::<UrlModel, Seq<char>>(u),
        u.scheme == FILE_SCHEME@,
    ensures
        path_uri::parsed(uri) matches Ok(v) ==> v.host is None,
        path_uri::names_other_host(u) ==> path_uri::parsed(uri) is Err,
        path_uri::names_other_host(u) && path_uri::file_url_fault(u) is None ==> path_uri::parsed(
            uri,
        ) == Err::<UrlModel, UriFault>(UriFault::FileUriMustReferenceCurrentHost),
{
}

/// The URI of a `file:` URL on another host is the URL as it is, and shows the
/// path behind the host.
pub proof fn law_hosts_are_kept_outside_of_text(u: UrlModel, host: Seq<char>)
    requires
        u.scheme == FILE_SCHEME@,
        u.host == Some(host),
        host != "localhost"@,
        path_uri::accepted(u) is Ok,
    ensures
        path_uri::accepted(u) == Ok::<UrlModel, UriFault>(u),
        path_uri::shown(u) == (UriView::File {
            path: "//"@ + host + percent::decoded_or_kept(u.path),
            url: u,
        }),
{
}

/// The spelling of a `file:` URI without a host is kept as it is, and it shows
/// the decoded path.
pub proof fn law_file_spelling_is_kept(u: UrlModel)
    requires
        u.scheme == FILE_SCHEME@,
        u.host is None,
        path_uri::accepted(u) is Ok,
    ensures
        path_uri::accepted(u) == Ok::<UrlModel, UriFault>(u),
        path_uri::shown(u) == (UriView::File { path: percent::decoded_or_kept(u.path), url: u }),
{
}

/// The host `localhost` has one canonical form: the URI that leaves it out.
pub proof fn law_localhost_is_left_out(u: UrlModel, v: UrlModel)
    requires
        u.scheme == FILE_SCHEME@,
        u.host == Some("localhost"@),
        path_uri::accepted(u) is Ok,
        v == (UrlModel { host: None, text: "file://"@ + u.path, ..u }),
    ensures
        path_uri::accepted(u) == Ok::<UrlModel, UriFault>(v),
        path_uri::accepted(v) == Ok::<UrlModel, UriFault>(v),
        path_uri::shown(u) == (UriView::File { path: percent::decoded_or_kept(u.path), url: u }),
        path_uri::shown(v) == (UriView::File { path: percent::decoded_or_kept(u.path), url: v }),
{
}

// ---------------------------------------------------------------------------
// File URIs of POSIX paths
// ---------------------------------------------------------------------------
/// A normalized POSIX path with a single leading slash that URLs do not read as
/// a drive path.
pub open spec fn is_posix_file(p: Seq<char>) -> bool {
    &&& environment_path::posix_path(p) == Ok::<Seq<char>, environment_path::PathFault>(p)
    &&& !environment_path::has_unc_root(p)
    &&& url_parts::are_stable_names(environment_path::components(p))
}

proof fn lemma_kept_names(names: Seq<Seq<char>>)
    requires
        environment_path_laws::clean(names),
    ensures
        names.filter(|name: Seq<char>| name != seq!['.']) == names,
    decreases names.len(),
{
    let keep = |name: Seq<char>| name != seq!['.'];
    reveal(Seq::filter);
    if names.len() > 0 {
        let init = names.drop_last();
        assert forall|i: int| #![trigger init[i]] 0 <= i < init.len() implies init[i].len() > 0
            && !init[i].contains('/') && init[i] != environment_path::dot() && init[i]
            != environment_path::dot_dot() by {
            assert(init[i] == names[i]);
        }
        lemma_kept_names(init);
        assert(names.last() == names[names.len() - 1]);
        assert(init.push(names.last()) =~= names);
    } else {
        assert(names.filter(keep) =~= names);
    }
}

/// The path of the URL of a normalized POSIX path.
proof fn lemma_posix_path(p: Seq<char>)
    requires
        is_posix_file(p),
    ensures
        ({
            let names = environment_path::components(p);
            let u = url_parts::names_url(names);
            &&& url_parts::posix_url(p) == Some(u)
            &&& url_parts::posix_names(p) == names
            &&& p == seq!['/'] + text::join_with(names, seq!['/'])
            &&& !percent::has_bad_escape(u.path)
            &&& !percent::has_escaped_slash(u.path)
            &&& percent::percent_decoded(encode_utf8(u.path)) == encode_utf8(p)
            &&& percent::decoded_text(u.path) == Some(p)
            &&& u.path.len() > 0 && u.path[0] == '/'
        }),
{
    let names = environment_path::components(p);
    let body = text::join_with(names, seq!['/']);
    environment_path_laws::lemma_posix_names(p);
    lemma_kept_names(names);
    let texts = percent::special_segment_texts(names);
    assert forall|i: int| 0 <= i < names.len() implies !(#[trigger] names[i]).contains('/')
        && percent::spells(texts[i], names[i]) by {
        percent::lemma_special_segment_text(names[i]);
    }
    lemma_joined_texts(texts, names);
    let t = text::join_with(texts, seq!['/']);
    lemma_slash_escapes();
    lemma_concat_escapes(seq!['/'], t);
    text::lemma_slash_size();
    text::lemma_encode_concat(seq!['/'], t);
    text::lemma_encode_concat(seq!['/'], body);
    percent::lemma_decode_complete(seq!['/'], encode_utf8(t));
    encode_utf8_valid_utf8(p);
    encode_utf8_decode_utf8(p);
}

/// The `file:` URI of a normalized POSIX path is accepted as it is, shows that
/// path, and stands for its bytes when it is converted back by the path rules of
/// POSIX, unless the path ends like a drive. Its text has the scheme `file`.
pub proof fn law_posix_file_uri_shows_its_path(p: Seq<char>)
    requires
        is_posix_file(p),
    ensures
        url_parts::posix_url(p) matches Some(u) && {
            &&& path_uri::accepted(u) == Ok::<UrlModel, UriFault>(u)
            &&& path_uri::shown(u) == (UriView::File { path: p, url: u })
            &&& !path_uri::has_environment_scheme(u.text)
            &&& url_parts::are_stable_names(url_parts::posix_names(p))
            &&& !url_parts::ends_like_drive(encode_utf8(p)) ==> url_parts::posix_path_bytes(u.path)
                == encode_utf8(p)
        },
{
    lemma_posix_path(p);
    let u = url_parts::posix_url(p)->0;
    percent::lemma_no_byte(p, '\0');
    lemma_file_text(u.path);
}

proof fn lemma_file_text(path: Seq<char>)
    ensures
        !path_uri::has_environment_scheme("file://"@ + path),
{
    let t = "file://"@ + path;
    reveal_strlit("file");
    reveal_strlit("file://");
    path_uri::lemma_schemes_differ();
    assert(t[4] == ':');
    assert forall|k: int| 0 <= k < 4 implies t[k] != ':' by {
        assert(t[k] == "file://"@[k]);
    }
    path_uri::lemma_cut_at(t, ':', 4);
    let scheme = t.take(4);
    assert(scheme =~= "file"@);
    assert(text::ascii_lower(scheme) =~= scheme);
}

/// On a POSIX host the native path of the `file:` URI of a normalized POSIX path
/// has the bytes of that path, unless the path ends like a drive.
pub proof fn law_posix_native_round_trip(p: Seq<char>, u: UrlModel)
    requires
        is_posix_file(p),
        !url_parts::ends_like_drive(encode_utf8(p)),
        url_parts::posix_url(p) == Some(u),
        url_parts::parses_back(u),
    ensures
        path_uri::native_bytes(u.text, environment_path::PathFlavor::Posix) == Some(
            encode_utf8(p),
        ),
{
    law_posix_file_uri_shows_its_path(p);
}

/// A single drive decodes to a letter and a colon.
pub proof fn lemma_bare_drive(path: Seq<char>)
    requires
        url_parts::is_bare_drive(path),
    ensures
        url_parts::posix_path_bytes(path) == percent::percent_decoded(encode_utf8(path)).push(47),
{
    reveal_with_fuel(percent::percent_decoded, 6);
    let bytes = encode_utf8(path);
    is_ascii_chars_encode_utf8(path);
    assert(bytes.len() == path.len());
    let decoded = percent::percent_decoded(bytes);
    if path.len() == 3 {
        assert(bytes =~= seq![47u8, bytes[1], 58u8]);
        assert(bytes.skip(1).skip(1).skip(1) =~= Seq::<u8>::empty());
        assert(decoded =~= seq![47u8, bytes[1], 58u8]);
    } else {
        let tail = bytes.skip(1).skip(1);
        assert(tail =~= seq![37u8, 51u8, bytes[4]]);
        assert(tail.skip(3) =~= Seq::<u8>::empty());
        assert(percent::begins_with_escape(tail));
        assert(decoded =~= seq![47u8, bytes[1], 58u8]);
    }
}

// ---------------------------------------------------------------------------
// File URIs of Windows paths
// ---------------------------------------------------------------------------
/// The `file:` URL that spells out the drive path `p`.
pub open spec fn drive_url(p: Seq<char>) -> UrlModel {
    let path = url_parts::segments_path(text::split_on(p.skip(1), '/'));
    UrlModel {
        scheme: FILE_SCHEME@,
        username: Seq::empty(),
        password: None,
        host: None,
        port: None,
        path,
        query: None,
        fragment: None,
        text: "file://"@ + path,
    }
}

/// The `file:` URI of a native Windows drive path is accepted as it is and shows
/// the normalized path. Its text has the scheme `file`.
pub proof fn law_windows_file_uri_shows_its_path(w: Seq<char>, p: Seq<char>)
    requires
        environment_path::windows_path(w) == Ok::<Seq<char>, environment_path::PathFault>(p),
        environment_path::is_drive_path(p),
        !url_parts::has_tab_or_break(p),
    ensures
        url_parts::is_plain_drive_path(p),
        path_uri::accepted(drive_url(p)) == Ok::<UrlModel, UriFault>(drive_url(p)),
        path_uri::shown(drive_url(p)) == (UriView::File { path: p, url: drive_url(p) }),
        !path_uri::has_environment_scheme(drive_url(p).text),
{
    environment_path_laws::law_windows_is_canonical(w, p);
    let inner = p.skip(1);
    let pieces = text::split_on(inner, '/');
    lemma_drive_segments(p);
    lemma_file_text(drive_url(p).path);
    lemma_split_pieces(inner);
    lemma_joined_segments(pieces);
    text::lemma_join_split(inner, '/');
    let t = text::join_with(percent::segment_texts(pieces), seq!['/']);
    lemma_slash_escapes();
    lemma_concat_escapes(seq!['/'], t);
    text::lemma_slash_size();
    text::lemma_encode_concat(seq!['/'], t);
    text::lemma_encode_concat(seq!['/'], inner);
    assert(seq!['/'] + inner =~= p);
    percent::lemma_decode_complete(seq!['/'], encode_utf8(t));
    encode_utf8_valid_utf8(p);
    encode_utf8_decode_utf8(p);
    assert(!p.contains('\0'));
    percent::lemma_no_byte(p, '\0');
}

proof fn lemma_drive_segments(p: Seq<char>)
    requires
        environment_path_laws::canonical(p),
        environment_path::is_drive_path(p),
        !url_parts::has_tab_or_break(p),
    ensures
        url_parts::are_plain_segments(text::split_on(p.skip(1), '/')),
{
    let inner = p.skip(1);
    let pieces = text::split_on(inner, '/');
    let infer = environment_path::PathNormalization::InferWindowsRoots;
    environment_path_laws::law_normalization_is_tidy(p, infer);
    assert(p =~= seq!['/'] + inner);
    text::lemma_pieces_lead(inner, '/');
    lemma_split_pieces(inner);
    let drive = seq![p[1], ':'];
    assert(inner =~= drive + seq!['/'] + p.skip(4));
    text::lemma_split_free(drive, '/');
    text::lemma_split_concat(drive, p.skip(4), '/');
    assert(pieces[0] == drive);
    assert forall|i: int| #![trigger pieces[i]] 0 <= i < pieces.len() implies {
        &&& pieces[i] != seq!['.']
        &&& pieces[i] != seq!['.', '.']
        &&& !url_parts::has_tab_or_break(pieces[i])
    } by {
        let piece = pieces[i];
        if piece.len() > 0 {
            let names = environment_path::components(p);
            let k = choose|k: int| 0 <= k < names.len() && names[k] == piece;
            assert(names[k] == piece);
        }
        assert forall|c: char| piece.contains(c) implies p.contains(c) by {
            assert(inner.contains(c));
            let j = choose|j: int| 0 <= j < inner.len() && inner[j] == c;
            assert(p[j + 1] == c);
        }
    }
}

} // verus!
