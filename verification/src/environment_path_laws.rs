//! Laws of environment paths.

use vstd::prelude::*;

use crate::environment_path;
use crate::environment_path::PathFault;
use crate::environment_path::PathFlavor;
use crate::environment_path::PathNormalization;
use crate::text;

verus! {

/// Names that are not empty, hold no slash and are no dot segment.
pub open spec fn clean(names: Seq<Seq<char>>) -> bool {
    &&& text::all_pieces(names, '/')
    &&& forall|i: int|
        #![trigger names[i]]
        0 <= i < names.len() ==> names[i] != environment_path::dot() && names[i]
            != environment_path::dot_dot()
}

/// A root followed by clean names with single slashes between them.
pub open spec fn tidy(p: Seq<char>) -> bool {
    let names = environment_path::components(p);
    let body = text::join_with(names, seq!['/']);
    &&& clean(names)
    &&& {
        ||| p == seq!['/'] + body
        ||| p == seq!['/', '/'] + body
        ||| p == (seq!['/'] + body).push('/') && names.len() == 1
            && environment_path::is_drive_name(names[0])
    }
}

/// A path that [`environment_path::EnvironmentPath::new`] keeps as it is.
pub open spec fn canonical(p: Seq<char>) -> bool {
    environment_path::new_path(p) == Ok::<Seq<char>, PathFault>(p)
}

/// A drive in upper case at the start.
pub open spec fn has_upper_drive(p: Seq<char>) -> bool {
    environment_path::has_drive_head(p) && 'A' <= p[1] && p[1] <= 'Z'
}

// ---------------------------------------------------------------------------
// Resolution
// ---------------------------------------------------------------------------
proof fn lemma_resolve_clean(names: Seq<Seq<char>>, depth: nat)
    requires
        text::all_pieces(names, '/'),
    ensures
        clean(environment_path::resolve(names, depth)),
    decreases names.len(),
{
    if names.len() > 0 {
        let init = names.drop_last();
        assert forall|i: int| #![trigger init[i]] 0 <= i < init.len() implies init[i].len() > 0
            && !init[i].contains('/') by {
            assert(init[i] == names[i]);
        }
        lemma_resolve_clean(init, depth);
        let before = environment_path::resolve(init, depth);
        let after = environment_path::resolve(names, depth);
        assert(names.last() == names[names.len() - 1]);
        assert forall|i: int| #![trigger after[i]] 0 <= i < after.len() implies after[i].len() > 0
            && !after[i].contains('/') && after[i] != environment_path::dot() && after[i]
            != environment_path::dot_dot() by {
            if i < before.len() {
                assert(after[i] == before[i]);
            } else {
                assert(after[i] == names.last());
            }
        }
    }
}

proof fn lemma_resolve_fixed(names: Seq<Seq<char>>, depth: nat)
    requires
        clean(names),
    ensures
        environment_path::resolve(names, depth) == names,
    decreases names.len(),
{
    if names.len() > 0 {
        let init = names.drop_last();
        assert forall|i: int| #![trigger init[i]] 0 <= i < init.len() implies init[i].len() > 0
            && !init[i].contains('/') && init[i] != environment_path::dot() && init[i]
            != environment_path::dot_dot() by {
            assert(init[i] == names[i]);
        }
        lemma_resolve_fixed(init, depth);
        assert(names.last() == names[names.len() - 1]);
        assert(init.push(names.last()) == names);
    }
}

/// The first `depth` names survive resolution.
proof fn lemma_resolve_root(names: Seq<Seq<char>>, depth: nat)
    requires
        names.len() >= depth,
        forall|i: int|
            #![trigger names[i]]
            0 <= i < depth ==> names[i].len() > 0 && names[i] != environment_path::dot()
                && names[i] != environment_path::dot_dot(),
    ensures
        environment_path::resolve(names, depth).len() >= depth,
        environment_path::resolve(names, depth).take(depth as int) == names.take(depth as int),
    decreases names.len(),
{
    if names.len() == depth {
        lemma_resolve_all_root(names, depth);
        assert(names.take(depth as int) == names);
    } else {
        let init = names.drop_last();
        assert forall|i: int| #![trigger init[i]] 0 <= i < depth implies init[i].len() > 0
            && init[i] != environment_path::dot() && init[i] != environment_path::dot_dot() by {
            assert(init[i] == names[i]);
        }
        lemma_resolve_root(init, depth);
        assert(init.take(depth as int) == names.take(depth as int));
        let before = environment_path::resolve(init, depth);
        let after = environment_path::resolve(names, depth);
        assert(after.take(depth as int) == before.take(depth as int));
    }
}

proof fn lemma_resolve_all_root(names: Seq<Seq<char>>, depth: nat)
    requires
        names.len() <= depth,
        forall|i: int|
            #![trigger names[i]]
            0 <= i < names.len() ==> names[i].len() > 0 && names[i] != environment_path::dot()
                && names[i] != environment_path::dot_dot(),
    ensures
        environment_path::resolve(names, depth) == names,
    decreases names.len(),
{
    if names.len() > 0 {
        let init = names.drop_last();
        assert forall|i: int| #![trigger init[i]] 0 <= i < init.len() implies init[i].len() > 0
            && init[i] != environment_path::dot() && init[i] != environment_path::dot_dot() by {
            assert(init[i] == names[i]);
        }
        lemma_resolve_all_root(init, depth);
        assert(names.last() == names[names.len() - 1]);
        assert(init.push(names.last()) == names);
    }
}

// ---------------------------------------------------------------------------
// Formatting
// ---------------------------------------------------------------------------
/// Formatting keeps the names.
proof fn lemma_format_components(
    original: Seq<char>,
    names: Seq<Seq<char>>,
    mode: PathNormalization,
)
    requires
        text::all_pieces(names, '/'),
    ensures
        environment_path::components(environment_path::format_path(original, names, mode))
            == names,
{
    let body = text::join_with(names, seq!['/']);
    text::lemma_split_join(names, '/');
    text::lemma_pieces_lead(body, '/');
    text::lemma_pieces_lead(seq!['/'] + body, '/');
    text::lemma_pieces_trail(seq!['/'] + body, '/');
    assert(seq!['/'] + (seq!['/'] + body) == seq!['/', '/'] + body);
}

/// The body of a path with clean names does not start or end with a slash.
proof fn lemma_body_ends(names: Seq<Seq<char>>)
    requires
        text::all_pieces(names, '/'),
        names.len() > 0,
    ensures
        text::join_with(names, seq!['/']).len() > 0,
        text::join_with(names, seq!['/'])[0] == names[0][0],
        text::join_with(names, seq!['/'])[0] != '/',
        text::join_with(names, seq!['/']).last() != '/',
        names.len() == 1 ==> text::join_with(names, seq!['/']) == names[0],
        names.len() > 1 ==> text::join_with(names, seq!['/']).len() > names[0].len()
            && text::join_with(names, seq!['/'])[names[0].len() as int] == '/',
        forall|k: int|
            0 <= k < names[0].len() ==> text::join_with(names, seq!['/'])[k] == names[0][k],
{
    let body = text::join_with(names, seq!['/']);
    text::lemma_join_first(names, seq!['/']);
    text::lemma_join_last(names, seq!['/']);
    let first = names[0];
    let last = names.last();
    assert(last == names[names.len() - 1]);
    assert forall|k: int| 0 <= k < first.len() implies body[k] == first[k] by {
        assert(first == body.subrange(0, first.len() as int));
        assert(body.subrange(0, first.len() as int)[k] == body[k]);
    }
    assert(body[0] == first[0]);
    assert(first.contains(first[0]));
    assert(body.skip(body.len() - last.len())[last.len() - 1] == body[body.len() - 1]);
    assert(last.contains(last[last.len() - 1]));
    if names.len() > 1 {
        let head = first + seq!['/'];
        assert(head == body.subrange(0, head.len() as int));
        assert(head[first.len() as int] == '/');
        assert(body.subrange(0, head.len() as int)[first.len() as int]
            == body[first.len() as int]);
    }
}

/// What a path with clean names looks like at its start.
proof fn lemma_format_shape(original: Seq<char>, names: Seq<Seq<char>>, mode: PathNormalization)
    requires
        clean(names),
    ensures
        ({
            let p = environment_path::format_path(original, names, mode);
            &&& p.len() > 0 && p[0] == '/'
            &&& environment_path::components(p) == names
            &&& environment_path::has_unc_root(p) <==> environment_path::has_unc_root(original)
            &&& tidy(p)
            &&& !environment_path::has_unc_root(original) ==> (
            environment_path::has_drive_head(p) <==> names.len() > 0
                && environment_path::is_drive_name(names[0]))
            &&& !environment_path::has_unc_root(original) && names.len() > 0
                && environment_path::is_drive_name(names[0]) ==> p[1] == names[0][0]
            &&& environment_path::format_path(p, names, mode) == p
        }),
{
    let p = environment_path::format_path(original, names, mode);
    let body = text::join_with(names, seq!['/']);
    lemma_format_components(original, names, mode);
    if names.len() == 0 {
        assert(body == Seq::<char>::empty());
        if environment_path::has_unc_root(original) {
            assert(p == seq!['/', '/']);
        } else {
            assert(p == seq!['/']);
        }
    } else {
        lemma_body_ends(names);
        if environment_path::has_unc_root(original) {
            assert(p[0] == '/' && p[1] == '/' && p[2] == body[0]);
        } else {
            assert(p[0] == '/' && p[1] == body[0]);
            if names.len() == 1 {
                assert(body == names[0]);
                if environment_path::is_drive_name(names[0]) {
                    assert(p[1] == names[0][0] && p[2] == names[0][1]);
                }
                if environment_path::has_drive_head(p) {
                    if p == seq!['/'] + body {
                        assert(p[1] == body[0] && p[2] == body[1]);
                        if p.len() > 3 {
                            assert(p[3] == body[2]);
                            assert(names[0].contains(names[0][2]));
                        }
                    }
                }
            } else {
                let n = names[0].len();
                if environment_path::is_drive_name(names[0]) {
                    assert(p[1] == body[0] && p[2] == body[1] && p[3] == body[2]);
                }
                if environment_path::has_drive_head(p) {
                    assert(p == seq!['/'] + body);
                    assert(p[1] == body[0] && p[2] == body[1]);
                    if n == 1 {
                        assert(body[1] == '/');
                    } else if n >= 3 {
                        assert(p[3] == body[2]);
                        assert(names[0].contains(names[0][2]));
                    }
                }
            }
            assert(p == seq!['/'] + body ==> p.last() == body.last());
        }
    }
}

proof fn lemma_lower_letter(c: char)
    ensures
        text::is_ascii_letter(c) ==> text::is_ascii_letter(text::ascii_lower_char(c)) && 'a'
            <= text::ascii_lower_char(c) && text::ascii_lower_char(c) <= 'z',
        !('A' <= c && c <= 'Z') ==> text::ascii_lower_char(c) == c,
{
}

/// Lowering a drive keeps names clean, and a second time changes nothing.
proof fn lemma_lower_drive(names: Seq<Seq<char>>)
    requires
        clean(names),
    ensures
        clean(environment_path::lower_drive(names)),
        environment_path::lower_drive(environment_path::lower_drive(names))
            == environment_path::lower_drive(names),
{
    let lowered = environment_path::lower_drive(names);
    if names.len() > 0 && environment_path::is_drive_name(names[0]) {
        lemma_lower_letter(names[0][0]);
        assert forall|i: int| #![trigger lowered[i]] 0 <= i < lowered.len() implies lowered[i].len()
            > 0 && !lowered[i].contains('/') && lowered[i] != environment_path::dot() && lowered[i]
            != environment_path::dot_dot() by {
            if i == 0 {
                assert(lowered[0][1] == ':');
            } else {
                assert(lowered[i] == names[i]);
            }
        }
        lemma_lower_letter(lowered[0][0]);
        assert(environment_path::lower_drive(lowered) == lowered);
    }
}

/// What the components of a normal form are like.
proof fn lemma_normal_names(p: Seq<char>, mode: PathNormalization)
    ensures
        clean(environment_path::normal_names(p, mode)),
        mode is InferWindowsRoots && !environment_path::has_unc_root(p)
            ==> environment_path::lower_drive(environment_path::normal_names(p, mode))
            == environment_path::normal_names(p, mode),
{
    let depth = if mode is InferWindowsRoots {
        environment_path::root_depth(p)
    } else {
        0
    };
    text::lemma_pieces(p, '/');
    lemma_resolve_clean(environment_path::components(p), depth);
    lemma_lower_drive(environment_path::resolve(environment_path::components(p), depth));
}

/// Normalization gives a root followed by clean names with single slashes
/// between them: repeated separators, `.` and `..` are gone.
pub proof fn law_normalization_is_tidy(p: Seq<char>, mode: PathNormalization)
    ensures
        tidy(environment_path::normalize(p, mode)),
        environment_path::normalize(p, mode).len() > 0,
        environment_path::normalize(p, mode)[0] == '/',
{
    lemma_normal_names(p, mode);
    lemma_format_shape(p, environment_path::normal_names(p, mode), mode);
}

/// A leading drive is the first component.
proof fn lemma_drive_components(p: Seq<char>)
    requires
        environment_path::has_drive_head(p),
    ensures
        environment_path::components(p) == seq![seq![p[1], ':']] + environment_path::components(
            p.skip(3),
        ),
{
    let name = seq![p[1], ':'];
    assert(!name.contains('/'));
    text::lemma_single_piece(name, '/');
    if p.len() == 3 {
        assert(p == seq!['/'] + name);
        text::lemma_pieces_lead(name, '/');
        assert(p.skip(3) == Seq::<char>::empty());
        text::lemma_single_piece(p.skip(3), '/');
    } else {
        let tail = p.skip(4);
        assert(p == seq!['/'] + name + seq!['/'] + tail);
        text::lemma_pieces_concat(seq!['/'] + name, tail, '/');
        text::lemma_pieces_lead(name, '/');
        assert(p.skip(3) == seq!['/'] + tail);
        text::lemma_pieces_lead(tail, '/');
    }
}

/// Normalizing a formatted path whose names are in normal form.
proof fn lemma_normalize_format(
    original: Seq<char>,
    names: Seq<Seq<char>>,
    mode: PathNormalization,
)
    requires
        clean(names),
        mode is InferWindowsRoots && !environment_path::has_unc_root(original)
            ==> environment_path::lower_drive(names) == names,
    ensures
        environment_path::normalize(environment_path::format_path(original, names, mode), mode)
            == environment_path::format_path(original, names, mode),
{
    let p = environment_path::format_path(original, names, mode);
    lemma_format_shape(original, names, mode);
    let depth = if mode is InferWindowsRoots {
        environment_path::root_depth(p)
    } else {
        0
    };
    lemma_resolve_fixed(names, depth);
}

/// `new` keeps what `new` has made.
pub proof fn law_new_is_idempotent(p: Seq<char>, r: Seq<char>)
    requires
        environment_path::new_path(p) == Ok::<Seq<char>, PathFault>(r),
    ensures
        canonical(r),
{
    let infer = PathNormalization::InferWindowsRoots;
    lemma_normal_names(p, infer);
    lemma_normalize_format(p, environment_path::normal_names(p, infer), infer);
}

/// A normal form never starts with a drive in upper case.
proof fn lemma_normal_drive(p: Seq<char>)
    ensures
        !has_upper_drive(
            environment_path::normalize(p, PathNormalization::InferWindowsRoots),
        ),
{
    let infer = PathNormalization::InferWindowsRoots;
    let names = environment_path::normal_names(p, infer);
    let n = environment_path::normalize(p, infer);
    lemma_normal_names(p, infer);
    lemma_format_shape(p, names, infer);
    if environment_path::has_unc_root(p) {
        assert(n[1] == '/');
    } else if environment_path::has_drive_head(n) {
        let lowered = environment_path::lower_drive(names);
        assert(lowered[0] == seq![text::ascii_lower_char(names[0][0]), ':']);
        assert(lowered[0][0] == names[0][0]);
        lemma_lower_letter(names[0][0]);
    }
}

/// Drive letters are in lower case in every path that `new` returns, wherever
/// dot segments stood in what it was given.
pub proof fn law_drives_are_lower_case(p: Seq<char>, r: Seq<char>)
    requires
        environment_path::new_path(p) == Ok::<Seq<char>, PathFault>(r),
    ensures
        !has_upper_drive(r),
{
    lemma_normal_drive(p);
}

/// `posix` keeps what `posix` has made.
pub proof fn law_posix_is_idempotent(p: Seq<char>, r: Seq<char>)
    requires
        environment_path::posix_path(p) == Ok::<Seq<char>, PathFault>(r),
    ensures
        environment_path::posix_path(r) == Ok::<Seq<char>, PathFault>(r),
{
    let kept = environment_path::normal_names(p, PathNormalization::Posix);
    lemma_normal_names(p, PathNormalization::Posix);
    lemma_normalize_format(p, kept, PathNormalization::Posix);
    lemma_format_shape(p, kept, PathNormalization::Posix);
    lemma_normalize_free(p, PathNormalization::Posix, '\0');
}

// ---------------------------------------------------------------------------
// Characters
// ---------------------------------------------------------------------------
/// None of the names contains `c`.
spec fn names_free(names: Seq<Seq<char>>, c: char) -> bool {
    forall|i: int| #![trigger names[i]] 0 <= i < names.len() ==> !names[i].contains(c)
}

proof fn lemma_split_free_of(s: Seq<char>, sep: char, c: char)
    requires
        !s.contains(c),
    ensures
        names_free(text::split_on(s, sep), c),
    decreases s.len(),
{
    if s.len() > 0 {
        assert forall|k: int| 0 <= k < s.drop_last().len() implies s.drop_last()[k] != c by {
            assert(s.drop_last()[k] == s[k]);
        }
        lemma_split_free_of(s.drop_last(), sep, c);
        text::lemma_split_some(s.drop_last(), sep);
        let before = text::split_on(s.drop_last(), sep);
        let all = text::split_on(s, sep);
        assert(s.last() == s[s.len() - 1]);
        assert forall|i: int| 0 <= i < all.len() implies !(#[trigger] all[i]).contains(c) by {
            if s.last() != sep && i == all.len() - 1 {
                let piece = before.last();
                assert(!before[before.len() - 1].contains(c));
                assert forall|k: int| 0 <= k < all[i].len() implies all[i][k] != c by {
                    if k < piece.len() {
                        assert(piece[k] == all[i][k]);
                    }
                }
            } else if i < before.len() {
                assert(all[i] == before[i]);
            }
        }
    }
}

proof fn lemma_non_empty_free_of(pieces: Seq<Seq<char>>, c: char)
    requires
        names_free(pieces, c),
    ensures
        names_free(text::non_empty(pieces), c),
    decreases pieces.len(),
{
    if pieces.len() > 0 {
        assert forall|i: int| 0 <= i < pieces.drop_last().len() implies !(
        #[trigger] pieces.drop_last()[i]).contains(c) by {
            assert(pieces.drop_last()[i] == pieces[i]);
        }
        lemma_non_empty_free_of(pieces.drop_last(), c);
        assert(!pieces[pieces.len() - 1].contains(c));
    }
}

proof fn lemma_resolve_free_of(names: Seq<Seq<char>>, depth: nat, c: char)
    requires
        names_free(names, c),
    ensures
        names_free(environment_path::resolve(names, depth), c),
    decreases names.len(),
{
    if names.len() > 0 {
        assert forall|i: int| 0 <= i < names.drop_last().len() implies !(
        #[trigger] names.drop_last()[i]).contains(c) by {
            assert(names.drop_last()[i] == names[i]);
        }
        lemma_resolve_free_of(names.drop_last(), depth, c);
        assert(!names[names.len() - 1].contains(c));
    }
}

proof fn lemma_join_free_of(names: Seq<Seq<char>>, c: char)
    requires
        names_free(names, c),
        c != '/',
    ensures
        !text::join_with(names, seq!['/']).contains(c),
    decreases names.len(),
{
    if names.len() > 1 {
        assert forall|i: int| 0 <= i < names.drop_last().len() implies !(
        #[trigger] names.drop_last()[i]).contains(c) by {
            assert(names.drop_last()[i] == names[i]);
        }
        lemma_join_free_of(names.drop_last(), c);
        let init = text::join_with(names.drop_last(), seq!['/']);
        let last = names.last();
        assert(!names[names.len() - 1].contains(c));
        let whole = init + seq!['/'] + last;
        assert forall|k: int| 0 <= k < whole.len() implies whole[k] != c by {
            if k < init.len() {
                assert(init.contains(init[k]));
            } else if k > init.len() {
                assert(last.contains(last[k - init.len() - 1]));
            }
        }
    }
}

proof fn lemma_format_free_of(
    original: Seq<char>,
    names: Seq<Seq<char>>,
    mode: PathNormalization,
    c: char,
)
    requires
        names_free(names, c),
        c != '/',
    ensures
        !environment_path::format_path(original, names, mode).contains(c),
{
    lemma_join_free_of(names, c);
    let body = text::join_with(names, seq!['/']);
    let p = environment_path::format_path(original, names, mode);
    assert forall|k: int| 0 <= k < p.len() implies p[k] != c by {
        if environment_path::has_unc_root(original) {
            if k >= 2 {
                assert(p[k] == body[k - 2]);
                assert(body.contains(body[k - 2]));
            }
        } else if 1 <= k <= body.len() {
            assert(p[k] == body[k - 1]);
            assert(body.contains(body[k - 1]));
        }
    }
}

/// Normalizing brings in no character but slashes and lower-case drive letters.
proof fn lemma_normalize_free(p: Seq<char>, mode: PathNormalization, c: char)
    requires
        !p.contains(c),
        c != '/',
        !text::is_ascii_letter(c),
    ensures
        !environment_path::normalize(p, mode).contains(c),
{
    let depth = if mode is InferWindowsRoots {
        environment_path::root_depth(p)
    } else {
        0
    };
    lemma_split_free_of(p, '/', c);
    lemma_non_empty_free_of(text::split_on(p, '/'), c);
    lemma_resolve_free_of(environment_path::components(p), depth, c);
    let names = environment_path::resolve(environment_path::components(p), depth);
    let kept = environment_path::normal_names(p, mode);
    assert forall|i: int| 0 <= i < kept.len() implies !(#[trigger] kept[i]).contains(c) by {
        assert(!names[i].contains(c));
        if kept[i] != names[i] {
            assert(kept[0] == seq![text::ascii_lower_char(names[0][0]), ':']);
            assert(names[0].contains(names[0][1]));
            lemma_lower_letter(names[0][0]);
        }
    }
    lemma_format_free_of(p, kept, mode, c);
}

proof fn lemma_replace_absent(s: Seq<char>, from: char, to: char)
    requires
        !s.contains(from),
    ensures
        text::replace_char(s, from, to) == s,
{
    assert forall|k: int| 0 <= k < s.len() implies text::replace_char(s, from, to)[k] == s[k] by {
        assert(s.contains(s[k]));
    }
    assert(text::replace_char(s, from, to) == s);
}

proof fn lemma_replace_removes(s: Seq<char>, from: char, to: char)
    requires
        from != to,
    ensures
        !text::replace_char(s, from, to).contains(from),
{
}

proof fn lemma_unc_bare(q: Seq<char>)
    requires
        q.len() == 2,
        environment_path::has_unc_root(q),
    ensures
        environment_path::components(q).len() == 0,
{
    let none = Seq::<char>::empty();
    assert(q == seq!['/'] + (seq!['/'] + none));
    text::lemma_single_piece(none, '/');
    text::lemma_pieces_lead(none, '/');
    text::lemma_pieces_lead(seq!['/'] + none, '/');
}

/// The first name of a path starts right after its two leading slashes.
proof fn lemma_unc_first_name(q: Seq<char>)
    requires
        environment_path::has_unc_root(q),
        q.len() > 2,
    ensures
        environment_path::components(q).len() > 0,
        ({
            let first = environment_path::components(q)[0];
            &&& 2 + first.len() <= q.len()
            &&& q.subrange(2, 2int + first.len()) == first
            &&& 2 + first.len() < q.len() ==> q[2int + first.len()] == '/'
            &&& 2 + first.len() == q.len() ==> environment_path::components(q).len() == 1
        }),
{
    let s = q.skip(2);
    assert(q == seq!['/'] + (seq!['/'] + s));
    text::lemma_pieces_lead(s, '/');
    text::lemma_pieces_lead(seq!['/'] + s, '/');
    lemma_first_name(s, 0);
    let first = environment_path::components(q)[0];
    assert(s.take(first.len() as int) == q.subrange(2, 2int + first.len()));
    assert(first.len() < s.len() ==> s[first.len() as int] == q[2int + first.len()]);
}

proof fn lemma_first_name(s: Seq<char>, n: int)
    requires
        s.len() > 0,
        s[0] != '/',
        0 <= n <= s.len(),
        forall|k: int| 0 <= k < n ==> s[k] != '/',
    ensures
        environment_path::components(s).len() > 0,
        ({
            let first = environment_path::components(s)[0];
            &&& first.len() <= s.len()
            &&& s.take(first.len() as int) == first
            &&& first.len() < s.len() ==> s[first.len() as int] == '/'
            &&& first.len() == s.len() ==> environment_path::components(s).len() == 1
        }),
    decreases s.len() - n,
{
    if n == s.len() {
        assert(!s.contains('/'));
        text::lemma_single_piece(s, '/');
        assert(s.take(s.len() as int) == s);
    } else if s[n] == '/' {
        let head = s.take(n);
        let tail = s.skip(n + 1);
        assert(s == head + seq!['/'] + tail);
        assert(!head.contains('/'));
        text::lemma_single_piece(head, '/');
        text::lemma_pieces_concat(head, tail, '/');
    } else {
        lemma_first_name(s, n + 1);
    }
}

// ---------------------------------------------------------------------------
// Windows paths
// ---------------------------------------------------------------------------
/// A fully qualified drive or UNC path.
pub open spec fn is_fully_qualified(p: Seq<char>) -> bool {
    environment_path::is_drive_path(p) || (environment_path::has_unc_root(p)
        && environment_path::is_unc(p))
}

/// Every accepted native Windows path becomes a canonical path with a drive
/// letter in lower case or a UNC root, and without backslashes.
pub proof fn law_windows_is_canonical(w: Seq<char>, p: Seq<char>)
    requires
        environment_path::windows_path(w) == Ok::<Seq<char>, PathFault>(p),
    ensures
        canonical(p),
        is_fully_qualified(p),
        !p.contains('\\'),
        !has_upper_drive(p),
{
    let q = text::replace_char(w, '\\', '/');
    let infer = PathNormalization::InferWindowsRoots;
    lemma_replace_removes(w, '\\', '/');
    let two = seq!['/', '/'];
    assert(q.len() == w.len());
    if two.is_prefix_of(q) {
        assert(q.len() >= 2 && q[0] == '/' && q[1] == '/') by {
            assert(q.subrange(0, 2)[0] == q[0]);
            assert(q.subrange(0, 2)[1] == q[1]);
        }
        lemma_windows_two(w);
        lemma_unc_is_canonical(w, q);
    } else {
        let s = seq!['/'] + q;
        assert(w.len() >= 3 && text::is_ascii_letter(w[0]) && w[1] == ':') by {
            lemma_windows_two(w);
        }
        assert(q[0] == w[0] && q[1] == ':' && q[2] == '/');
        assert(s[1] == q[0] && s[2] == q[1] && s[3] == q[2]);
        assert(environment_path::is_drive_path(s));
        assert(!s.contains('\\')) by {
            assert forall|k: int| 0 <= k < s.len() implies s[k] != '\\' by {
                if k > 0 {
                    assert(s[k] == q[k - 1]);
                    assert(q.contains(q[k - 1]));
                }
            }
        }
        lemma_normalize_free(s, infer, '\\');
        lemma_drive_stays(s);
        law_new_is_idempotent(s, p);
    }
}

/// How an accepted Windows path starts.
proof fn lemma_windows_two(w: Seq<char>)
    requires
        environment_path::windows_fault(w) is None,
    ensures
        ({
            let q = text::replace_char(w, '\\', '/');
            if seq!['/', '/'].is_prefix_of(q) {
                environment_path::has_unc_root(q) && environment_path::is_unc(q)
            } else {
                w.len() >= 3 && text::is_ascii_letter(w[0]) && w[1] == ':' && (w[2] == '/' || w[2]
                    == '\\')
            }
        }),
{
    let q = text::replace_char(w, '\\', '/');
    if seq!['/', '/'].is_prefix_of(q) {
        assert(q.subrange(0, 2)[0] == q[0]);
        assert(q.subrange(0, 2)[1] == q[1]);
    } else if w.len() >= 2 && ((w[0] == '\\' && w[1] == '\\') || (w[0] == '/' && w[1] == '/')) {
        assert(q[0] == '/' && q[1] == '/');
        assert(q.subrange(0, 2) == seq!['/', '/']);
    }
}

/// A drive path keeps its drive, in lower case, at its start.
proof fn lemma_drive_stays(s: Seq<char>)
    requires
        environment_path::is_drive_path(s),
    ensures
        ({
            let p = environment_path::normalize(s, PathNormalization::InferWindowsRoots);
            &&& environment_path::is_drive_path(p)
            &&& !has_upper_drive(p)
            &&& p[1] == text::ascii_lower_char(s[1])
            &&& environment_path::components(p).len() >= 1
            &&& environment_path::components(p)[0] == seq![p[1], ':']
        }),
{
    let infer = PathNormalization::InferWindowsRoots;
    let names = environment_path::components(s);
    text::lemma_pieces(s, '/');
    lemma_drive_components(s);
    assert(names[0] == seq![s[1], ':']);
    assert(names[0][1] == ':');
    lemma_resolve_root(names, 1);
    let resolved = environment_path::resolve(names, 1);
    assert(resolved[0] == resolved.take(1)[0]);
    assert(resolved[0] == names.take(1)[0]);
    let kept = environment_path::normal_names(s, infer);
    assert(kept[0] == seq![text::ascii_lower_char(s[1]), ':']);
    lemma_lower_letter(s[1]);
    lemma_normal_names(s, infer);
    lemma_format_shape(s, kept, infer);
    lemma_normal_drive(s);
    let p = environment_path::format_path(s, kept, infer);
    lemma_body_ends(kept);
    let body = text::join_with(kept, seq!['/']);
    if kept.len() == 1 {
        assert(p == (seq!['/'] + body).push('/'));
        assert(p[1] == body[0] && p[2] == body[1] && p[3] == '/');
    } else {
        assert(p == seq!['/'] + body);
        assert(p[1] == body[0] && p[2] == body[1] && p[3] == body[2]);
    }
}

/// A UNC path keeps its server and share.
proof fn lemma_unc_stays(q: Seq<char>)
    requires
        environment_path::has_unc_root(q),
        environment_path::is_unc(q),
    ensures
        ({
            let p = environment_path::normalize(q, PathNormalization::InferWindowsRoots);
            let names = environment_path::components(p);
            &&& environment_path::has_unc_root(p)
            &&& environment_path::is_unc(p)
            &&& names.take(2) == environment_path::components(q).take(2)
            &&& clean(names)
            &&& p == seq!['/', '/'] + text::join_with(names, seq!['/'])
        }),
{
    let infer = PathNormalization::InferWindowsRoots;
    let names = environment_path::components(q);
    text::lemma_pieces(q, '/');
    lemma_resolve_clean(names, 2);
    lemma_resolve_root(names, 2);
    let kept = environment_path::resolve(names, 2);
    lemma_format_shape(q, kept, infer);
    assert(kept[0] == kept.take(2)[0] && kept[1] == kept.take(2)[1]);
    assert(names[0] == names.take(2)[0] && names[1] == names.take(2)[1]);
}

proof fn lemma_unc_is_canonical(w: Seq<char>, q: Seq<char>)
    requires
        q == text::replace_char(w, '\\', '/'),
        environment_path::windows_fault(w) is None,
        environment_path::has_unc_root(q),
        environment_path::is_unc(q),
    ensures
        ({
            let p = environment_path::normalize(q, PathNormalization::InferWindowsRoots);
            canonical(p) && !p.contains('\\') && !has_upper_drive(p)
                && environment_path::has_unc_root(p) && environment_path::is_unc(p)
        }),
{
    let infer = PathNormalization::InferWindowsRoots;
    let p = environment_path::normalize(q, infer);
    lemma_unc_stays(q);
    lemma_replace_removes(w, '\\', '/');
    lemma_normalize_free(q, infer, '\\');
    assert(!q.contains('\0')) by {
        assert forall|k: int| 0 <= k < q.len() implies q[k] != '\0' by {
            assert(w.contains(w[k]));
        }
    }
    lemma_normalize_free(q, infer, '\0');
    lemma_replace_absent(q, '\\', '/');
    lemma_normal_namespace(q);
    assert(environment_path::environment_fault(p) is None);
    assert(!has_upper_drive(p));
    text::lemma_pieces(q, '/');
    lemma_resolve_clean(environment_path::components(q), 2);
    lemma_normalize_format(q, environment_path::normal_names(q, infer), infer);
}

/// What a canonical path looks like.
proof fn lemma_canonical(p: Seq<char>)
    requires
        canonical(p),
    ensures
        clean(environment_path::components(p)),
        environment_path::environment_fault(p) is None,
        environment_path::format_path(
            p,
            environment_path::components(p),
            PathNormalization::InferWindowsRoots,
        ) == p,
        !has_upper_drive(p),
        !environment_path::has_unc_root(p) ==> environment_path::lower_drive(
            environment_path::components(p),
        ) == environment_path::components(p),
        p.len() > 0 && p[0] == '/',
{
    let infer = PathNormalization::InferWindowsRoots;
    lemma_normal_names(p, infer);
    lemma_format_shape(p, environment_path::normal_names(p, infer), infer);
    lemma_normal_drive(p);
}

/// Writing a fully qualified canonical path without backslashes in Windows
/// syntax and reading it back gives the same path.
pub proof fn law_windows_round_trip(p: Seq<char>)
    requires
        canonical(p),
        is_fully_qualified(p),
        !p.contains('\\'),
    ensures
        environment_path::native_path(p, PathFlavor::Windows) matches Ok(n)
            && environment_path::windows_path(n) == Ok::<Seq<char>, PathFault>(p),
{
    let infer = PathNormalization::InferWindowsRoots;
    lemma_canonical(p);
    lemma_replace_absent(p, '\\', '/');
    assert(environment_path::normalize(p, infer) == p);
    if environment_path::is_drive_path(p) {
        let s = p.skip(1);
        let n = text::replace_char(s, '/', '\\');
        assert(!s.contains('\\')) by {
            assert forall|k: int| 0 <= k < s.len() implies s[k] != '\\' by {
                assert(s[k] == p[k + 1]);
                assert(p.contains(p[k + 1]));
            }
        }
        let back = text::replace_char(n, '\\', '/');
        assert(back == s) by {
            assert forall|k: int| 0 <= k < s.len() implies back[k] == s[k] by {
                assert(s.contains(s[k]));
            }
        }
        assert(n[0] == p[1] && n[1] == ':' && n[2] == '\\');
        assert(back[0] == p[1]);
        assert(seq!['/'] + back == p);
        assert(!seq!['/', '/'].is_prefix_of(back)) by {
            assert(back.subrange(0, 2)[0] == back[0]);
        }
        assert(!environment_path::in_windows_namespace(n)) by {
            assert(back.len() >= 4 ==> back.subrange(0, 4)[0] == back[0]);
        }
        assert(!n.contains('\0')) by {
            assert forall|k: int| 0 <= k < n.len() implies n[k] != '\0' by {
                assert(p.contains(p[k + 1]));
            }
        }
        assert(environment_path::windows_fault(n) is None);
    } else {
        let n = text::replace_char(p, '/', '\\');
        let back = text::replace_char(n, '\\', '/');
        assert(back == p) by {
            assert forall|k: int| 0 <= k < p.len() implies back[k] == p[k] by {
                assert(p.contains(p[k]));
            }
        }
        assert(p.subrange(0, 2) == seq!['/', '/']);
        assert(n[0] == '\\' && n[1] == '\\');
        assert(!n.contains('\0')) by {
            assert forall|k: int| 0 <= k < n.len() implies n[k] != '\0' by {
                assert(p.contains(p[k]));
            }
        }
        assert(environment_path::in_windows_namespace(n)
            == environment_path::in_windows_namespace(p));
    }
}

/// Reading a native Windows path, writing it in Windows syntax and reading it
/// again gives the same path, whatever separators and dot segments it had.
pub proof fn law_windows_native_round_trip(w: Seq<char>, p: Seq<char>)
    requires
        environment_path::windows_path(w) == Ok::<Seq<char>, PathFault>(p),
    ensures
        environment_path::native_path(p, PathFlavor::Windows) matches Ok(n)
            && environment_path::windows_path(n) == Ok::<Seq<char>, PathFault>(p),
{
    law_windows_is_canonical(w, p);
    law_windows_round_trip(p);
}

/// POSIX conversion returns the stored spelling, and reading it back as a
/// POSIX path gives the same path.
pub proof fn law_posix_round_trip(g: Seq<char>, p: Seq<char>)
    requires
        environment_path::posix_path(g) == Ok::<Seq<char>, PathFault>(p),
    ensures
        environment_path::native_path(p, PathFlavor::Posix) == Ok::<Seq<char>, PathFault>(p),
        environment_path::posix_path(p) == Ok::<Seq<char>, PathFault>(p),
{
    law_posix_is_idempotent(g, p);
}

/// A fully qualified native Windows path: a drive in lower case and a backslash,
/// or two backslashes with a server and a share behind them.
pub open spec fn is_native_qualified(s: Seq<char>) -> bool {
    let q = text::replace_char(s, '\\', '/');
    ||| s.len() >= 3 && 'a' <= s[0] && s[0] <= 'z' && s[1] == ':' && s[2] == '\\'
    ||| s.len() >= 2 && s[0] == '\\' && s[1] == '\\' && environment_path::has_unc_root(q)
        && environment_path::is_unc(q)
}

/// Windows conversion of any path gives a fully qualified path or fails: no
/// result is relative to a root or to the current drive.
pub proof fn law_windows_results_are_qualified(p: Seq<char>, s: Seq<char>)
    requires
        environment_path::native_path(p, PathFlavor::Windows) == Ok::<Seq<char>, PathFault>(s),
    ensures
        is_native_qualified(s),
{
    let q = text::replace_char(p, '\\', '/');
    let infer = PathNormalization::InferWindowsRoots;
    let n = environment_path::normalize(q, infer);
    lemma_replace_removes(p, '\\', '/');
    lemma_normalize_free(q, infer, '\\');
    if environment_path::is_drive_path(n) {
        lemma_normal_drive(q);
        assert(environment_path::has_drive_head(n));
        assert(s[0] == n[1] && s[1] == ':' && s[2] == '\\');
    } else {
        let back = text::replace_char(s, '\\', '/');
        assert(back == n) by {
            assert forall|k: int| 0 <= k < n.len() implies back[k] == n[k] by {
                assert(n.contains(n[k]));
            }
        }
        assert(s[0] == '\\' && s[1] == '\\');
    }
}

/// A Windows spelling exists for exactly the paths outside the device
/// namespaces that, with backslashes read as separators, have a drive or a UNC
/// root, or name a drive behind more than two separators.
pub proof fn law_windows_needs_full_qualification(p: Seq<char>)
    ensures
        environment_path::native_path(p, PathFlavor::Windows) is Ok <==> {
            let q = text::replace_char(p, '\\', '/');
            &&& !environment_path::in_windows_namespace(p)
            &&& {
                ||| environment_path::is_drive_path(q)
                ||| environment_path::has_unc_root(q) && environment_path::is_unc(q)
                ||| seq!['/', '/', '/'].is_prefix_of(q) && environment_path::is_unc(q)
                    && environment_path::is_drive_path(
                    environment_path::normalize(q, PathNormalization::InferWindowsRoots),
                )
            }
        },
{
    let infer = PathNormalization::InferWindowsRoots;
    let q = text::replace_char(p, '\\', '/');
    let two = seq!['/', '/'];
    let three = seq!['/', '/', '/'];
    if environment_path::is_drive_path(q) {
        lemma_drive_stays(q);
    } else if environment_path::has_unc_root(q) {
        assert(q.subrange(0, 2) == two);
        if three.is_prefix_of(q) {
            assert(q.subrange(0, 3)[2] == q[2]);
        }
        if environment_path::is_unc(q) {
            lemma_unc_stays(q);
        }
    } else if two.is_prefix_of(q) {
        assert(q.subrange(0, 2)[0] == q[0] && q.subrange(0, 2)[1] == q[1]);
        assert(q.subrange(0, 3) == three);
        let names = environment_path::normal_names(q, infer);
        lemma_normal_names(q, infer);
        lemma_format_shape(q, names, infer);
    } else if three.is_prefix_of(q) {
        assert(q.subrange(0, 3)[0] == q[0] && q.subrange(0, 3)[1] == q[1]);
        assert(q.subrange(0, 2) == two);
    }
}

// ---------------------------------------------------------------------------
// Parent, base name and join
// ---------------------------------------------------------------------------
/// Trailing slashes carry no component.
proof fn lemma_trim_components(p: Seq<char>)
    ensures
        environment_path::components(environment_path::without_trailing_slashes(p))
            == environment_path::components(p),
    decreases p.len(),
{
    if p.len() > 0 && p.last() == '/' {
        lemma_trim_components(p.drop_last());
        assert(p.drop_last().push('/') == p);
        text::lemma_pieces_trail(p.drop_last(), '/');
    }
}

/// The parent of a canonical path, put together with its base name again, is
/// the path; the parent is canonical, and one exists exactly when there is a
/// base name.
pub proof fn law_parent_and_basename(p: Seq<char>)
    requires
        canonical(p),
    ensures
        environment_path::parent_path(p) is Some <==> environment_path::base_name(p) is Some,
        environment_path::parent_path(p) matches Some(q) ==> {
            &&& canonical(q)
            &&& environment_path::join_path(q, environment_path::base_name(p)->0) == Ok::<
                Seq<char>,
                PathFault,
            >(p)
        },
{
    let infer = PathNormalization::InferWindowsRoots;
    lemma_canonical(p);
    let names = environment_path::components(p);
    if names.len() > environment_path::root_depth(p) {
        let init = names.drop_last();
        let b = names.last();
        let q = environment_path::format_path(p, init, infer);
        assert forall|i: int| #![trigger init[i]] 0 <= i < init.len() implies init[i].len() > 0
            && !init[i].contains('/') && init[i] != environment_path::dot() && init[i]
            != environment_path::dot_dot() by {
            assert(init[i] == names[i]);
        }
        assert(b == names[names.len() - 1]);
        lemma_format_shape(p, init, infer);
        lemma_format_shape(p, names, infer);
        lemma_body_ends(names);
        let body = text::join_with(names, seq!['/']);
        let init_body = text::join_with(init, seq!['/']);
        assert(b.contains(b[0]));
        assert(!b.contains('\0')) by {
            lemma_name_in_path(p, names.len() - 1);
        }
        // The parent without trailing slashes, a slash, and the name.
        let bare = environment_path::without_trailing_slashes(q);
        if init.len() == 0 {
            assert(init_body == Seq::<char>::empty());
            assert(!environment_path::has_unc_root(p));
            assert(q == seq!['/']);
            text::lemma_trim_end_at(q, |c: char| c == '/', 0);
            assert(bare == Seq::<char>::empty());
            assert(names == seq![b]);
            assert(body == b);
        } else {
            lemma_body_ends(init);
            if q == (seq!['/'] + init_body).push('/') && !environment_path::has_unc_root(p) {
                text::lemma_trim_end_at(q, |c: char| c == '/', q.len() - 1);
                assert(bare == seq!['/'] + init_body);
            } else {
                assert(q.last() == init_body.last());
                text::lemma_trim_end_at(q, |c: char| c == '/', q.len() as int);
                assert(bare == q);
            }
            assert(body == init_body + seq!['/'] + b);
        }
        assert(p == (if environment_path::has_unc_root(p) {
            seq!['/', '/'] + body
        } else {
            seq!['/'] + body
        })) by {
            if !environment_path::has_unc_root(p) && names.len() == 1
                && environment_path::is_drive_name(names[0]) {
                if p == (seq!['/'] + body).push('/') {
                    assert(p[1] == body[0] && p[2] == body[1] && p[3] == '/');
                    assert(environment_path::is_drive_path(p));
                }
            }
        }
        assert(bare.push('/') + b == p);
        // The parent is canonical.
        assert(environment_path::environment_fault(q) is None) by {
            lemma_parent_fault(p, q, init);
        }
        assert(!environment_path::has_unc_root(p) ==> environment_path::lower_drive(init) == init)
            by {
            if init.len() > 0 && environment_path::is_drive_name(init[0]) {
                assert(init[0] == names[0]);
                assert(environment_path::lower_drive(names)[0] == seq![
                    text::ascii_lower_char(names[0][0]),
                    ':',
                ]);
            }
        }
        lemma_normalize_format(p, init, infer);
    }
}

/// A filesystem root: `/`, a drive such as `/c:/`, or a server and a share.
pub open spec fn is_root(p: Seq<char>) -> bool {
    let names = environment_path::components(p);
    ||| p == seq!['/']
    ||| p.len() == 4 && environment_path::is_drive_path(p)
    ||| names.len() == 2 && p == seq!['/', '/'] + names[0] + seq!['/'] + names[1]
}

/// Exactly the roots have no parent and no base name. A parent has the
/// components of the path without the last, under the same root, and is shorter.
pub proof fn law_roots_have_no_parent(p: Seq<char>)
    requires
        canonical(p),
    ensures
        environment_path::parent_path(p) is None <==> is_root(p),
        environment_path::base_name(p) is None <==> is_root(p),
        environment_path::parent_path(p) matches Some(q) ==> {
            &&& environment_path::components(q) == environment_path::components(p).drop_last()
            &&& environment_path::has_unc_root(q) == environment_path::has_unc_root(p)
            &&& environment_path::root_depth(q) == environment_path::root_depth(p)
            &&& q.len() < p.len()
        },
{
    let infer = PathNormalization::InferWindowsRoots;
    lemma_canonical(p);
    let names = environment_path::components(p);
    let body = text::join_with(names, seq!['/']);
    lemma_format_shape(p, names, infer);
    if names.len() > 0 {
        lemma_body_ends(names);
    }
    if environment_path::is_drive_path(p) {
        lemma_drive_components(p);
        assert(names[0] == seq![p[1], ':']);
    }
    if environment_path::has_unc_root(p) {
        assert(p == seq!['/', '/'] + body);
        if names.len() == 2 {
            assert(text::join_with(names.drop_last(), seq!['/']) == names[0]);
            assert(body == names[0] + seq!['/'] + names[1]);
            assert(p == seq!['/', '/'] + names[0] + seq!['/'] + names[1]);
        }
    } else if names.len() == 0 {
        assert(p == seq!['/']);
    } else if names.len() == 1 {
        assert(body == names[0]);
        assert(p.len() >= 2);
    } else {
        assert(p == seq!['/'] + body);
        if names.len() == 2 && p == seq!['/', '/'] + names[0] + seq!['/'] + names[1] {
            assert(p[1] == '/');
        }
        if p.len() == 4 && environment_path::is_drive_path(p) {
            assert(p.skip(3) == seq!['/'] + Seq::<char>::empty());
            text::lemma_single_piece(Seq::<char>::empty(), '/');
            text::lemma_pieces_lead(Seq::<char>::empty(), '/');
        }
    }
    if names.len() > environment_path::root_depth(p) {
        let init = names.drop_last();
        assert forall|i: int| #![trigger init[i]] 0 <= i < init.len() implies init[i].len() > 0
            && !init[i].contains('/') && init[i] != environment_path::dot() && init[i]
            != environment_path::dot_dot() by {
            assert(init[i] == names[i]);
        }
        lemma_format_shape(p, init, infer);
        let q = environment_path::format_path(p, init, infer);
        let init_body = text::join_with(init, seq!['/']);
        let last = names.last();
        assert(last == names[names.len() - 1]);
        if init.len() > 0 {
            lemma_body_ends(init);
            assert(body == init_body + seq!['/'] + last);
            assert(init[0] == names[0]);
        } else {
            assert(init_body == Seq::<char>::empty());
        }
        if environment_path::has_drive_head(q) && init.len() > 0 {
            assert(environment_path::is_drive_path(p)) by {
                assert(p == seq!['/'] + body);
                assert(p[1] == body[0] && p[2] == body[1] && p[3] == body[2]);
            }
        }
        if environment_path::is_drive_path(p) {
            assert(init.len() > 0);
            assert(environment_path::is_drive_name(init[0]));
            if init.len() > 1 {
                assert(q[1] == init_body[0] && q[2] == init_body[1] && q[3] == init_body[2]);
            } else {
                assert(q == (seq!['/'] + init_body).push('/'));
                assert(q[3] == '/');
            }
        }
    }
}

/// The characters of a name are characters of the path.
proof fn lemma_name_in_path(p: Seq<char>, i: int)
    requires
        0 <= i < environment_path::components(p).len(),
        !p.contains('\0'),
    ensures
        !environment_path::components(p)[i].contains('\0'),
{
    lemma_split_free_of(p, '/', '\0');
    lemma_non_empty_free_of(text::split_on(p, '/'), '\0');
}

proof fn lemma_parent_fault(p: Seq<char>, q: Seq<char>, init: Seq<Seq<char>>)
    requires
        canonical(p),
        environment_path::components(p).len() > environment_path::root_depth(p),
        init == environment_path::components(p).drop_last(),
        clean(init),
        q == environment_path::format_path(p, init, PathNormalization::InferWindowsRoots),
    ensures
        environment_path::environment_fault(q) is None,
{
    let infer = PathNormalization::InferWindowsRoots;
    lemma_canonical(p);
    let names = environment_path::components(p);
    lemma_format_shape(p, init, infer);
    lemma_split_free_of(p, '/', '\0');
    lemma_non_empty_free_of(text::split_on(p, '/'), '\0');
    assert forall|i: int| 0 <= i < init.len() implies !(#[trigger] init[i]).contains('\0') by {
        assert(init[i] == names[i]);
    }
    lemma_format_free_of(p, init, infer, '\0');
    let body = text::join_with(names, seq!['/']);
    let init_body = text::join_with(init, seq!['/']);
    assert(environment_path::has_unc_root(q) == environment_path::has_unc_root(p));
    if environment_path::has_unc_root(p) {
        assert(init.len() >= 2);
        assert(init[0] == names[0] && init[1] == names[1]);
    }
    assert(!environment_path::in_windows_namespace(q)) by {
        if environment_path::in_windows_namespace(q) {
            let slashed = text::replace_char(q, '\\', '/');
            assert(slashed.len() >= 4);
            assert(slashed.subrange(0, 4)[0] == slashed[0] && slashed.subrange(0, 4)[1]
                == slashed[1] && slashed.subrange(0, 4)[2] == slashed[2] && slashed.subrange(
                0,
                4,
            )[3] == slashed[3]);
            if init.len() == 0 {
                assert(init_body == Seq::<char>::empty());
            } else {
                lemma_body_ends(init);
                assert(names.len() > 1);
                assert(body == init_body + seq!['/'] + names.last());
                if !environment_path::has_unc_root(p) && q == (seq!['/'] + init_body).push('/') {
                    assert(q == seq!['/', init[0][0], init[0][1], '/']);
                } else {
                    assert(q.is_prefix_of(p)) by {
                        assert(p.subrange(0, q.len() as int) == q);
                    }
                    let whole = text::replace_char(p, '\\', '/');
                    assert(whole.subrange(0, 4) == slashed.subrange(0, 4)) by {
                        assert forall|k: int| 0 <= k < 4 implies whole[k] == slashed[k] by {
                            assert(p.subrange(0, q.len() as int)[k] == p[k]);
                        }
                    }
                    assert(environment_path::in_windows_namespace(p));
                }
            }
        }
    }
}

/// Joining onto a drive or UNC path never leaves its root, however many `..`
/// the relative path has.
pub proof fn law_join_keeps_the_root(p: Seq<char>, relative: Seq<char>, q: Seq<char>)
    requires
        canonical(p),
        environment_path::root_depth(p) > 0,
        environment_path::join_path(p, relative) == Ok::<Seq<char>, PathFault>(q),
    ensures
        environment_path::root_depth(q) == environment_path::root_depth(p),
        environment_path::has_unc_root(q) == environment_path::has_unc_root(p),
        environment_path::components(q).len() >= environment_path::root_depth(p),
        environment_path::components(q).take(environment_path::root_depth(p) as int)
            == environment_path::components(p).take(environment_path::root_depth(p) as int),
{
    lemma_canonical(p);
    let names = environment_path::components(p);
    let depth = environment_path::root_depth(p);
    if environment_path::is_drive_path(p) {
        lemma_drive_components(p);
        assert(names[0] == seq![p[1], ':']);
    }
    if relative.len() > 0 {
        let bare = environment_path::without_trailing_slashes(p);
        let whole = bare.push('/') + relative;
        assert(whole == bare + seq!['/'] + relative);
        text::lemma_pieces_concat(bare, relative, '/');
        lemma_trim_components(p);
        let all = environment_path::components(whole);
        assert(all == names + environment_path::components(relative));
        if environment_path::has_unc_root(p) {
            lemma_body_ends(names);
            let body = text::join_with(names, seq!['/']);
            assert(p == seq!['/', '/'] + body);
            assert(p.last() == body.last());
            text::lemma_trim_end_at(p, |c: char| c == '/', p.len() as int);
            assert(bare == p);
            assert(p[2] == body[0]);
            assert(whole[0] == '/' && whole[1] == '/' && whole[2] == p[2]);
            assert(environment_path::has_unc_root(whole));
            assert(all[0] == names[0] && all[1] == names[1]);
            lemma_unc_stays(whole);
            assert(all.take(2) == names.take(2));
        } else {
            lemma_drive_trim(p);
            assert(whole[0] == '/' && whole[1] == p[1] && whole[2] == ':' && whole[3] == '/');
            lemma_drive_stays(whole);
            lemma_lower_letter(p[1]);
            assert(environment_path::components(q).take(1) == names.take(1)) by {
                assert(names[0] == seq![p[1], ':']);
                assert(environment_path::components(q)[0] == seq![q[1], ':']);
            }
        }
    }
}

proof fn lemma_drive_trim(p: Seq<char>)
    requires
        environment_path::is_drive_path(p),
    ensures
        ({
            let bare = environment_path::without_trailing_slashes(p);
            &&& bare.len() >= 3
            &&& bare[0] == p[0] && bare[1] == p[1] && bare[2] == p[2]
            &&& bare.len() >= 4 ==> bare[3] == '/'
        }),
{
    lemma_trim_end_prefix(p, 3);
}

proof fn lemma_trim_end_prefix(p: Seq<char>, n: int)
    requires
        0 < n <= p.len(),
        p[n - 1] != '/',
    ensures
        environment_path::without_trailing_slashes(p).len() >= n,
        environment_path::without_trailing_slashes(p).is_prefix_of(p),
        forall|k: int|
            0 <= k < environment_path::without_trailing_slashes(p).len()
                ==> environment_path::without_trailing_slashes(p)[k] == p[k],
    decreases p.len(),
{
    if p.last() == '/' {
        assert(p.last() == p[p.len() - 1]);
        assert(p.drop_last()[n - 1] == p[n - 1]);
        lemma_trim_end_prefix(p.drop_last(), n);
        let t = environment_path::without_trailing_slashes(p.drop_last());
        assert(t == p.subrange(0, t.len() as int));
    } else {
        assert(p.subrange(0, p.len() as int) == p);
    }
}

/// A normalized POSIX path is a root and its names.
pub proof fn lemma_posix_names(p: Seq<char>)
    requires
        environment_path::posix_path(p) == Ok::<Seq<char>, PathFault>(p),
    ensures
        clean(environment_path::components(p)),
        !environment_path::has_unc_root(p) ==> p == seq!['/'] + text::join_with(
            environment_path::components(p),
            seq!['/'],
        ),
{
    let posix = PathNormalization::Posix;
    lemma_normal_names(p, posix);
    lemma_format_shape(p, environment_path::normal_names(p, posix), posix);
}

// ---------------------------------------------------------------------------
// Joining twice
// ---------------------------------------------------------------------------
/// Relative paths whose characters mean the same on every system.
pub open spec fn is_plain_relative(b: Seq<char>) -> bool {
    &&& b.len() > 0 && b[0] != '/'
    &&& !b.contains('\\') && !b.contains('\0') && !b.contains(':')
}

/// Where joining onto `p` puts the relative path.
spec fn stem(p: Seq<char>) -> Seq<char> {
    environment_path::without_trailing_slashes(p).push('/')
}

/// Resolving may be done in two steps.
proof fn lemma_resolve_steps(x: Seq<Seq<char>>, y: Seq<Seq<char>>, depth: nat)
    requires
        text::all_pieces(x, '/'),
    ensures
        environment_path::resolve(environment_path::resolve(x, depth) + y, depth)
            == environment_path::resolve(x + y, depth),
    decreases y.len(),
{
    let once = environment_path::resolve(x, depth);
    if y.len() == 0 {
        lemma_resolve_clean(x, depth);
        lemma_resolve_fixed(once, depth);
        assert(x + y == x);
        assert(once + y == once);
    } else {
        lemma_resolve_steps(x, y.drop_last(), depth);
        assert((x + y).drop_last() == x + y.drop_last());
        assert((once + y).drop_last() == once + y.drop_last());
        assert((x + y).last() == y.last());
        assert((once + y).last() == y.last());
    }
}

/// What stands first after resolving is the first of the kept names or comes
/// from what was appended.
proof fn lemma_resolve_first(x: Seq<Seq<char>>, y: Seq<Seq<char>>, depth: nat)
    requires
        clean(x),
    ensures
        ({
            let r = environment_path::resolve(x + y, depth);
            r.len() > 0 ==> (x.len() > 0 && r[0] == x[0]) || y.contains(r[0])
        }),
    decreases y.len(),
{
    let r = environment_path::resolve(x + y, depth);
    if y.len() == 0 {
        lemma_resolve_fixed(x, depth);
        assert(x + y == x);
    } else {
        let init = y.drop_last();
        lemma_resolve_first(x, init, depth);
        assert((x + y).drop_last() == x + init);
        assert((x + y).last() == y.last());
        let before = environment_path::resolve(x + init, depth);
        if r.len() > 0 {
            if before.len() > 0 {
                assert(r[0] == before[0]);
                if init.contains(r[0]) {
                    let k = init.index_of(r[0]);
                    assert(y[k] == r[0]);
                }
            } else {
                assert(r[0] == y[y.len() - 1]);
            }
        }
    }
}

/// A canonical path with a slash behind it.
proof fn lemma_stem(p: Seq<char>)
    requires
        canonical(p),
    ensures
        ({
            let s = stem(p);
            let names = environment_path::components(p);
            &&& s.len() >= 1 && s[0] == '/'
            &&& environment_path::components(environment_path::without_trailing_slashes(p))
                == names
            &&& names.len() == 0 <==> s.len() == 1
            &&& names.len() > 0 ==> s.len() >= 3
            &&& environment_path::has_unc_root(p) == environment_path::has_unc_root(s)
            &&& environment_path::is_drive_path(s) <==> !environment_path::has_unc_root(p)
                && names.len() > 0 && environment_path::is_drive_name(names[0])
            &&& environment_path::has_unc_root(p) ==> s == p.push('/')
            &&& forall|k: int| 0 <= k < s.len() && s[k] != '/' ==> p.contains(s[k])
        }),
{
    let infer = PathNormalization::InferWindowsRoots;
    lemma_canonical(p);
    lemma_trim_components(p);
    let names = environment_path::components(p);
    let body = text::join_with(names, seq!['/']);
    let s = stem(p);
    lemma_format_shape(p, names, infer);
    if names.len() == 0 {
        assert(body == Seq::<char>::empty());
        assert(p == seq!['/']) by {
            if environment_path::has_unc_root(p) {
                assert(environment_path::is_unc(p));
            }
        }
        text::lemma_trim_end_at(p, |c: char| c == '/', 0);
    } else {
        lemma_body_ends(names);
        let head = if environment_path::has_unc_root(p) {
            seq!['/', '/']
        } else {
            seq!['/']
        };
        let bare = head + body;
        assert(bare.last() == body.last());
        if p == bare {
            text::lemma_trim_end_at(p, |c: char| c == '/', p.len() as int);
        } else {
            text::lemma_trim_end_at(p, |c: char| c == '/', p.len() - 1);
        }
        assert(environment_path::without_trailing_slashes(p) == bare);
        assert(s == bare.push('/'));
        assert forall|k: int| 0 <= k < s.len() && s[k] != '/' implies p.contains(s[k]) by {
            assert(p[k] == s[k]);
        }
        if !environment_path::has_unc_root(p) {
            assert(s[1] == body[0]);
            let n = names[0].len();
            if names.len() == 1 {
                assert(body == names[0]);
                assert(s[1 + n as int] == '/');
            } else {
                assert(s[1 + n as int] == body[n as int]);
            }
            assert forall|k: int| 0 <= k < n implies s[k + 1] == #[trigger] names[0][k] by {
                assert(s[k + 1] == body[k]);
            }
            if environment_path::is_drive_name(names[0]) {
                assert(s[1] == names[0][0] && s[2] == names[0][1] && s[3] == '/');
            }
            if environment_path::is_drive_path(s) {
                if n == 1 {
                    assert(s[2] == '/');
                } else if n >= 3 {
                    assert(s[3] == names[0][2]);
                    assert(names[0].contains(names[0][2]));
                }
                assert(s[1] == names[0][0] && s[2] == names[0][1]);
            }
        } else {
            assert(s[0] == '/' && s[1] == '/' && s[2] == body[0]);
        }
    }
}

/// A normal form is outside the device namespaces where the path was.
proof fn lemma_normal_namespace(q: Seq<char>)
    requires
        environment_path::has_unc_root(q),
        environment_path::is_unc(q),
        !q.contains('\\'),
        !environment_path::in_windows_namespace(q),
    ensures
        !environment_path::in_windows_namespace(
            environment_path::normalize(q, PathNormalization::InferWindowsRoots),
        ),
{
    let infer = PathNormalization::InferWindowsRoots;
    let p = environment_path::normalize(q, infer);
    lemma_unc_stays(q);
    lemma_normalize_free(q, infer, '\\');
    lemma_replace_absent(p, '\\', '/');
    lemma_replace_absent(q, '\\', '/');
    let names = environment_path::components(p);
    if q.len() == 2 {
        lemma_unc_bare(q);
    }
    lemma_unc_first_name(q);
    let first = environment_path::components(q)[0];
    assert(first == environment_path::components(q).take(2)[0]);
    assert(names[0] == names.take(2)[0]);
    lemma_body_ends(names);
    let body = text::join_with(names, seq!['/']);
    let verbatim = seq!['/', '/', '?', '/'];
    let device = seq!['/', '/', '.', '/'];
    if verbatim.is_prefix_of(p) || device.is_prefix_of(p) {
        assert(p.subrange(0, 4)[2] == p[2] && p.subrange(0, 4)[3] == p[3]);
        assert(p[2] == body[0] && p[3] == body[1]);
        if names[0].len() >= 2 {
            assert(body[1] == names[0][1]);
            assert(names[0].contains(names[0][1]));
        }
        assert(names[0].len() == 1);
        assert(names[0] == seq![p[2]]);
        assert(q.subrange(2, 3)[0] == q[2]);
        assert(q[3] == '/');
        if p[2] == '?' {
            assert(q.subrange(0, 4) == verbatim);
        } else {
            assert(q.subrange(0, 4) == device);
        }
    }
}

/// Appending a plain relative path to a stem keeps the root.
proof fn lemma_stem_root(a: Seq<char>, b: Seq<char>)
    requires
        canonical(a),
        is_plain_relative(b),
    ensures
        ({
            let whole = stem(a) + b;
            &&& whole[0] == '/'
            &&& environment_path::components(whole) == environment_path::components(a)
                + environment_path::components(b)
            &&& environment_path::has_unc_root(whole) == environment_path::has_unc_root(a)
            &&& environment_path::root_depth(whole) == environment_path::root_depth(stem(a))
            &&& environment_path::is_drive_path(whole) == environment_path::is_drive_path(stem(a))
        }),
{
    let s = stem(a);
    let whole = s + b;
    lemma_stem(a);
    let bare = environment_path::without_trailing_slashes(a);
    assert(whole == bare + seq!['/'] + b);
    text::lemma_pieces_concat(bare, b, '/');
    assert(whole[0] == '/');
    if s.len() == 1 {
        assert(whole[1] == b[0]);
        if environment_path::is_drive_path(whole) {
            assert(whole[2] == b[1]);
            assert(b.contains(b[1]));
        }
    } else {
        assert(whole[1] == s[1] && whole[2] == s[2]);
        if s.len() == 3 {
            assert(s[2] == '/');
        } else {
            assert(whole[3] == s[3]);
        }
    }
}

/// The names of a joined path are in normal form.
proof fn lemma_join_names(a: Seq<char>, b: Seq<char>)
    requires
        canonical(a),
        is_plain_relative(b),
    ensures
        ({
            let depth = environment_path::root_depth(stem(a));
            let names = environment_path::resolve(
                environment_path::components(a) + environment_path::components(b),
                depth,
            );
            &&& clean(names)
            &&& environment_path::normal_names(
                stem(a) + b,
                PathNormalization::InferWindowsRoots,
            ) == names
            &&& !environment_path::has_unc_root(a) ==> (environment_path::is_drive_path(stem(a))
                <==> names.len() > 0 && environment_path::is_drive_name(names[0]))
        }),
{
    let infer = PathNormalization::InferWindowsRoots;
    let depth = environment_path::root_depth(stem(a));
    let x = environment_path::components(a);
    let y = environment_path::components(b);
    let names = environment_path::resolve(x + y, depth);
    lemma_canonical(a);
    lemma_stem(a);
    lemma_stem_root(a, b);
    text::lemma_pieces(stem(a) + b, '/');
    lemma_resolve_clean(x + y, depth);
    lemma_resolve_first(x, y, depth);
    lemma_split_free_of(b, '/', ':');
    lemma_non_empty_free_of(text::split_on(b, '/'), ':');
    if !environment_path::has_unc_root(a) {
        if names.len() > 0 && environment_path::is_drive_name(names[0]) {
            assert(names[0].contains(names[0][1]));
            assert(names[0] == x[0]);
            assert(environment_path::lower_drive(x)[0] == seq![
                text::ascii_lower_char(x[0][0]),
                ':',
            ]);
            assert(environment_path::lower_drive(names) == names);
        }
        if environment_path::is_drive_path(stem(a)) {
            assert((x + y)[0] == x[0]);
            assert(x[0][1] == ':');
            lemma_resolve_root(x + y, 1);
            assert(names[0] == names.take(1)[0]);
            assert((x + y).take(1)[0] == x[0]);
        }
    }
}

/// Nothing is wrong with a joined path.
proof fn lemma_join_faults(a: Seq<char>, b: Seq<char>, ab: Seq<char>)
    requires
        canonical(a),
        !a.contains('\\'),
        is_plain_relative(b),
        ab == environment_path::normalize(stem(a) + b, PathNormalization::InferWindowsRoots),
    ensures
        environment_path::environment_fault(stem(a) + b) is None,
        environment_path::environment_fault(ab) is None,
        !ab.contains('\\'),
{
    let infer = PathNormalization::InferWindowsRoots;
    let s = stem(a);
    let whole = s + b;
    let x = environment_path::components(a);
    let y = environment_path::components(b);
    lemma_canonical(a);
    lemma_stem(a);
    lemma_stem_root(a, b);
    assert forall|k: int| 0 <= k < whole.len() implies whole[k] != '\\' && whole[k] != '\0' by {
        if k < s.len() {
            if s[k] != '/' {
                assert(a.contains(s[k]));
            }
        } else {
            assert(b.contains(b[k - s.len()]));
        }
    }
    lemma_normalize_free(whole, infer, '\\');
    lemma_normalize_free(whole, infer, '\0');
    lemma_replace_absent(whole, '\\', '/');
    lemma_replace_absent(ab, '\\', '/');
    lemma_replace_absent(a, '\\', '/');
    law_normalization_is_tidy(whole, infer);
    if environment_path::has_unc_root(a) {
        assert((x + y)[0] == x[0] && (x + y)[1] == x[1]);
        assert(environment_path::is_unc(whole));
        assert(!environment_path::in_windows_namespace(whole)) by {
            let body = text::join_with(x, seq!['/']);
            lemma_body_ends(x);
            assert(a == seq!['/', '/'] + body);
            assert(body.len() >= 2);
            if whole.subrange(0, 4) == seq!['/', '/', '?', '/'] || whole.subrange(0, 4) == seq![
                '/',
                '/',
                '.',
                '/',
            ] {
                assert(whole.subrange(0, 4) == a.subrange(0, 4));
            }
        }
        lemma_normal_namespace(whole);
        lemma_unc_stays(whole);
    } else {
        lemma_join_names(a, b);
        lemma_format_shape(whole, environment_path::normal_names(whole, infer), infer);
        lemma_no_namespace(whole);
        lemma_no_namespace(ab);
    }
}

proof fn lemma_no_namespace(p: Seq<char>)
    requires
        !p.contains('\\'),
        !environment_path::has_unc_root(p),
    ensures
        !environment_path::in_windows_namespace(p),
{
    lemma_replace_absent(p, '\\', '/');
    if p.len() >= 4 {
        assert(p.subrange(0, 4)[0] == p[0] && p.subrange(0, 4)[1] == p[1] && p.subrange(0, 4)[2]
            == p[2]);
    }
}

/// Joining a plain relative path onto a canonical path without backslashes
/// succeeds, and its components are resolved within the root.
proof fn lemma_join(a: Seq<char>, b: Seq<char>, ab: Seq<char>)
    requires
        canonical(a),
        !a.contains('\\'),
        is_plain_relative(b),
        ab == environment_path::normalize(stem(a) + b, PathNormalization::InferWindowsRoots),
    ensures
        environment_path::join_path(a, b) == Ok::<Seq<char>, PathFault>(ab),
        canonical(ab),
        !ab.contains('\\'),
        environment_path::has_unc_root(ab) == environment_path::has_unc_root(a),
        environment_path::root_depth(stem(ab)) == environment_path::root_depth(stem(a)),
        environment_path::components(ab) == environment_path::resolve(
            environment_path::components(a) + environment_path::components(b),
            environment_path::root_depth(stem(a)),
        ),
        ab == environment_path::format_path(
            stem(a),
            environment_path::components(ab),
            PathNormalization::InferWindowsRoots,
        ),
{
    let infer = PathNormalization::InferWindowsRoots;
    let whole = stem(a) + b;
    let names = environment_path::normal_names(whole, infer);
    lemma_stem_root(a, b);
    lemma_join_names(a, b);
    lemma_join_faults(a, b, ab);
    lemma_format_shape(whole, names, infer);
    law_new_is_idempotent(whole, ab);
    lemma_stem(a);
    lemma_stem(ab);
    assert(ab == environment_path::format_path(stem(a), names, infer));
}

/// Joining is associative: two plain relative paths may be joined one after the
/// other or at once, and either way the result is a path.
pub proof fn law_join_is_associative(a: Seq<char>, b: Seq<char>, c: Seq<char>)
    requires
        canonical(a),
        !a.contains('\\'),
        is_plain_relative(b),
        is_plain_relative(c),
    ensures
        environment_path::join_path(a, b) matches Ok(ab) && environment_path::join_path(ab, c)
            is Ok && environment_path::join_path(ab, c) == environment_path::join_path(
            a,
            b + seq!['/'] + c,
        ),
{
    let infer = PathNormalization::InferWindowsRoots;
    let bc = b + seq!['/'] + c;
    let ab = environment_path::normalize(stem(a) + b, infer);
    let abc = environment_path::normalize(stem(ab) + c, infer);
    let at_once = environment_path::normalize(stem(a) + bc, infer);
    assert(bc[0] == b[0]);
    assert forall|k: int| 0 <= k < bc.len() implies bc[k] != '\\' && bc[k] != '\0' && bc[k] != ':'
        by {
        if k < b.len() {
            assert(b.contains(b[k]));
        } else if k > b.len() {
            assert(c.contains(c[k - b.len() - 1]));
        }
    }
    lemma_join(a, b, ab);
    lemma_join(ab, c, abc);
    lemma_join(a, bc, at_once);
    let x = environment_path::components(a);
    let y = environment_path::components(b);
    let z = environment_path::components(c);
    let depth = environment_path::root_depth(stem(a));
    text::lemma_pieces_concat(b, c, '/');
    lemma_canonical(a);
    text::lemma_pieces(b, '/');
    assert forall|i: int| #![trigger (x + y)[i]] 0 <= i < (x + y).len() implies (x + y)[i].len() > 0
        && !(x + y)[i].contains('/') by {
        if i < x.len() {
            assert((x + y)[i] == x[i]);
        } else {
            assert((x + y)[i] == y[i - x.len()]);
        }
    }
    lemma_resolve_steps(x + y, z, depth);
    assert((x + y) + z == x + (y + z));
    lemma_stem(a);
    lemma_stem(ab);
    assert(stem(a).last() == '/' && stem(ab).last() == '/');
    assert(abc == at_once);
}

// ---------------------------------------------------------------------------
// Going down and up
// ---------------------------------------------------------------------------
/// A name that means the same on every system.
pub open spec fn is_plain_name(name: Seq<char>) -> bool {
    &&& is_plain_relative(name)
    &&& !name.contains('/')
    &&& name != seq!['.'] && name != seq!['.', '.']
}

/// A drive without its slash, such as `/c:`.
pub open spec fn is_bare_drive(p: Seq<char>) -> bool {
    p.len() == 3 && environment_path::has_drive_head(p)
}

/// A canonical path is formatted from its stem as well as from itself.
proof fn lemma_from_stem(a: Seq<char>)
    requires
        canonical(a),
        !is_bare_drive(a),
    ensures
        environment_path::format_path(
            stem(a),
            environment_path::components(a),
            PathNormalization::InferWindowsRoots,
        ) == a,
        environment_path::root_depth(stem(a)) == environment_path::root_depth(a),
        environment_path::root_depth(a) <= environment_path::components(a).len(),
{
    let infer = PathNormalization::InferWindowsRoots;
    let x = environment_path::components(a);
    lemma_canonical(a);
    lemma_stem(a);
    lemma_format_shape(a, x, infer);
    assert(stem(a).last() == '/');
    if environment_path::has_drive_head(a) {
        assert(environment_path::is_drive_path(a));
    }
    if !environment_path::has_unc_root(a) && x.len() == 1 && environment_path::is_drive_name(x[0]) {
        assert(environment_path::has_drive_head(a));
    }
}

proof fn lemma_name_components(name: Seq<char>)
    requires
        is_plain_name(name),
    ensures
        environment_path::components(name) == seq![name],
        environment_path::components(name + seq!['/', '.', '.']) == seq![name, seq!['.', '.']],
{
    text::lemma_single_piece(name, '/');
    let up = seq!['.', '.'];
    text::lemma_single_piece(up, '/');
    text::lemma_pieces_concat(name, up, '/');
    assert(name + seq!['/', '.', '.'] =~= name + seq!['/'] + up);
    assert(seq![name] + seq![up] =~= seq![name, up]);
}

proof fn lemma_resolve_push(x: Seq<Seq<char>>, name: Seq<char>, depth: nat)
    requires
        clean(x),
    ensures
        name.len() > 0 && name != environment_path::dot() && name != environment_path::dot_dot()
            ==> environment_path::resolve(x + seq![name], depth) == x.push(name),
        environment_path::resolve(x + seq![environment_path::dot()], depth) == x,
        environment_path::resolve(x + seq![environment_path::dot_dot()], depth) == (if x.len()
            > depth {
            x.drop_last()
        } else {
            x
        }),
        name.len() > 0 && name != environment_path::dot() && name != environment_path::dot_dot()
            && x.len() >= depth ==> environment_path::resolve(
            x + seq![name, environment_path::dot_dot()],
            depth,
        ) == x,
{
    lemma_resolve_fixed(x, depth);
    let one = x + seq![name];
    assert(one.drop_last() =~= x && one.last() == name);
    let two = x + seq![name, environment_path::dot_dot()];
    assert(two.drop_last() =~= one && two.last() == environment_path::dot_dot());
    let dot = x + seq![environment_path::dot()];
    assert(dot.drop_last() =~= x && dot.last() == environment_path::dot());
    let up = x + seq![environment_path::dot_dot()];
    assert(up.drop_last() =~= x && up.last() == environment_path::dot_dot());
    assert(x.push(name).drop_last() =~= x);
    reveal_with_fuel(environment_path::resolve, 2);
}

proof fn lemma_join_down(a: Seq<char>, name: Seq<char>)
    requires
        canonical(a),
        !a.contains('\\'),
        !is_bare_drive(a),
        is_plain_name(name),
    ensures
        environment_path::join_path(a, name) matches Ok(b) && environment_path::base_name(b)
            == Some(name) && environment_path::parent_path(b) == Some(a),
{
    let infer = PathNormalization::InferWindowsRoots;
    let x = environment_path::components(a);
    lemma_canonical(a);
    lemma_resolve_push(x, name, environment_path::root_depth(stem(a)));
    lemma_name_components(name);
    let down = environment_path::normalize(stem(a) + name, infer);
    lemma_join(a, name, down);
    lemma_parent_of_join(a, name, down);
}

/// Joining what leaves the components as they are.
proof fn lemma_join_stays(a: Seq<char>, b: Seq<char>)
    requires
        canonical(a),
        !a.contains('\\'),
        !is_bare_drive(a),
        is_plain_relative(b),
        environment_path::resolve(
            environment_path::components(a) + environment_path::components(b),
            environment_path::root_depth(stem(a)),
        ) == environment_path::components(a),
    ensures
        environment_path::join_path(a, b) == Ok::<Seq<char>, PathFault>(a),
{
    let ab = environment_path::normalize(stem(a) + b, PathNormalization::InferWindowsRoots);
    lemma_join(a, b, ab);
    lemma_from_stem(a);
}

proof fn lemma_join_round(a: Seq<char>, name: Seq<char>)
    requires
        canonical(a),
        !a.contains('\\'),
        !is_bare_drive(a),
        is_plain_name(name),
    ensures
        environment_path::join_path(a, name + seq!['/', '.', '.']) == Ok::<Seq<char>, PathFault>(a),
        environment_path::join_path(a, seq!['.']) == Ok::<Seq<char>, PathFault>(a),
{
    let x = environment_path::components(a);
    let round = name + seq!['/', '.', '.'];
    lemma_canonical(a);
    lemma_from_stem(a);
    lemma_resolve_push(x, name, environment_path::root_depth(stem(a)));
    lemma_name_components(name);
    assert(is_plain_relative(round)) by {
        assert(round[0] == name[0]);
        assert forall|k: int| 0 <= k < round.len() implies round[k] != '\\' && round[k] != '\0'
            && round[k] != ':' by {
            if k < name.len() {
                assert(name.contains(name[k]));
            }
        }
    }
    lemma_join_stays(a, round);
    let dot = seq!['.'];
    text::lemma_single_piece(dot, '/');
    assert(is_plain_relative(dot));
    lemma_join_stays(a, dot);
}

proof fn lemma_join_up(a: Seq<char>)
    requires
        canonical(a),
        !a.contains('\\'),
        !is_bare_drive(a),
    ensures
        environment_path::join_path(a, seq!['.', '.']) == Ok::<Seq<char>, PathFault>(
            match environment_path::parent_path(a) {
                Some(q) => q,
                None => a,
            },
        ),
{
    let infer = PathNormalization::InferWindowsRoots;
    let x = environment_path::components(a);
    let up = seq!['.', '.'];
    lemma_canonical(a);
    lemma_from_stem(a);
    lemma_resolve_push(x, up, environment_path::root_depth(stem(a)));
    text::lemma_single_piece(up, '/');
    assert(is_plain_relative(up));
    if environment_path::parent_path(a) is Some {
        lemma_join(a, up, environment_path::normalize(stem(a) + up, infer));
        lemma_up(a);
    } else {
        lemma_join_stays(a, up);
    }
}

/// Joining a name goes down: the result has the name as its base name and the path
/// as its parent. `..` goes up again, so a name and `..` together change nothing, and
/// neither does `.`. On a path of its own `..` gives the parent, or the root again.
pub proof fn law_names_go_down_and_dots_go_up(a: Seq<char>, name: Seq<char>)
    requires
        canonical(a),
        !a.contains('\\'),
        !is_bare_drive(a),
        is_plain_name(name),
    ensures
        environment_path::join_path(a, name) matches Ok(b) && environment_path::base_name(b)
            == Some(name) && environment_path::parent_path(b) == Some(a),
        environment_path::join_path(a, name + seq!['/', '.', '.']) == Ok::<Seq<char>, PathFault>(a),
        environment_path::join_path(a, seq!['.']) == Ok::<Seq<char>, PathFault>(a),
        environment_path::join_path(a, seq!['.', '.']) == Ok::<Seq<char>, PathFault>(
            match environment_path::parent_path(a) {
                Some(q) => q,
                None => a,
            },
        ),
{
    lemma_join_down(a, name);
    lemma_join_round(a, name);
    lemma_join_up(a);
}

proof fn lemma_up(a: Seq<char>)
    requires
        canonical(a),
        !is_bare_drive(a),
        environment_path::parent_path(a) is Some,
    ensures
        environment_path::format_path(
            stem(a),
            environment_path::components(a).drop_last(),
            PathNormalization::InferWindowsRoots,
        ) == environment_path::parent_path(a)->0,
{
    let infer = PathNormalization::InferWindowsRoots;
    let x = environment_path::components(a);
    let init = x.drop_last();
    lemma_canonical(a);
    lemma_stem(a);
    lemma_format_shape(a, x, infer);
    assert(stem(a).last() == '/');
    if init.len() == 1 && environment_path::is_drive_name(init[0]) {
        assert(x[0] == init[0]);
        if !environment_path::has_unc_root(a) {
            assert(environment_path::has_drive_head(a));
        }
    }
}

proof fn lemma_parent_of_join(a: Seq<char>, name: Seq<char>, b: Seq<char>)
    requires
        canonical(a),
        canonical(b),
        !is_bare_drive(a),
        is_plain_name(name),
        environment_path::has_unc_root(b) == environment_path::has_unc_root(a),
        environment_path::root_depth(stem(b)) == environment_path::root_depth(stem(a)),
        environment_path::components(b) == environment_path::components(a).push(name),
        b == environment_path::format_path(
            stem(a),
            environment_path::components(b),
            PathNormalization::InferWindowsRoots,
        ),
    ensures
        environment_path::base_name(b) == Some(name),
        environment_path::parent_path(b) == Some(a),
{
    let infer = PathNormalization::InferWindowsRoots;
    let x = environment_path::components(a);
    let y = environment_path::components(b);
    lemma_canonical(a);
    lemma_canonical(b);
    lemma_from_stem(a);
    lemma_stem(a);
    lemma_stem(b);
    lemma_format_shape(b, y, infer);
    assert(y.drop_last() =~= x);
    if x.len() == 0 {
        assert(y[0] == name);
        if environment_path::is_drive_name(name) {
            assert(name.contains(name[1]));
        }
        assert(!is_bare_drive(b)) by {
            if is_bare_drive(b) {
                assert(environment_path::is_drive_name(y[0]));
            }
        }
    } else {
        assert(y[0] == x[0]);
        assert(!is_bare_drive(b)) by {
            if is_bare_drive(b) {
                lemma_drive_components(b);
                assert(b.skip(3) =~= Seq::<char>::empty());
                text::lemma_single_piece(Seq::<char>::empty(), '/');
                assert(y.len() == 1);
            }
        }
    }
    lemma_from_stem(b);
    lemma_up(b);
    assert(environment_path::format_path(stem(b), x, infer) == environment_path::format_path(
        stem(a),
        x,
        infer,
    )) by {
        assert(stem(a).last() == '/' && stem(b).last() == '/');
    }
}

/// POSIX paths go down and up in the same way: a name and `..` behind a path change
/// nothing, nor does `.`, and a name behind a normalized path stays where it is put.
pub proof fn law_posix_names_and_dots(p: Seq<char>, name: Seq<char>)
    requires
        p.len() > 0 && p[0] == '/' && p.last() != '/',
        !p.contains('\0'),
        name.len() > 0 && !name.contains('/') && !name.contains('\0'),
        name != seq!['.'] && name != seq!['.', '.'],
    ensures
        environment_path::posix_path(p + seq!['/'] + name + seq!['/', '.', '.'])
            == environment_path::posix_path(p),
        environment_path::posix_path(p + seq!['/', '.']) == environment_path::posix_path(p),
        environment_path::posix_path(p + seq!['/']) == environment_path::posix_path(p),
        environment_path::posix_path(p) == Ok::<Seq<char>, PathFault>(p)
            ==> environment_path::posix_path(p + seq!['/'] + name) == Ok::<Seq<char>, PathFault>(
            p + seq!['/'] + name,
        ),
{
    let names = environment_path::components(p);
    let up = seq!['.', '.'];
    let dot = seq!['.'];
    let none = Seq::<char>::empty();
    text::lemma_pieces(p, '/');
    text::lemma_single_piece(name, '/');
    text::lemma_single_piece(up, '/');
    text::lemma_single_piece(dot, '/');
    text::lemma_single_piece(none, '/');
    let down = p + seq!['/'] + name;
    let round = down + seq!['/'] + up;
    let stay = p + seq!['/'] + dot;
    let trail = p + seq!['/'] + none;
    text::lemma_pieces_concat(p, name, '/');
    text::lemma_pieces_concat(down, up, '/');
    text::lemma_pieces_concat(p, dot, '/');
    text::lemma_pieces_concat(p, none, '/');
    assert(round =~= p + seq!['/'] + name + seq!['/', '.', '.']);
    assert(stay =~= p + seq!['/', '.']);
    assert(trail =~= p + seq!['/']);
    let x = environment_path::resolve(names, 0);
    lemma_resolve_clean(names, 0);
    lemma_resolve_steps(names, seq![name, up], 0);
    lemma_resolve_steps(names, seq![dot], 0);
    lemma_resolve_steps(names, seq![name], 0);
    lemma_resolve_push(x, name, 0);
    assert(environment_path::components(round) =~= names + seq![name, up]);
    assert(environment_path::components(trail) =~= names);
    assert(p.len() >= 2);
    assert forall|t: Seq<char>| t.len() > p.len() && p == #[trigger] t.take(p.len() as int) && t[
        p.len() as int] == '/' implies environment_path::has_unc_root(t)
        == environment_path::has_unc_root(p) by {
        assert(t[0] == p[0] && t[1] == p[1]);
        if p.len() >= 3 {
            assert(t[2] == p[2]);
        }
    }
    assert(round.take(p.len() as int) =~= p);
    assert(stay.take(p.len() as int) =~= p);
    assert(trail.take(p.len() as int) =~= p);
    assert(down.take(p.len() as int) =~= p);
    assert forall|k: int| 0 <= k < round.len() implies round[k] != '\0' by {
        if k < p.len() {
            assert(p.contains(p[k]));
        } else if p.len() < k < p.len() + 1 + name.len() {
            assert(name.contains(name[k - p.len() - 1]));
        }
    }
    assert forall|k: int| 0 <= k < down.len() implies down[k] != '\0' by {
        assert(down[k] == round[k]);
    }
    assert forall|k: int| 0 <= k < stay.len() implies stay[k] != '\0' by {
        if k < p.len() {
            assert(p.contains(p[k]));
        }
    }
    assert forall|k: int| 0 <= k < trail.len() implies trail[k] != '\0' by {
        if k < p.len() {
            assert(p.contains(p[k]));
        }
    }
    if environment_path::posix_path(p) == Ok::<Seq<char>, PathFault>(p) {
        lemma_posix_names(p);
        lemma_resolve_fixed(names, 0);
        let body = text::join_with(names, seq!['/']);
        assert(names.push(name).drop_last() =~= names);
        assert(names.len() > 0) by {
            if names.len() == 0 {
                assert(p.last() == '/');
            }
        }
        assert(text::join_with(names.push(name), seq!['/']) =~= body + seq!['/'] + name);
        if environment_path::has_unc_root(p) {
            assert(p == seq!['/', '/'] + body);
            assert(seq!['/', '/'] + (body + seq!['/'] + name) =~= down);
        } else {
            assert(seq!['/'] + (body + seq!['/'] + name) =~= down);
        }
    }
}

/// On Windows drives the spelling of separators does not matter.
pub proof fn law_windows_separators(w: Seq<char>)
    requires
        w.len() >= 2 && w[1] == ':',
        environment_path::windows_path(w) is Ok,
    ensures
        environment_path::windows_path(text::replace_char(w, '/', '\\'))
            == environment_path::windows_path(w),
        environment_path::windows_path(text::replace_char(w, '\\', '/'))
            == environment_path::windows_path(w),
{
    let slashes = text::replace_char(w, '\\', '/');
    let backslashes = text::replace_char(w, '/', '\\');
    assert(text::replace_char(slashes, '\\', '/') =~= slashes);
    assert(text::replace_char(backslashes, '\\', '/') =~= slashes);
    assert(w[0] != '\\' && w[0] != '/') by {
        if environment_path::windows_fault(w) is None {
            lemma_windows_two(w);
        }
    }
    assert(slashes[0] == w[0] && slashes[1] == ':' && slashes[2] == '/');
    assert(backslashes[0] == w[0] && backslashes[1] == ':' && backslashes[2] == '\\');
    assert(!slashes.contains('\0') && !backslashes.contains('\0')) by {
        assert forall|k: int| 0 <= k < w.len() implies slashes[k] != '\0' && backslashes[k] != '\0'
            by {
            assert(w.contains(w[k]));
        }
    }
}

} // verus!
