//! Character-level text operations and their mathematical descriptions.
//!
//! Every function of the crate that looks inside a string does so through this
//! module: a string is turned into the sequence of its characters, worked on,
//! and turned back.

use vstd::prelude::*;
use vstd::utf8::*;

verus! {

/// `String::push` appends one character to the end of the string.
pub assume_specification[ String::push ](s: &mut String, c: char)
    ensures
        final(s)@ == old(s)@.push(c),
;

/// The characters of `s`, in order.
pub fn chars_of(s: &str) -> (r: Vec<char>)
    ensures
        r@ == s@,
{
    let mut out: Vec<char> = Vec::new();
    for c in it: s.chars()
        invariant
            it.seq() == s@,
            out@ == s@.take(it.index() as int),
    {
        out.push(c);
    }
    assert(s@.take(s@.len() as int) == s@);
    out
}

/// The string made of `chars`, in order.
pub fn string_of(chars: &[char]) -> (r: String)
    ensures
        r@ == chars@,
{
    let mut out: String = String::new();
    let mut i: usize = 0;
    while i < chars.len()
        invariant
            i <= chars.len(),
            out@ == chars@.take(i as int),
        decreases chars.len() - i,
    {
        out.push(chars[i]);
        assert(chars@.take(i + 1) == chars@.take(i as int).push(chars@[i as int]));
        i += 1;
    }
    assert(chars@.take(chars@.len() as int) == chars@);
    out
}

/// Whether `c` is one of the letters `a` to `z` or `A` to `Z`.
pub open spec fn is_ascii_letter(c: char) -> bool {
    ('a' <= c && c <= 'z') || ('A' <= c && c <= 'Z')
}

/// Whether `c` is one of the digits `0` to `9`.
pub open spec fn is_ascii_digit(c: char) -> bool {
    '0' <= c && c <= '9'
}

/// Whether `c` is a hexadecimal digit.
pub open spec fn is_hex_digit(c: char) -> bool {
    is_ascii_digit(c) || ('a' <= c && c <= 'f') || ('A' <= c && c <= 'F')
}

/// `c` with the letters `A` to `Z` mapped to `a` to `z`.
pub open spec fn ascii_lower_char(c: char) -> char {
    if 'A' <= c && c <= 'Z' {
        (c as u32 + 32) as char
    } else {
        c
    }
}

/// `s` with the letters `A` to `Z` mapped to `a` to `z`.
pub open spec fn ascii_lower(s: Seq<char>) -> Seq<char> {
    s.map_values(|c: char| ascii_lower_char(c))
}

/// Whether `c` has the Unicode property `White_Space`.
pub open spec fn is_space(c: char) -> bool {
    ('\u{9}' <= c && c <= '\u{d}') || c == ' ' || c == '\u{85}' || c == '\u{a0}' || c == '\u{1680}' || (
    '\u{2000}' <= c && c <= '\u{200a}') || c == '\u{2028}' || c == '\u{2029}' || c == '\u{202f}' || c
        == '\u{205f}' || c == '\u{3000}'
}

/// Whether every character of `s` is white space.
pub open spec fn is_blank(s: Seq<char>) -> bool {
    forall|i: int| 0 <= i < s.len() ==> is_space(#[trigger] s[i])
}

/// `s` with every `from` replaced by `to`.
pub open spec fn replace_char(s: Seq<char>, from: char, to: char) -> Seq<char> {
    s.map_values(
        |c: char|
            if c == from {
                to
            } else {
                c
            },
    )
}

/// The pieces of `s` between occurrences of `sep`: one more than `s` has of them.
pub open spec fn split_on(s: Seq<char>, sep: char) -> Seq<Seq<char>>
    decreases s.len(),
{
    if s.len() == 0 {
        seq![Seq::empty()]
    } else {
        let before = split_on(s.drop_last(), sep);
        if s.last() == sep {
            before.push(Seq::empty())
        } else {
            before.drop_last().push(before.last().push(s.last()))
        }
    }
}

/// The pieces that are not empty.
pub open spec fn non_empty(pieces: Seq<Seq<char>>) -> Seq<Seq<char>>
    decreases pieces.len(),
{
    if pieces.len() == 0 {
        Seq::empty()
    } else {
        let before = non_empty(pieces.drop_last());
        if pieces.last().len() == 0 {
            before
        } else {
            before.push(pieces.last())
        }
    }
}

/// `parts` in order with `sep` between neighbours.
pub open spec fn join_with(parts: Seq<Seq<char>>, sep: Seq<char>) -> Seq<char>
    decreases parts.len(),
{
    if parts.len() == 0 {
        Seq::empty()
    } else if parts.len() == 1 {
        parts[0]
    } else {
        join_with(parts.drop_last(), sep) + sep + parts.last()
    }
}

/// Whether `needle` stands in `hay` at position `i`.
pub open spec fn occurs_at(hay: Seq<char>, needle: Seq<char>, i: int) -> bool {
    0 <= i && i + needle.len() <= hay.len() && hay.subrange(i, i + needle.len()) == needle
}

/// Whether `needle` stands anywhere in `hay`.
pub open spec fn occurs_in(hay: Seq<char>, needle: Seq<char>) -> bool {
    exists|i: int| occurs_at(hay, needle, i)
}

/// `s` without the leading characters that satisfy `drop`.
pub open spec fn trim_start_by(s: Seq<char>, drop: spec_fn(char) -> bool) -> Seq<char>
    decreases s.len(),
{
    if s.len() > 0 && drop(s[0]) {
        trim_start_by(s.drop_first(), drop)
    } else {
        s
    }
}

/// `s` without the trailing characters that satisfy `drop`.
pub open spec fn trim_end_by(s: Seq<char>, drop: spec_fn(char) -> bool) -> Seq<char>
    decreases s.len(),
{
    if s.len() > 0 && drop(s.last()) {
        trim_end_by(s.drop_last(), drop)
    } else {
        s
    }
}

/// `s` without white space at either end.
pub open spec fn trim_space(s: Seq<char>) -> Seq<char> {
    trim_end_by(trim_start_by(s, |c: char| is_space(c)), |c: char| is_space(c))
}

/// The number of bytes of the UTF-8 encoding of `s`.
pub open spec fn utf8_len(s: Seq<char>) -> nat {
    encode_utf8(s).len()
}

/// The views of a list of strings.
pub open spec fn views(v: Seq<String>) -> Seq<Seq<char>> {
    v.map_values(|s: String| s@)
}

/// The views of a list of character vectors.
pub open spec fn char_views(v: Seq<Vec<char>>) -> Seq<Seq<char>> {
    v.map_values(|s: Vec<char>| s@)
}

pub fn ascii_letter(c: char) -> (r: bool)
    ensures
        r == is_ascii_letter(c),
{
    ('a' <= c && c <= 'z') || ('A' <= c && c <= 'Z')
}

pub fn ascii_digit(c: char) -> (r: bool)
    ensures
        r == is_ascii_digit(c),
{
    '0' <= c && c <= '9'
}

pub fn hex_digit(c: char) -> (r: bool)
    ensures
        r == is_hex_digit(c),
{
    ascii_digit(c) || ('a' <= c && c <= 'f') || ('A' <= c && c <= 'F')
}

pub fn lower_char(c: char) -> (r: char)
    ensures
        r == ascii_lower_char(c),
{
    if 'A' <= c && c <= 'Z' {
        (c as u8 + 32) as char
    } else {
        c
    }
}

pub fn lower_chars(s: &[char]) -> (r: Vec<char>)
    ensures
        r@ == ascii_lower(s@),
{
    let mut out: Vec<char> = Vec::new();
    let mut i: usize = 0;
    while i < s.len()
        invariant
            i <= s.len(),
            out@ == ascii_lower(s@.take(i as int)),
        decreases s.len() - i,
    {
        out.push(lower_char(s[i]));
        i += 1;
        assert(out@ == ascii_lower(s@.take(i as int)));
    }
    assert(s@.take(s@.len() as int) == s@);
    out
}

pub fn space(c: char) -> (r: bool)
    ensures
        r == is_space(c),
{
    ('\u{9}' <= c && c <= '\u{d}') || c == ' ' || c == '\u{85}' || c == '\u{a0}' || c == '\u{1680}' || (
    '\u{2000}' <= c && c <= '\u{200a}') || c == '\u{2028}' || c == '\u{2029}' || c == '\u{202f}' || c
        == '\u{205f}' || c == '\u{3000}'
}

pub fn blank(s: &[char]) -> (r: bool)
    ensures
        r == is_blank(s@),
{
    let mut i: usize = 0;
    while i < s.len()
        invariant
            i <= s.len(),
            forall|k: int| 0 <= k < i ==> is_space(#[trigger] s@[k]),
        decreases s.len() - i,
    {
        if !space(s[i]) {
            return false;
        }
        i += 1;
    }
    true
}

pub fn replaced(s: &[char], from: char, to: char) -> (r: Vec<char>)
    ensures
        r@ == replace_char(s@, from, to),
{
    let mut out: Vec<char> = Vec::new();
    let mut i: usize = 0;
    while i < s.len()
        invariant
            i <= s.len(),
            out@ == replace_char(s@.take(i as int), from, to),
        decreases s.len() - i,
    {
        let c = s[i];
        out.push(if c == from { to } else { c });
        i += 1;
        assert(out@ == replace_char(s@.take(i as int), from, to));
    }
    assert(s@.take(s@.len() as int) == s@);
    out
}

pub fn has_char(s: &[char], c: char) -> (r: bool)
    ensures
        r == s@.contains(c),
{
    let mut i: usize = 0;
    while i < s.len()
        invariant
            i <= s.len(),
            forall|k: int| 0 <= k < i ==> s@[k] != c,
        decreases s.len() - i,
    {
        if s[i] == c {
            return true;
        }
        i += 1;
    }
    false
}

pub fn same(a: &[char], b: &[char]) -> (r: bool)
    ensures
        r == (a@ == b@),
{
    if a.len() != b.len() {
        return false;
    }
    let mut i: usize = 0;
    while i < a.len()
        invariant
            i <= a.len(),
            a.len() == b.len(),
            forall|k: int| 0 <= k < i ==> a@[k] == b@[k],
        decreases a.len() - i,
    {
        if a[i] != b[i] {
            return false;
        }
        i += 1;
    }
    assert(a@ == b@);
    true
}

/// Whether `s` is the text `literal`.
pub fn is_text(s: &[char], literal: &str) -> (r: bool)
    ensures
        r == (s@ == literal@),
{
    let other = chars_of(literal);
    same(s, &other)
}

/// Whether `needle` stands in `hay` at position `at`.
pub fn stands_at(hay: &[char], needle: &[char], at: usize) -> (r: bool)
    ensures
        r == occurs_at(hay@, needle@, at as int),
{
    if at > hay.len() || needle.len() > hay.len() - at {
        return false;
    }
    let ghost window = hay@.subrange(at as int, at + needle@.len());
    let mut i: usize = 0;
    while i < needle.len()
        invariant
            i <= needle.len(),
            at + needle.len() <= hay.len(),
            window == hay@.subrange(at as int, at + needle@.len()),
            forall|k: int| 0 <= k < i ==> window[k] == needle@[k],
        decreases needle.len() - i,
    {
        assert(window[i as int] == hay@[at + i]);
        if hay[at + i] != needle[i] {
            return false;
        }
        i += 1;
    }
    assert(window == needle@);
    true
}

pub fn starts_with(s: &[char], prefix: &[char]) -> (r: bool)
    ensures
        r == prefix@.is_prefix_of(s@),
{
    stands_at(s, prefix, 0)
}

/// Whether `literal` stands anywhere in `hay`.
pub fn has_text(hay: &[char], literal: &str) -> (r: bool)
    ensures
        r == occurs_in(hay@, literal@),
{
    let needle = chars_of(literal);
    let mut at: usize = 0;
    while at < hay.len()
        invariant
            at <= hay.len(),
            needle@ == literal@,
            forall|k: int| 0 <= k < at ==> !occurs_at(hay@, literal@, k),
        decreases hay.len() - at,
    {
        if stands_at(hay, &needle, at) {
            return true;
        }
        at += 1;
    }
    let found = stands_at(hay, &needle, at);
    found
}

/// Splits `s` at every `sep` and keeps the pieces that are not empty.
pub fn split_non_empty(s: &[char], sep: char) -> (r: Vec<Vec<char>>)
    ensures
        char_views(r@) == non_empty(split_on(s@, sep)),
{
    let mut done: Vec<Vec<char>> = Vec::new();
    let mut current: Vec<char> = Vec::new();
    let mut i: usize = 0;
    assert(split_on(s@.take(0), sep).drop_last() =~= Seq::empty());
    while i < s.len()
        invariant
            i <= s.len(),
            split_on(s@.take(i as int), sep).len() > 0,
            split_on(s@.take(i as int), sep).last() == current@,
            char_views(done@) == non_empty(split_on(s@.take(i as int), sep).drop_last()),
        decreases s.len() - i,
    {
        let c = s[i];
        proof {
            let pre = s@.take(i as int);
            let post = s@.take(i + 1);
            assert(post.drop_last() == pre);
            assert(post.last() == c);
            let before = split_on(pre, sep);
            if c == sep {
                assert(before.push(Seq::empty()).drop_last() == before);
            } else {
                assert(before.drop_last().push(before.last().push(c)).drop_last()
                    == before.drop_last());
            }
        }
        if c == sep {
            let ghost was = done@;
            if current.len() > 0 {
                let mut piece: Vec<char> = Vec::new();
                std::mem::swap(&mut piece, &mut current);
                done.push(piece);
                assert(char_views(done@) == char_views(was).push(piece@));
            }
        } else {
            current.push(c);
        }
        i += 1;
    }
    assert(s@.take(s@.len() as int) == s@);
    let ghost was = done@;
    if current.len() > 0 {
        done.push(current);
        assert(char_views(done@) == char_views(was).push(current@));
    }
    done
}

/// The pieces of `s` between occurrences of `sep`, as strings.
pub fn split_all(s: &[char], sep: char) -> (r: Vec<String>)
    ensures
        views(r@) == split_on(s@, sep),
{
    let mut done: Vec<String> = Vec::new();
    let mut current: String = String::new();
    let mut i: usize = 0;
    assert(views(done@).push(current@) =~= split_on(s@.take(0), sep));
    while i < s.len()
        invariant
            i <= s.len(),
            split_on(s@.take(i as int), sep) == views(done@).push(current@),
        decreases s.len() - i,
    {
        let c = s[i];
        let ghost before = views(done@).push(current@);
        let ghost was = current@;
        proof {
            assert(s@.take(i + 1).drop_last() == s@.take(i as int));
            assert(s@.take(i + 1).last() == c);
            assert(before.drop_last() == views(done@));
            assert(before.last() == was);
        }
        if c == sep {
            let mut piece: String = String::new();
            std::mem::swap(&mut piece, &mut current);
            let ghost earlier = done@;
            done.push(piece);
            assert(views(done@) == views(earlier).push(piece@));
            assert(views(done@) == before);
        } else {
            current.push(c);
        }
        i += 1;
        assert(split_on(s@.take(i as int), sep) == views(done@).push(current@));
    }
    assert(s@.take(s@.len() as int) == s@);
    let ghost earlier = done@;
    done.push(current);
    assert(views(done@) == views(earlier).push(current@));
    done
}

/// Puts `parts` together with `sep` between neighbours.
pub fn joined(parts: &[Vec<char>], sep: char) -> (r: Vec<char>)
    ensures
        r@ == join_with(char_views(parts@), seq![sep]),
{
    let mut out: Vec<char> = Vec::new();
    let mut i: usize = 0;
    while i < parts.len()
        invariant
            i <= parts.len(),
            out@ == join_with(char_views(parts@.take(i as int)), seq![sep]),
        decreases parts.len() - i,
    {
        proof {
            let post = char_views(parts@.take(i + 1));
            assert(post.drop_last() == char_views(parts@.take(i as int)));
            assert(post.last() == parts@[i as int]@);
        }
        if i > 0 {
            out.push(sep);
        }
        append_chars(&mut out, &parts[i]);
        i += 1;
        assert(out@ == join_with(char_views(parts@.take(i as int)), seq![sep]));
    }
    assert(parts@.take(parts@.len() as int) == parts@);
    out
}

/// Puts `parts` together with `sep` between neighbours.
pub fn join_strings(parts: &Vec<String>, sep: &str) -> (r: String)
    ensures
        r@ == join_with(views(parts@), sep@),
{
    let mut out: String = String::new();
    let mut i: usize = 0;
    while i < parts.len()
        invariant
            i <= parts@.len(),
            out@ == join_with(views(parts@.take(i as int)), sep@),
        decreases parts.len() - i,
    {
        proof {
            let post = views(parts@.take(i + 1));
            assert(post.drop_last() == views(parts@.take(i as int)));
            assert(post.last() == parts@[i as int]@);
        }
        if i > 0 {
            out.append(sep);
        }
        out.append(parts[i].as_str());
        i += 1;
        assert(out@ == join_with(views(parts@.take(i as int)), sep@));
    }
    assert(parts@.take(parts@.len() as int) == parts@);
    out
}

/// Whether `name` is one of `names`.
pub fn holds(names: &Vec<String>, name: &String) -> (r: bool)
    ensures
        r == views(names@).contains(name@),
{
    let mut i: usize = 0;
    while i < names.len()
        invariant
            i <= names@.len(),
            forall|k: int| 0 <= k < i ==> views(names@)[k] != name@,
        decreases names.len() - i,
    {
        if names[i] == *name {
            assert(views(names@)[i as int] == name@);
            return true;
        }
        i += 1;
    }
    false
}

/// Other strings with the same text.
pub fn copies(strings: &Vec<String>) -> (r: Vec<String>)
    ensures
        views(r@) == views(strings@),
{
    let mut out: Vec<String> = Vec::new();
    let mut i: usize = 0;
    while i < strings.len()
        invariant
            i <= strings@.len(),
            views(out@) == views(strings@).take(i as int),
        decreases strings.len() - i,
    {
        let ghost before = out@;
        out.push(strings[i].clone());
        i += 1;
        assert(views(out@) == views(before).push(out@.last()@));
        assert(views(out@) == views(strings@).take(i as int));
    }
    assert(views(out@) == views(strings@));
    out
}

/// The decimal digit for `d`.
pub open spec fn digit(d: int) -> char {
    (48 + d) as char
}

/// `n` in decimal digits.
pub open spec fn decimal(n: nat) -> Seq<char>
    decreases n,
{
    if n < 10 {
        seq![digit(n as int)]
    } else {
        decimal(n / 10).push(digit((n % 10) as int))
    }
}

/// `n` in decimal digits.
pub fn decimal_text(n: u64) -> (r: String)
    ensures
        r@ == decimal(n as nat),
    decreases n,
{
    let low: u8 = (n % 10) as u8;
    let mut out: String = if n < 10 {
        String::new()
    } else {
        decimal_text(n / 10)
    };
    out.push((48 + low) as char);
    assert(out@ =~= decimal(n as nat));
    out
}

/// Appends `more` to `out`.
pub fn append_chars(out: &mut Vec<char>, more: &[char])
    ensures
        final(out)@ == old(out)@ + more@,
{
    let mut i: usize = 0;
    while i < more.len()
        invariant
            i <= more.len(),
            out@ == old(out)@ + more@.take(i as int),
        decreases more.len() - i,
    {
        out.push(more[i]);
        assert(more@.take(i + 1) == more@.take(i as int).push(more@[i as int]));
        i += 1;
    }
    assert(more@.take(more@.len() as int) == more@);
}

/// The characters of `s` from `from` up to, but not including, `to`.
pub fn part(s: &[char], from: usize, to: usize) -> (r: Vec<char>)
    requires
        from <= to <= s@.len(),
    ensures
        r@ == s@.subrange(from as int, to as int),
{
    let mut out: Vec<char> = Vec::new();
    let mut i: usize = from;
    while i < to
        invariant
            from <= i <= to <= s@.len(),
            out@ == s@.subrange(from as int, i as int),
        decreases to - i,
    {
        out.push(s[i]);
        assert(s@.subrange(from as int, i + 1) == s@.subrange(from as int, i as int).push(
            s@[i as int],
        ));
        i += 1;
    }
    out
}

/// The position of the first `c` in `s`.
pub fn position_of(s: &[char], c: char) -> (r: Option<usize>)
    ensures
        match r {
            Some(i) => i < s@.len() && s@[i as int] == c && !s@.take(i as int).contains(c),
            None => !s@.contains(c),
        },
{
    let mut i: usize = 0;
    while i < s.len()
        invariant
            i <= s.len(),
            forall|k: int| 0 <= k < i ==> s@[k] != c,
        decreases s.len() - i,
    {
        if s[i] == c {
            return Some(i);
        }
        i += 1;
    }
    None
}


/// `s` without white space at either end.
pub fn trimmed(s: &[char]) -> (r: Vec<char>)
    ensures
        r@ == trim_space(s@),
{
    let ghost drop = |c: char| is_space(c);
    let mut from: usize = 0;
    while from < s.len() && space(s[from])
        invariant
            from <= s@.len(),
            drop == (|c: char| is_space(c)),
            forall|i: int| 0 <= i < from ==> drop(#[trigger] s@[i]),
        decreases s.len() - from,
    {
        from += 1;
    }
    proof {
        lemma_trim_start_at(s@, drop, from as int);
    }
    let ghost t = s@.skip(from as int);
    let mut to: usize = s.len();
    while to > from && space(s[to - 1])
        invariant
            from <= to <= s@.len(),
            drop == (|c: char| is_space(c)),
            t == s@.skip(from as int),
            forall|i: int| to - from <= i < t.len() ==> drop(#[trigger] t[i]),
        decreases to - from,
    {
        assert(t[to - 1 - from] == s@[to - 1]);
        to -= 1;
    }
    proof {
        assert(to > from ==> t[to - from - 1] == s@[to - 1]);
        lemma_trim_end_at(t, drop, to - from);
        assert(t.take(to - from) == s@.subrange(from as int, to as int));
    }
    part(s, from, to)
}

/// No piece contains `sep` and none is empty.
pub open spec fn all_pieces(pieces: Seq<Seq<char>>, sep: char) -> bool {
    forall|i: int|
        #![trigger pieces[i]]
        0 <= i < pieces.len() ==> pieces[i].len() > 0 && !pieces[i].contains(sep)
}

/// Splitting gives at least one piece.
pub proof fn lemma_split_some(s: Seq<char>, sep: char)
    ensures
        split_on(s, sep).len() >= 1,
    decreases s.len(),
{
    if s.len() > 0 {
        lemma_split_some(s.drop_last(), sep);
    }
}

/// Text without the separator is its own only piece.
pub proof fn lemma_split_free(s: Seq<char>, sep: char)
    requires
        !s.contains(sep),
    ensures
        split_on(s, sep) == seq![s],
    decreases s.len(),
{
    if s.len() > 0 {
        assert forall|i: int| 0 <= i < s.drop_last().len() implies s.drop_last()[i] != sep by {
            assert(s[i] == s.drop_last()[i]);
        }
        lemma_split_free(s.drop_last(), sep);
        assert(s.last() == s[s.len() - 1]);
        assert(s.drop_last().push(s.last()) == s);
        assert(split_on(s, sep) == seq![s]);
    } else {
        assert(s == Seq::<char>::empty());
    }
}

/// A separator splits: the pieces on its left are followed by those on its right.
pub proof fn lemma_split_concat(a: Seq<char>, b: Seq<char>, sep: char)
    ensures
        split_on(a + seq![sep] + b, sep) == split_on(a, sep) + split_on(b, sep),
    decreases b.len(),
{
    let s = a + seq![sep] + b;
    if b.len() == 0 {
        assert(s.drop_last() == a);
        assert(s.last() == sep);
        assert(split_on(s, sep) == split_on(a, sep) + split_on(b, sep));
    } else {
        assert(s.drop_last() == a + seq![sep] + b.drop_last());
        assert(s.last() == b.last());
        lemma_split_concat(a, b.drop_last(), sep);
        lemma_split_some(b.drop_last(), sep);
        let left = split_on(a, sep);
        let right = split_on(b.drop_last(), sep);
        if b.last() == sep {
            assert((left + right).push(Seq::empty()) == left + right.push(Seq::empty()));
        } else {
            assert((left + right).last() == right.last());
            assert((left + right).drop_last().push(right.last().push(b.last())) == left
                + right.drop_last().push(right.last().push(b.last())));
        }
    }
}

/// Dropping empty pieces distributes over concatenation.
pub proof fn lemma_non_empty_concat(x: Seq<Seq<char>>, y: Seq<Seq<char>>)
    ensures
        non_empty(x + y) == non_empty(x) + non_empty(y),
    decreases y.len(),
{
    if y.len() == 0 {
        assert(x + y == x);
        assert(non_empty(x) + non_empty(y) == non_empty(x));
    } else {
        assert((x + y).drop_last() == x + y.drop_last());
        assert((x + y).last() == y.last());
        lemma_non_empty_concat(x, y.drop_last());
        assert(non_empty(x + y) == non_empty(x) + non_empty(y));
    }
}

/// The non-empty pieces of text cut at a separator.
pub proof fn lemma_pieces_concat(a: Seq<char>, b: Seq<char>, sep: char)
    ensures
        non_empty(split_on(a + seq![sep] + b, sep)) == non_empty(split_on(a, sep)) + non_empty(
            split_on(b, sep),
        ),
{
    lemma_split_concat(a, b, sep);
    lemma_non_empty_concat(split_on(a, sep), split_on(b, sep));
}

/// Pieces do not contain the separator.
pub proof fn lemma_split_pieces_free(s: Seq<char>, sep: char)
    ensures
        forall|i: int|
            #![trigger split_on(s, sep)[i]]
            0 <= i < split_on(s, sep).len() ==> !split_on(s, sep)[i].contains(sep),
    decreases s.len(),
{
    if s.len() > 0 {
        lemma_split_pieces_free(s.drop_last(), sep);
        lemma_split_some(s.drop_last(), sep);
        let before = split_on(s.drop_last(), sep);
        let all = split_on(s, sep);
        assert forall|i: int| 0 <= i < all.len() implies !(#[trigger] all[i]).contains(sep) by {
            if s.last() == sep {
                if i < before.len() {
                    assert(all[i] == before[i]);
                }
            } else if i == all.len() - 1 {
                let piece = before.last();
                assert(!before[before.len() - 1].contains(sep));
                assert(all[i] == piece.push(s.last()));
                assert forall|k: int| 0 <= k < all[i].len() implies all[i][k] != sep by {
                    if k < piece.len() {
                        assert(piece[k] == all[i][k]);
                    }
                }
            } else {
                assert(all[i] == before[i]);
            }
        }
    }
}

/// The non-empty pieces among pieces without the separator.
pub proof fn lemma_non_empty_pieces(pieces: Seq<Seq<char>>, sep: char)
    requires
        forall|i: int|
            #![trigger pieces[i]]
            0 <= i < pieces.len() ==> !pieces[i].contains(sep),
    ensures
        all_pieces(non_empty(pieces), sep),
    decreases pieces.len(),
{
    if pieces.len() > 0 {
        assert forall|i: int| 0 <= i < pieces.drop_last().len() implies !(
        #[trigger] pieces.drop_last()[i]).contains(sep) by {
            assert(pieces.drop_last()[i] == pieces[i]);
        }
        lemma_non_empty_pieces(pieces.drop_last(), sep);
        assert(!pieces[pieces.len() - 1].contains(sep));
    }
}

/// The pieces kept by `split_non_empty` are non-empty and free of the separator.
pub proof fn lemma_pieces(s: Seq<char>, sep: char)
    ensures
        all_pieces(non_empty(split_on(s, sep)), sep),
{
    lemma_split_pieces_free(s, sep);
    lemma_non_empty_pieces(split_on(s, sep), sep);
}

/// One non-empty piece without the separator.
pub proof fn lemma_single_piece(s: Seq<char>, sep: char)
    requires
        !s.contains(sep),
    ensures
        non_empty(split_on(s, sep)) == (if s.len() == 0 {
            Seq::<Seq<char>>::empty()
        } else {
            seq![s]
        }),
{
    lemma_split_free(s, sep);
    assert(seq![s].drop_last() == Seq::<Seq<char>>::empty());
    assert(non_empty(seq![s].drop_last()) == Seq::<Seq<char>>::empty());
}

/// Splitting undoes joining.
pub proof fn lemma_split_join(pieces: Seq<Seq<char>>, sep: char)
    requires
        all_pieces(pieces, sep),
    ensures
        non_empty(split_on(join_with(pieces, seq![sep]), sep)) == pieces,
    decreases pieces.len(),
{
    if pieces.len() == 0 {
        lemma_single_piece(Seq::empty(), sep);
    } else if pieces.len() == 1 {
        lemma_single_piece(pieces[0], sep);
        assert(pieces == seq![pieces[0]]);
    } else {
        let init = pieces.drop_last();
        assert forall|i: int| #![trigger init[i]] 0 <= i < init.len() implies init[i].len() > 0
            && !init[i].contains(sep) by {
            assert(init[i] == pieces[i]);
        }
        lemma_split_join(init, sep);
        let last = pieces.last();
        assert(last == pieces[pieces.len() - 1]);
        lemma_pieces_concat(join_with(init, seq![sep]), last, sep);
        lemma_single_piece(last, sep);
        assert(init + seq![last] == pieces);
    }
}

/// Putting the pieces together again gives the text.
pub proof fn lemma_join_split(s: Seq<char>, sep: char)
    ensures
        join_with(split_on(s, sep), seq![sep]) == s,
    decreases s.len(),
{
    let pieces = split_on(s, sep);
    if s.len() > 0 {
        let t = s.drop_last();
        let before = split_on(t, sep);
        lemma_join_split(t, sep);
        lemma_split_some(t, sep);
        if s.last() == sep {
            assert(pieces.drop_last() == before);
            assert(join_with(pieces, seq![sep]) =~= s);
        } else if before.len() == 1 {
            assert(pieces =~= seq![before[0].push(s.last())]);
            assert(join_with(pieces, seq![sep]) =~= s);
        } else {
            let head = join_with(before.drop_last(), seq![sep]);
            assert(pieces.drop_last() == before.drop_last());
            assert(pieces.last() == before.last().push(s.last()));
            assert(join_with(before, seq![sep]) == head + seq![sep] + before.last());
            assert(join_with(pieces, seq![sep]) == head + seq![sep] + pieces.last());
            assert(t.push(s.last()) == s);
            assert(join_with(pieces, seq![sep]) =~= s);
        }
    }
}

/// Leading separators do not add pieces.
pub proof fn lemma_pieces_lead(s: Seq<char>, sep: char)
    ensures
        non_empty(split_on(seq![sep] + s, sep)) == non_empty(split_on(s, sep)),
{
    let none = Seq::<char>::empty();
    assert(none + seq![sep] + s == seq![sep] + s);
    lemma_pieces_concat(none, s, sep);
    lemma_single_piece(none, sep);
    assert(Seq::<Seq<char>>::empty() + non_empty(split_on(s, sep)) == non_empty(split_on(s, sep)));
}

/// Trailing separators do not add pieces.
pub proof fn lemma_pieces_trail(s: Seq<char>, sep: char)
    ensures
        non_empty(split_on(s.push(sep), sep)) == non_empty(split_on(s, sep)),
{
    let none = Seq::<char>::empty();
    assert(s + seq![sep] + none == s.push(sep));
    lemma_pieces_concat(s, none, sep);
    lemma_single_piece(none, sep);
    assert(non_empty(split_on(s, sep)) + Seq::<Seq<char>>::empty() == non_empty(split_on(s, sep)));
}

/// Joining non-empty pieces starts with the first piece.
pub proof fn lemma_join_first(pieces: Seq<Seq<char>>, sep: Seq<char>)
    requires
        pieces.len() > 0,
    ensures
        pieces[0].is_prefix_of(join_with(pieces, sep)),
        pieces.len() > 1 ==> (pieces[0] + sep).is_prefix_of(join_with(pieces, sep)),
    decreases pieces.len(),
{
    if pieces.len() > 1 {
        let init = pieces.drop_last();
        lemma_join_first(init, sep);
        assert(init[0] == pieces[0]);
        if pieces.len() == 2 {
            assert(join_with(init, sep) == pieces[0]);
        } else {
            let head = pieces[0] + sep;
            let whole = join_with(init, sep);
            assert(head == whole.subrange(0, head.len() as int));
            assert(join_with(pieces, sep).subrange(0, head.len() as int) == head);
        }
        let head = pieces[0] + sep;
        assert(join_with(pieces, sep).subrange(0, head.len() as int) == head);
        assert(join_with(pieces, sep).subrange(0, pieces[0].len() as int) == pieces[0]);
    } else {
        assert(pieces[0].subrange(0, pieces[0].len() as int) == pieces[0]);
    }
}

/// Joining ends with the last piece.
pub proof fn lemma_join_last(pieces: Seq<Seq<char>>, sep: Seq<char>)
    requires
        pieces.len() > 0,
    ensures
        join_with(pieces, sep).len() >= pieces.last().len(),
        join_with(pieces, sep).skip(join_with(pieces, sep).len() - pieces.last().len())
            == pieces.last(),
{
    if pieces.len() > 1 {
        let whole = join_with(pieces, sep);
        assert(whole.skip(whole.len() - pieces.last().len()) == pieces.last());
    } else {
        assert(pieces[0].skip(0) == pieces[0]);
    }
}

/// Encoding distributes over concatenation.
pub proof fn lemma_encode_concat(a: Seq<char>, b: Seq<char>)
    ensures
        encode_utf8(a + b) == encode_utf8(a) + encode_utf8(b),
    decreases a.len(),
{
    if a.len() == 0 {
        assert(a + b == b);
        assert(encode_utf8(a) + encode_utf8(b) == encode_utf8(b));
    } else {
        assert((a + b)[0] == a[0]);
        assert((a + b).drop_first() == a.drop_first() + b);
        lemma_encode_concat(a.drop_first(), b);
        assert(encode_utf8(a + b) == encode_utf8(a) + encode_utf8(b));
    }
}

/// Lengths in bytes add up.
pub proof fn lemma_utf8_len_concat(a: Seq<char>, b: Seq<char>)
    ensures
        utf8_len(a + b) == utf8_len(a) + utf8_len(b),
{
    lemma_encode_concat(a, b);
}

/// Trimming leaves nothing exactly when there is only white space.
pub proof fn lemma_trim_blank(s: Seq<char>)
    ensures
        trim_space(s).len() == 0 <==> is_blank(s),
{
    let drop = |c: char| is_space(c);
    lemma_trim_start_empty(s, drop);
    let t = trim_start_by(s, drop);
    lemma_trim_end_empty(t, drop);
    lemma_trim_start_head(s, drop);
    if is_blank(s) {
        assert(forall|i: int| 0 <= i < s.len() ==> drop(#[trigger] s[i]));
    }
    if trim_space(s).len() == 0 {
        assert(forall|i: int| 0 <= i < t.len() ==> drop(#[trigger] t[i]));
        if t.len() > 0 {
            assert(drop(t[0]));
        }
        assert(forall|i: int| 0 <= i < s.len() ==> drop(#[trigger] s[i]));
    }
}

pub proof fn lemma_trim_start_empty(s: Seq<char>, drop: spec_fn(char) -> bool)
    ensures
        trim_start_by(s, drop).len() == 0 <==> forall|i: int|
            0 <= i < s.len() ==> drop(#[trigger] s[i]),
    decreases s.len(),
{
    if s.len() > 0 && drop(s[0]) {
        lemma_trim_start_empty(s.drop_first(), drop);
        if trim_start_by(s, drop).len() == 0 {
            assert forall|i: int| 0 <= i < s.len() implies drop(#[trigger] s[i]) by {
                if i > 0 {
                    assert(s.drop_first()[i - 1] == s[i]);
                }
            }
        }
        if forall|i: int| 0 <= i < s.len() ==> drop(#[trigger] s[i]) {
            assert forall|i: int| 0 <= i < s.drop_first().len() implies drop(
                #[trigger] s.drop_first()[i],
            ) by {
                assert(s.drop_first()[i] == s[i + 1]);
            }
        }
    }
}

pub proof fn lemma_trim_start_head(s: Seq<char>, drop: spec_fn(char) -> bool)
    ensures
        trim_start_by(s, drop).len() > 0 ==> !drop(trim_start_by(s, drop)[0]),
    decreases s.len(),
{
    if s.len() > 0 && drop(s[0]) {
        lemma_trim_start_head(s.drop_first(), drop);
    }
}

pub proof fn lemma_trim_end_empty(s: Seq<char>, drop: spec_fn(char) -> bool)
    ensures
        trim_end_by(s, drop).len() == 0 <==> forall|i: int|
            0 <= i < s.len() ==> drop(#[trigger] s[i]),
    decreases s.len(),
{
    if s.len() > 0 && drop(s.last()) {
        lemma_trim_end_empty(s.drop_last(), drop);
        if trim_end_by(s, drop).len() == 0 {
            assert forall|i: int| 0 <= i < s.len() implies drop(#[trigger] s[i]) by {
                if i < s.len() - 1 {
                    assert(s.drop_last()[i] == s[i]);
                }
            }
        }
        if forall|i: int| 0 <= i < s.len() ==> drop(#[trigger] s[i]) {
            assert forall|i: int| 0 <= i < s.drop_last().len() implies drop(
                #[trigger] s.drop_last()[i],
            ) by {
                assert(s.drop_last()[i] == s[i]);
            }
        }
    } else if s.len() > 0 {
        assert(s.last() == s[s.len() - 1]);
    }
}

/// Skipping the leading characters to drop, and no more, is trimming the start.
pub proof fn lemma_trim_start_at(s: Seq<char>, drop: spec_fn(char) -> bool, at: int)
    requires
        0 <= at <= s.len(),
        forall|i: int| 0 <= i < at ==> drop(#[trigger] s[i]),
        at < s.len() ==> !drop(s[at]),
    ensures
        trim_start_by(s, drop) == s.skip(at),
    decreases at,
{
    if at > 0 {
        assert forall|i: int| 0 <= i < at - 1 implies drop(#[trigger] s.drop_first()[i]) by {
            assert(s.drop_first()[i] == s[i + 1]);
        }
        assert(at < s.len() ==> s.drop_first()[at - 1] == s[at]);
        lemma_trim_start_at(s.drop_first(), drop, at - 1);
        assert(s.drop_first().skip(at - 1) == s.skip(at));
    } else {
        assert(s.skip(0) == s);
    }
}

/// Keeping everything up to the trailing characters to drop is trimming the end.
pub proof fn lemma_trim_end_at(s: Seq<char>, drop: spec_fn(char) -> bool, at: int)
    requires
        0 <= at <= s.len(),
        forall|i: int| at <= i < s.len() ==> drop(#[trigger] s[i]),
        at > 0 ==> !drop(s[at - 1]),
    ensures
        trim_end_by(s, drop) == s.take(at),
    decreases s.len() - at,
{
    if at < s.len() {
        assert forall|i: int| at <= i < s.drop_last().len() implies drop(
            #[trigger] s.drop_last()[i],
        ) by {
            assert(s.drop_last()[i] == s[i]);
        }
        assert(at > 0 ==> s.drop_last()[at - 1] == s[at - 1]);
        assert(s.last() == s[s.len() - 1]);
        lemma_trim_end_at(s.drop_last(), drop, at);
        assert(s.drop_last().take(at) == s.take(at));
    } else {
        assert(s.take(at) == s);
        if s.len() > 0 {
            assert(s.last() == s[at - 1]);
        }
    }
}

// ---------------------------------------------------------------------------
// Sizes in bytes
// ---------------------------------------------------------------------------
/// How many bytes pieces take, with one more for each.
pub open spec fn segments_size(pieces: Seq<Seq<char>>) -> nat
    decreases pieces.len(),
{
    if pieces.len() == 0 {
        0
    } else {
        segments_size(pieces.drop_last()) + 1 + utf8_len(pieces.last())
    }
}

pub proof fn lemma_empty_size()
    ensures
        utf8_len(Seq::empty()) == 0,
        segments_size(Seq::empty()) == 0,
{
}

pub proof fn lemma_single_size(piece: Seq<char>)
    ensures
        segments_size(seq![piece]) == 1 + utf8_len(piece),
{
    lemma_empty_size();
    assert(seq![piece].drop_last() =~= Seq::<Seq<char>>::empty());
    assert(seq![piece].last() == piece);
}

pub proof fn lemma_slash_size()
    ensures
        utf8_len(seq!['/']) == 1,
        encode_utf8(seq!['/']) == seq![47u8],
{
    is_ascii_chars_encode_utf8(seq!['/']);
    assert(encode_utf8(seq!['/']) =~= seq![47u8]);
}

/// Splitting at slashes loses no byte but the slashes.
pub proof fn lemma_split_size(s: Seq<char>)
    ensures
        segments_size(split_on(s, '/')) == utf8_len(s) + 1,
    decreases s.len(),
{
    let pieces = split_on(s, '/');
    if s.len() > 0 {
        let t = s.drop_last();
        let before = split_on(t, '/');
        let c = s.last();
        lemma_split_size(t);
        lemma_split_some(t, '/');
        assert(s == t + seq![c]);
        lemma_utf8_len_concat(t, seq![c]);
        lemma_empty_size();
        if c == '/' {
            assert(pieces.drop_last() == before);
            lemma_slash_size();
        } else {
            assert(pieces.drop_last() == before.drop_last());
            assert(pieces.last() == before.last() + seq![c]);
            lemma_utf8_len_concat(before.last(), seq![c]);
        }
    } else {
        lemma_single_size(Seq::empty());
        lemma_empty_size();
        assert(s =~= Seq::<char>::empty());
    }
}

pub proof fn lemma_segments_size_concat(a: Seq<Seq<char>>, b: Seq<Seq<char>>)
    ensures
        segments_size(a + b) == segments_size(a) + segments_size(b),
    decreases b.len(),
{
    if b.len() == 0 {
        assert(a + b == a);
    } else {
        assert((a + b).drop_last() == a + b.drop_last());
        lemma_segments_size_concat(a, b.drop_last());
    }
}

pub proof fn lemma_non_empty_size(pieces: Seq<Seq<char>>)
    ensures
        segments_size(non_empty(pieces)) <= segments_size(pieces),
    decreases pieces.len(),
{
    if pieces.len() > 0 {
        let before = non_empty(pieces.drop_last());
        lemma_non_empty_size(pieces.drop_last());
        assert(before.push(pieces.last()).drop_last() == before);
    }
}

/// Pieces put together with slashes take a slash less than one for each.
pub proof fn lemma_join_size(pieces: Seq<Seq<char>>)
    ensures
        utf8_len(join_with(pieces, seq!['/'])) == (if pieces.len() == 0 {
            0
        } else {
            segments_size(pieces) - 1
        }),
    decreases pieces.len(),
{
    lemma_empty_size();
    if pieces.len() == 1 {
        lemma_single_size(pieces[0]);
        assert(pieces =~= seq![pieces[0]]);
    } else if pieces.len() > 1 {
        let head = join_with(pieces.drop_last(), seq!['/']);
        lemma_join_size(pieces.drop_last());
        lemma_slash_size();
        lemma_utf8_len_concat(head, seq!['/']);
        lemma_utf8_len_concat(head + seq!['/'], pieces.last());
    }
}

/// White space is what Unicode says it is; letters, digits and hexadecimal digits are
/// those of ASCII.
pub proof fn law_classes_of_characters(c: char)
    ensures
        ({
            let code = c as u32;
            &&& is_space(c) <==> (9 <= code <= 13 || code == 0x20 || code == 0x85 || code == 0xa0
                || code == 0x1680 || 0x2000 <= code <= 0x200a || code == 0x2028 || code == 0x2029
                || code == 0x202f || code == 0x205f || code == 0x3000)
            &&& is_ascii_letter(c) <==> (65 <= code <= 90 || 97 <= code <= 122)
            &&& is_ascii_digit(c) <==> 48 <= code <= 57
            &&& is_hex_digit(c) <==> (48 <= code <= 57 || 65 <= code <= 70 || 97 <= code <= 102)
            &&& ascii_lower_char(c) as u32 == (if 65 <= code <= 90 {
                (code + 32) as u32
            } else {
                code
            })
        }),
{
}

} // verus!
