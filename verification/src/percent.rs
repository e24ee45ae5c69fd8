//! Percent-encoding of URI path segments.

use vstd::prelude::*;
use vstd::utf8::*;

use crate::text;

verus! {

/// Whether `b` is the code of a hexadecimal digit.
pub open spec fn is_hex_byte(b: u8) -> bool {
    (48 <= b && b <= 57) || (65 <= b && b <= 70) || (97 <= b && b <= 102)
}

/// The value of a hexadecimal digit.
pub open spec fn hex_value(b: u8) -> int {
    if b <= 57 {
        b - 48
    } else if b <= 70 {
        b - 55
    } else {
        b - 87
    }
}

/// Whether `s` begins with an escape.
pub open spec fn begins_with_escape(s: Seq<u8>) -> bool {
    s.len() >= 3 && s[0] == 37 && is_hex_byte(s[1]) && is_hex_byte(s[2])
}

/// `s` with every escape replaced by the byte it stands for. A percent sign
/// that does not begin an escape stands for itself.
pub open spec fn percent_decoded(s: Seq<u8>) -> Seq<u8>
    decreases s.len(),
{
    if s.len() == 0 {
        Seq::empty()
    } else if begins_with_escape(s) {
        seq![(16 * hex_value(s[1]) + hex_value(s[2])) as u8] + percent_decoded(s.skip(3))
    } else {
        seq![s[0]] + percent_decoded(s.skip(1))
    }
}

/// The text that `s` stands for, if the decoded bytes are text.
pub open spec fn decoded_text(s: Seq<char>) -> Option<Seq<char>> {
    let bytes = percent_decoded(encode_utf8(s));
    if valid_utf8(bytes) {
        Some(decode_utf8(bytes))
    } else {
        None
    }
}

/// Wraps `urlencoding::decode`, without the position of an error.
///
/// Trusted: the result is the decoded text, and there is one exactly if the
/// decoded bytes are valid UTF-8.
#[verifier::external_body]
pub(crate) fn decode(s: &str) -> (r: Option<String>)
    ensures
        match r {
            Some(t) => decoded_text(s@) == Some(t@),
            None => decoded_text(s@) is None,
        },
{
    urlencoding::decode(s).ok().map(std::borrow::Cow::into_owned)
}

/// Wraps `urlencoding::decode_binary`.
///
/// Trusted: the result is the decoded bytes.
#[verifier::external_body]
pub(crate) fn decode_binary(s: &[u8]) -> (r: Vec<u8>)
    ensures
        r@ == percent_decoded(s@),
{
    urlencoding::decode_binary(s).into_owned()
}

/// Whether `s` holds a percent sign that does not begin an escape.
pub open spec fn has_bad_escape(s: Seq<char>) -> bool {
    exists|i: int| 0 <= i < s.len() && #[trigger] is_bad_percent(s, i)
}

/// Whether there is a percent sign at `i` that does not begin an escape.
pub open spec fn is_bad_percent(s: Seq<char>, i: int) -> bool {
    s[i] == '%' && !(i + 2 < s.len() && text::is_hex_digit(s[i + 1]) && text::is_hex_digit(
        s[i + 2],
    ))
}

/// Whether there is an escaped slash at `i`.
pub open spec fn is_escaped_slash(s: Seq<char>, i: int) -> bool {
    s[i] == '%' && i + 2 < s.len() && s[i + 1] == '2' && (s[i + 2] == 'f' || s[i + 2] == 'F')
}

/// Whether `s` holds an escaped slash.
pub open spec fn has_escaped_slash(s: Seq<char>) -> bool {
    exists|i: int| 0 <= i < s.len() && #[trigger] is_escaped_slash(s, i)
}

/// Whether `path` holds a percent sign that does not begin an escape.
pub fn has_invalid_percent_encoding(path: &[char]) -> (r: bool)
    ensures
        r == has_bad_escape(path@),
{
    let mut index: usize = 0;
    let total: usize = path.len();
    while index < total
        invariant
            index <= total,
            total == path@.len(),
            forall|i: int| 0 <= i < index ==> !is_bad_percent(path@, i),
        decreases total - index,
    {
        if path[index] != '%' {
            index += 1;
        } else if total - index < 3 || !text::hex_digit(path[index + 1]) || !text::hex_digit(
            path[index + 2],
        ) {
            assert(is_bad_percent(path@, index as int));
            return true;
        } else {
            index += 3;
        }
    }
    false
}

/// Whether `path` holds an escaped slash.
pub fn contains_percent_encoded_slash(path: &[char]) -> (r: bool)
    ensures
        r == has_escaped_slash(path@),
{
    let mut i: usize = 0;
    let total: usize = path.len();
    while i < total
        invariant
            i <= total,
            total == path@.len(),
            forall|k: int| 0 <= k < i ==> !is_escaped_slash(path@, k),
        decreases total - i,
    {
        if path[i] == '%' && total - i >= 3 && path[i + 1] == '2' && (path[i + 2] == 'f' || path[i
            + 2] == 'F') {
            assert(is_escaped_slash(path@, i as int));
            return true;
        }
        i += 1;
    }
    false
}

/// What `path` stands for, or `path` itself where that is no text.
pub open spec fn decoded_or_kept(path: Seq<char>) -> Seq<char> {
    match decoded_text(path) {
        Some(t) => t,
        None => path,
    }
}

/// What `path` stands for, or `path` itself where that is no text.
pub fn decode_uri_path(path: &str) -> (r: String)
    ensures
        r@ == decoded_or_kept(path@),
{
    match decode(path) {
        Some(t) => t,
        None => path.to_owned(),
    }
}

// ---------------------------------------------------------------------------
// Encoding
// ---------------------------------------------------------------------------
/// Whether a path segment spells the byte `b` as an escape: controls, bytes
/// outside of ASCII, and the characters space, `"`, `#`, `%`, `/`, `<`, `>`,
/// `?`, `` ` ``, `{` and `}`. URLs of a special scheme, such as `file`, read a
/// backslash as a separator, so a segment spells it as an escape too.
pub open spec fn is_escaped_byte(b: u8, special: bool) -> bool {
    b <= 32 || b >= 127 || b == 34 || b == 35 || b == 37 || b == 47 || b == 60 || b == 62 || b
        == 63 || b == 96 || b == 123 || b == 125 || (special && b == 92)
}

/// The upper-case hexadecimal digit for `d`.
pub open spec fn hex_char(d: int) -> char {
    if d < 10 {
        (48 + d) as char
    } else {
        (55 + d) as char
    }
}

/// How a path segment spells the byte `b`.
pub open spec fn byte_text(b: u8, special: bool) -> Seq<char> {
    if is_escaped_byte(b, special) {
        seq!['%', hex_char(b as int / 16), hex_char(b as int % 16)]
    } else {
        seq![b as char]
    }
}

/// How a path segment spells `bytes`.
pub open spec fn bytes_text(bytes: Seq<u8>, special: bool) -> Seq<char>
    decreases bytes.len(),
{
    if bytes.len() == 0 {
        Seq::empty()
    } else {
        byte_text(bytes[0], special) + bytes_text(bytes.skip(1), special)
    }
}

/// How a path segment spells the text `s`.
pub open spec fn segment_text(s: Seq<char>) -> Seq<char> {
    bytes_text(encode_utf8(s), false)
}

/// How a path segment of a URL of a special scheme spells the text `s`.
pub open spec fn special_segment_text(s: Seq<char>) -> Seq<char> {
    bytes_text(encode_utf8(s), true)
}

/// How segments are spelled, in order.
pub open spec fn segment_texts(segments: Seq<Seq<char>>) -> Seq<Seq<char>> {
    segments.map_values(|s: Seq<char>| segment_text(s))
}

/// How segments are spelled in a URL of a special scheme, in order.
pub open spec fn special_segment_texts(segments: Seq<Seq<char>>) -> Seq<Seq<char>> {
    segments.map_values(|s: Seq<char>| special_segment_text(s))
}

/// `s` with every percent sign escaped.
pub open spec fn percent_escaped(s: Seq<char>) -> Seq<char>
    decreases s.len(),
{
    if s.len() == 0 {
        Seq::empty()
    } else if s.last() == '%' {
        percent_escaped(s.drop_last()) + seq!['%', '2', '5']
    } else {
        percent_escaped(s.drop_last()).push(s.last())
    }
}

// ---------------------------------------------------------------------------
// Facts
// ---------------------------------------------------------------------------
/// The bytes of ASCII text.
pub open spec fn ascii_bytes(s: Seq<char>) -> Seq<u8> {
    s.map_values(|c: char| c as u8)
}

proof fn lemma_ascii_bytes(s: Seq<char>)
    requires
        is_ascii_chars(s),
    ensures
        encode_utf8(s) == ascii_bytes(s),
{
    is_ascii_chars_encode_utf8(s);
    assert(encode_utf8(s) =~= ascii_bytes(s));
}

proof fn lemma_byte_text(b: u8, special: bool)
    ensures
        is_ascii_chars(byte_text(b, special)),
        forall|i: int|
            0 <= i < byte_text(b, special).len() ==> {
                let c = #[trigger] byte_text(b, special)[i];
                c != '/' && c != '?' && c != '#' && c != '\t' && c != '\n' && c != '\r'
            },
        1 <= byte_text(b, special).len() <= 3,
        is_escaped_byte(b, special) ==> begins_with_escape(ascii_bytes(byte_text(b, special))) && 16 * hex_value(
            ascii_bytes(byte_text(b, special))[1],
        ) + hex_value(ascii_bytes(byte_text(b, special))[2]) == b,
        !is_escaped_byte(b, special) ==> ascii_bytes(byte_text(b, special)) == seq![b] && b != 37,
{
    let hi = b as int / 16;
    let lo = b as int % 16;
    assert(16 * hi + lo == b);
    assert(0 <= hi < 16 && 0 <= lo < 16);
    if !is_escaped_byte(b, special) {
        assert(ascii_bytes(byte_text(b, special)) =~= seq![b]);
    } else {
        let t = ascii_bytes(byte_text(b, special));
        assert(t.len() == 3);
        assert(t[0] == 37);
    }
}

proof fn lemma_ascii_bytes_concat(a: Seq<char>, b: Seq<char>)
    ensures
        ascii_bytes(a + b) == ascii_bytes(a) + ascii_bytes(b),
{
    assert(ascii_bytes(a + b) =~= ascii_bytes(a) + ascii_bytes(b));
}

/// The spelling of bytes is ASCII, keeps to the characters of a segment, and
/// decodes to the bytes.
proof fn lemma_bytes_text(bytes: Seq<u8>, special: bool)
    ensures
        is_ascii_chars(bytes_text(bytes, special)),
        percent_decoded(ascii_bytes(bytes_text(bytes, special))) == bytes,
        bytes_text(bytes, special).len() <= 3 * bytes.len(),
        bytes.len() <= bytes_text(bytes, special).len(),
        forall|i: int|
            0 <= i < bytes_text(bytes, special).len() ==> {
                let c = #[trigger] bytes_text(bytes, special)[i];
                c != '/' && c != '?' && c != '#' && c != '\t' && c != '\n' && c != '\r'
            },
    decreases bytes.len(),
{
    if bytes.len() > 0 {
        let head = byte_text(bytes[0], special);
        let rest = bytes_text(bytes.skip(1), special);
        let whole = bytes_text(bytes, special);
        lemma_byte_text(bytes[0], special);
        lemma_bytes_text(bytes.skip(1), special);
        lemma_ascii_bytes_concat(head, rest);
        let coded = ascii_bytes(whole);
        assert(bytes =~= seq![bytes[0]] + bytes.skip(1));
        if is_escaped_byte(bytes[0], special) {
            assert(begins_with_escape(coded)) by {
                assert(coded[0] == ascii_bytes(head)[0]);
                assert(coded[1] == ascii_bytes(head)[1]);
                assert(coded[2] == ascii_bytes(head)[2]);
            }
            assert(coded.skip(3) =~= ascii_bytes(rest));
        } else {
            assert(coded[0] == bytes[0]);
            assert(coded.skip(1) =~= ascii_bytes(rest));
        }
    } else {
        assert(ascii_bytes(bytes_text(bytes, special)) =~= Seq::<u8>::empty());
    }
}

/// Every percent sign in the spelling of bytes begins an escape, and an
/// escaped slash stands for a slash.
proof fn lemma_bytes_text_escapes(bytes: Seq<u8>, special: bool)
    ensures
        !has_bad_escape(bytes_text(bytes, special)),
        !bytes.contains(47) ==> !has_escaped_slash(bytes_text(bytes, special)),
    decreases bytes.len(),
{
    if bytes.len() > 0 {
        let b = bytes[0];
        let head = byte_text(b, special);
        let rest = bytes_text(bytes.skip(1), special);
        let whole = bytes_text(bytes, special);
        lemma_byte_text(b, special);
        lemma_bytes_text_escapes(bytes.skip(1), special);
        let n = head.len() as int;
        assert forall|i: int| 0 <= i < whole.len() implies !#[trigger] is_bad_percent(
            whole,
            i,
        ) by {
            if i >= n {
                assert(!is_bad_percent(rest, i - n));
                assert(whole[i] == rest[i - n]);
                if whole[i] == '%' {
                    assert(whole[i + 1] == rest[i - n + 1]);
                    assert(whole[i + 2] == rest[i - n + 2]);
                }
            } else {
                lemma_head_percent(b, i, special);
                assert(whole[i] == head[i]);
                if i == 0 && is_escaped_byte(b, special) {
                    assert(whole[1] == head[1]);
                    assert(whole[2] == head[2]);
                }
            }
        }
        if !bytes.contains(47) {
            assert(bytes.contains(b));
            assert(!bytes.skip(1).contains(47)) by {
                if bytes.skip(1).contains(47) {
                    let k = choose|k: int|
                        0 <= k < bytes.skip(1).len() && bytes.skip(1)[k] == 47;
                    assert(bytes[k + 1] == 47);
                }
            }
            assert forall|i: int| 0 <= i < whole.len() implies !#[trigger] is_escaped_slash(
                whole,
                i,
            ) by {
                if i >= n {
                    assert(!is_escaped_slash(rest, i - n));
                    assert(whole[i] == rest[i - n]);
                    if whole[i] == '%' && i + 2 < whole.len() {
                        assert(whole[i + 1] == rest[i - n + 1]);
                        assert(whole[i + 2] == rest[i - n + 2]);
                    }
                } else {
                    lemma_head_percent(b, i, special);
                    assert(whole[i] == head[i]);
                    if i == 0 && is_escaped_byte(b, special) {
                        assert(whole[1] == head[1]);
                        assert(whole[2] == head[2]);
                    }
                }
            }
        }
    }
}

/// A percent sign in the spelling of one byte is its first character and
/// begins an escape, and only a slash is spelled as an escaped slash.
proof fn lemma_head_percent(b: u8, i: int, special: bool)
    requires
        0 <= i < byte_text(b, special).len(),
    ensures
        byte_text(b, special)[i] == '%' ==> i == 0 && is_escaped_byte(b, special),
        is_escaped_byte(b, special) ==> text::is_hex_digit(byte_text(b, special)[1]) && text::is_hex_digit(
            byte_text(b, special)[2],
        ),
        is_escaped_byte(b, special) && b != 47 ==> !(byte_text(b, special)[1] == '2' && (byte_text(b, special)[2] == 'F'
            || byte_text(b, special)[2] == 'f')),
{
    let hi = b as int / 16;
    let lo = b as int % 16;
    assert(16 * hi + lo == b);
    assert(0 <= hi < 16 && 0 <= lo < 16);
}

/// Whether `t` spells the text `s` within a path: it decodes to `s`, every
/// percent sign in it begins an escape, and it holds no separator, query,
/// fragment, tab or line break of its own.
pub open spec fn spells(t: Seq<char>, s: Seq<char>) -> bool {
    &&& is_ascii_chars(t)
    &&& percent_decoded(encode_utf8(t)) == encode_utf8(s)
    &&& !has_bad_escape(t)
    &&& !s.contains('/') ==> !has_escaped_slash(t)
    &&& s.len() > 0 ==> t.len() > 0
    &&& forall|i: int|
        0 <= i < t.len() ==> {
            let c = #[trigger] t[i];
            c != '/' && c != '?' && c != '#' && c != '\t' && c != '\n' && c != '\r'
        }
}

proof fn lemma_spelled(s: Seq<char>, special: bool)
    ensures
        spells(bytes_text(encode_utf8(s), special), s),
        decoded_text(bytes_text(encode_utf8(s), special)) == Some(s),
{
    let bytes = encode_utf8(s);
    lemma_bytes_text(bytes, special);
    lemma_bytes_text_escapes(bytes, special);
    lemma_ascii_bytes(bytes_text(bytes, special));
    encode_utf8_valid_utf8(s);
    encode_utf8_decode_utf8(s);
    if s.len() > 0 {
        lemma_encoding_of_some(s);
    }
    if !s.contains('/') {
        lemma_no_byte(s, '/');
    }
}

/// Decoding the spelling of a segment gives the segment.
pub proof fn lemma_segment_text(s: Seq<char>)
    ensures
        spells(segment_text(s), s),
        decoded_text(segment_text(s)) == Some(s),
{
    lemma_spelled(s, false);
}

/// Decoding the spelling of a segment in a URL of a special scheme gives the
/// segment.
pub proof fn lemma_special_segment_text(s: Seq<char>)
    ensures
        spells(special_segment_text(s), s),
        decoded_text(special_segment_text(s)) == Some(s),
{
    lemma_spelled(s, true);
}

proof fn lemma_encoding_of_some(s: Seq<char>)
    requires
        s.len() > 0,
    ensures
        encode_utf8(s).len() > 0,
{
    assert(encode_utf8(s) == encode_scalar(s[0] as u32) + encode_utf8(s.drop_first()));
}

/// An ASCII character is the only one that is encoded with its byte.
pub proof fn lemma_no_byte(s: Seq<char>, c: char)
    requires
        !s.contains(c),
        (c as u32) < 128,
    ensures
        !encode_utf8(s).contains(c as u8),
    decreases s.len(),
{
    if s.len() > 0 {
        let head = encode_scalar(s[0] as u32);
        let rest = s.drop_first();
        assert(encode_utf8(s) == head + encode_utf8(rest));
        assert(s.contains(s[0]));
        assert(!rest.contains(c)) by {
            if rest.contains(c) {
                let k = choose|k: int| 0 <= k < rest.len() && rest[k] == c;
                assert(s[k + 1] == c);
            }
        }
        lemma_no_byte(rest, c);
        lemma_scalar_bytes(s[0]);
        lemma_same_char(s[0], c);
        assert forall|i: int| 0 <= i < encode_utf8(s).len() implies encode_utf8(s)[i] != c as u8 by {
            if i < head.len() {
                assert(encode_utf8(s)[i] == head[i]);
            } else {
                assert(encode_utf8(s)[i] == encode_utf8(rest)[i - head.len()]);
                assert(encode_utf8(rest).contains(encode_utf8(rest)[i - head.len()]));
            }
        }
    }
}

pub proof fn lemma_same_char(a: char, b: char)
    ensures
        a as u32 == b as u32 ==> a == b,
{
}

/// A character outside of ASCII is encoded with bytes outside of ASCII.
pub proof fn lemma_scalar_bytes(c: char)
    ensures
        forall|i: int|
            0 <= i < encode_scalar(c as u32).len() ==> {
                let b = #[trigger] encode_scalar(c as u32)[i];
                if (c as u32) < 128 {
                    b == c as u32
                } else {
                    b >= 128
                }
            },
{
    let v = c as u32;
    char_is_scalar(c);
    let l2 = leading_byte_width_2(v);
    let l3 = leading_byte_width_3(v);
    let l4 = leading_byte_width_4(v);
    let c1 = last_continuation_byte(v);
    let c2 = second_last_continuation_byte(v);
    let c3 = third_last_continuation_byte(v);
    assert(0xC0u8 | ((v >> 6) & 0x1F) as u8 >= 128) by (bit_vector);
    assert(0xE0u8 | ((v >> 12) & 0x0F) as u8 >= 128) by (bit_vector);
    assert(0xF0u8 | ((v >> 18) & 0x07) as u8 >= 128) by (bit_vector);
    assert(0x80u8 | (v & 0x3F) as u8 >= 128) by (bit_vector);
    assert(0x80u8 | ((v >> 6) & 0x3F) as u8 >= 128) by (bit_vector);
    assert(0x80u8 | ((v >> 12) & 0x3F) as u8 >= 128) by (bit_vector);
    if v < 128 {
        assert((v & 0x7F) as u8 == v) by (bit_vector)
            requires
                v < 128,
        ;
    }
}

/// A character is encoded with at least one byte.
pub proof fn lemma_scalar_some(c: char)
    ensures
        encode_scalar(c as u32).len() > 0,
{
}

/// Bytes other than a percent sign stand for themselves.
pub proof fn lemma_decode_literal(x: Seq<u8>, y: Seq<u8>)
    requires
        forall|i: int| 0 <= i < x.len() ==> x[i] != 37,
    ensures
        percent_decoded(x + y) == x + percent_decoded(y),
    decreases x.len(),
{
    if x.len() == 0 {
        assert(x + y =~= y);
        assert(x + percent_decoded(y) =~= percent_decoded(y));
    } else {
        assert((x + y).skip(1) =~= x.skip(1) + y);
        assert((x + y)[0] == x[0]);
        lemma_decode_literal(x.skip(1), y);
        assert(seq![x[0]] + (x.skip(1) + percent_decoded(y)) =~= x + percent_decoded(y));
    }
}

/// Decoding distributes over a text that does not end within an escape.
pub proof fn lemma_decode_complete(a: Seq<char>, y: Seq<u8>)
    requires
        !has_bad_escape(a),
    ensures
        percent_decoded(encode_utf8(a) + y) == percent_decoded(encode_utf8(a)) + percent_decoded(
            y,
        ),
    decreases a.len(),
{
    let none = Seq::<u8>::empty();
    if a.len() == 0 {
        assert(encode_utf8(a) =~= none);
        assert(none + y =~= y);
        assert(none + percent_decoded(y) =~= percent_decoded(y));
    } else if a[0] == '%' {
        assert(!is_bad_percent(a, 0));
        let head = a.take(3);
        let rest = a.skip(3);
        assert(a =~= head + rest);
        text::lemma_encode_concat(head, rest);
        lemma_ascii_bytes(head);
        let h = encode_utf8(head);
        let r = encode_utf8(rest);
        assert(h.len() == 3);
        assert(h[0] == 37 && h[1] == a[1] as u8 && h[2] == a[2] as u8);
        lemma_suffix_escapes(a, 3);
        lemma_decode_complete(rest, y);
        assert(begins_with_escape(h + r + y));
        assert(begins_with_escape(h + r));
        assert((h + r + y).skip(3) =~= r + y);
        assert((h + r).skip(3) =~= r);
        assert((h + r + y)[1] == h[1] && (h + r + y)[2] == h[2]);
        assert((h + r)[1] == h[1] && (h + r)[2] == h[2]);
        let b = seq![(16 * hex_value(h[1]) + hex_value(h[2])) as u8];
        assert(b + (percent_decoded(r) + percent_decoded(y)) =~= b + percent_decoded(r)
            + percent_decoded(y));
    } else {
        let head = seq![a[0]];
        let rest = a.skip(1);
        assert(a =~= head + rest);
        text::lemma_encode_concat(head, rest);
        let h = encode_utf8(head);
        let r = encode_utf8(rest);
        assert(head.drop_first() =~= Seq::<char>::empty());
        assert(encode_utf8(head.drop_first()) =~= none);
        assert(h == encode_scalar(head[0] as u32) + encode_utf8(head.drop_first()));
        assert(h =~= encode_scalar(a[0] as u32));
        lemma_scalar_bytes(a[0]);
        assert forall|i: int| 0 <= i < h.len() implies h[i] != 37 by {
            lemma_not_percent(a[0]);
        }
        lemma_suffix_escapes(a, 1);
        lemma_decode_complete(rest, y);
        assert(h + r + y =~= h + (r + y));
        lemma_decode_literal(h, r + y);
        lemma_decode_literal(h, r);
        assert(h + (percent_decoded(r) + percent_decoded(y)) =~= h + percent_decoded(r)
            + percent_decoded(y));
    }
}

proof fn lemma_not_percent(c: char)
    ensures
        c as u32 == 37 ==> c == '%',
{
}

proof fn lemma_suffix_escapes(a: Seq<char>, n: int)
    requires
        !has_bad_escape(a),
        0 <= n <= a.len(),
    ensures
        !has_bad_escape(a.skip(n)),
{
    let t = a.skip(n);
    assert forall|i: int| 0 <= i < t.len() implies !#[trigger] is_bad_percent(t, i) by {
        assert(!is_bad_percent(a, i + n));
        assert(t[i] == a[i + n]);
        if i + 2 < t.len() {
            assert(t[i + 1] == a[i + n + 1]);
            assert(t[i + 2] == a[i + n + 2]);
        }
    }
}

/// Decoding distributes over a slash: no escape spans it.
pub proof fn lemma_decode_concat(head: Seq<char>, tail: Seq<char>)
    requires
        !has_bad_escape(head + tail),
        tail.len() > 0,
        tail[0] == '/',
    ensures
        percent_decoded(encode_utf8(head + tail)) == percent_decoded(encode_utf8(head))
            + percent_decoded(encode_utf8(tail)),
        !has_bad_escape(head),
{
    let whole = head + tail;
    assert forall|i: int| 0 <= i < head.len() implies !#[trigger] is_bad_percent(head, i) by {
        assert(!is_bad_percent(whole, i));
        assert(whole[i] == head[i]);
        assert(whole[head.len() as int] == '/');
        if head[i] == '%' {
            assert(i + 1 != head.len());
            assert(i + 2 != head.len());
            assert(whole[i + 1] == head[i + 1]);
            assert(whole[i + 2] == head[i + 2]);
        }
    }
    text::lemma_encode_concat(head, tail);
    lemma_decode_complete(head, encode_utf8(tail));
}

} // verus!
