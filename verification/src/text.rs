//! Cutting text: the terminator off a line, the span of a match out of a
//! line, and white space off both ends of a captured name.

use vstd::prelude::*;
use vstd::string::{StrSliceExecFns, StringSliceAdditionalSpecFns};
use vstd::utf8::{
    decode_utf8, encode_utf8, encode_utf8_decode_utf8, encode_utf8_valid_utf8, is_char_boundary,
    is_char_boundary_iff_not_is_continuation_byte, is_char_boundary_start_end_of_seq,
    valid_utf8_split,
};

verus! {

/// Whether the bytes from `start` up to `end` of the encoding of `line` are
/// the encoding of whole characters.
pub open spec fn is_span(line: Seq<char>, start: int, end: int) -> bool {
    &&& 0 <= start <= end <= encode_utf8(line).len()
    &&& is_char_boundary(encode_utf8(line), start)
    &&& is_char_boundary(encode_utf8(line), end)
}

/// The text that the bytes from `start` up to `end` of `line` encode, `None`
/// where they are no span of the line.
pub open spec fn span_text(line: Seq<char>, start: int, end: int) -> Option<Seq<char>> {
    if is_span(line, start, end) {
        Some(decode_utf8(encode_utf8(line).subrange(start, end)))
    } else {
        None
    }
}

/// Whether `c` is white space: one of the 25 characters to which Unicode
/// gives `White_Space`.
pub open spec fn is_white_space(c: char) -> bool {
    let code = c as u32;
    ||| 0x09 <= code <= 0x0D
    ||| code == 0x20
    ||| code == 0x85
    ||| code == 0xA0
    ||| code == 0x1680
    ||| 0x2000 <= code <= 0x200A
    ||| code == 0x2028
    ||| code == 0x2029
    ||| code == 0x202F
    ||| code == 0x205F
    ||| code == 0x3000
}

/// `line` without the line feed that ends it, if one does.
pub open spec fn without_terminator(line: Seq<char>) -> Seq<char> {
    if line.len() > 0 && line.last() == '\n' {
        line.drop_last()
    } else {
        line
    }
}

/// `text` without the white space it begins with.
pub open spec fn trim_start(text: Seq<char>) -> Seq<char>
    decreases text.len(),
{
    if text.len() > 0 && is_white_space(text.first()) {
        trim_start(text.drop_first())
    } else {
        text
    }
}

/// `text` without the white space it ends with.
pub open spec fn trim_end(text: Seq<char>) -> Seq<char>
    decreases text.len(),
{
    if text.len() > 0 && is_white_space(text.last()) {
        trim_end(text.drop_last())
    } else {
        text
    }
}

/// `text` without the white space at either end.
pub open spec fn trimmed(text: Seq<char>) -> Seq<char> {
    trim_end(trim_start(text))
}

/// Whether `c` is white space, as `char::is_whitespace` of std tells it.
pub fn is_whitespace(c: char) -> (r: bool)
    ensures
        r == is_white_space(c),
{
    let code: u32 = c as u32;
    (0x09 <= code && code <= 0x0D) || code == 0x20 || code == 0x85 || code == 0xA0 || code
        == 0x1680 || (0x2000 <= code && code <= 0x200A) || code == 0x2028 || code == 0x2029
        || code == 0x202F || code == 0x205F || code == 0x3000
}

/// `line` without the line feed that ends it, if one does.
pub fn strip_terminator<'a>(line: &'a str) -> (r: &'a str)
    ensures
        r@ == without_terminator(line@),
{
    let n = line.unicode_len();
    if n > 0 && line.get_char(n - 1) == '\n' {
        assert(line@.drop_last() == line@.subrange(0, n - 1));
        line.substring_char(0, n - 1)
    } else {
        line
    }
}

/// The part of `line` that a match from byte `start` up to byte `end` covers.
/// Offsets that leave the line or split a character give `None`.
pub fn slice_span<'a>(line: &'a str, start: usize, end: usize) -> (r: Option<&'a str>)
    ensures
        r.deep_view() == span_text(line@, start as int, end as int),
{
    let len = line.as_bytes().len();
    if start > end || end > len || !line.is_char_boundary(start) || !line.is_char_boundary(end) {
        return None;
    }
    let (_, tail) = line.split_at(start);
    proof {
        let bytes = line.spec_bytes();
        encode_utf8_valid_utf8(line@);
        encode_utf8_valid_utf8(tail@);
        valid_utf8_split(bytes, start as int);
        assert(tail.spec_bytes() == bytes.subrange(start as int, bytes.len() as int));
        if end < bytes.len() {
            is_char_boundary_iff_not_is_continuation_byte(bytes, end as int);
            is_char_boundary_iff_not_is_continuation_byte(tail.spec_bytes(), end - start);
        } else {
            is_char_boundary_start_end_of_seq(tail.spec_bytes());
        }
    }
    let (text, _) = tail.split_at(end - start);
    proof {
        let bytes = line.spec_bytes();
        assert(text.spec_bytes() == bytes.subrange(start as int, end as int));
        encode_utf8_decode_utf8(text@);
    }
    Some(text)
}

/// `text` without the white space at either end, as `str::trim` of std gives it.
pub fn trim<'a>(text: &'a str) -> (r: &'a str)
    ensures
        r@ == trimmed(text@),
{
    let n = text.unicode_len();
    let mut start: usize = 0;
    assert(text@.subrange(0, n as int) == text@);
    while start < n && is_whitespace(text.get_char(start))
        invariant
            start <= n,
            n == text@.len(),
            trim_start(text@) == trim_start(text@.subrange(start as int, n as int)),
        decreases n - start,
    {
        proof {
            let rest = text@.subrange(start as int, n as int);
            assert(rest.first() == text@[start as int]);
            assert(rest.drop_first() == text@.subrange(start + 1, n as int));
        }
        start += 1;
    }
    let mut end: usize = n;
    while end > start && is_whitespace(text.get_char(end - 1))
        invariant
            start <= end <= n,
            n == text@.len(),
            trim_end(text@.subrange(start as int, n as int)) == trim_end(
                text@.subrange(start as int, end as int),
            ),
        decreases end - start,
    {
        proof {
            let rest = text@.subrange(start as int, end as int);
            assert(rest.last() == text@[end - 1]);
            assert(rest.drop_last() == text@.subrange(start as int, end - 1));
        }
        end -= 1;
    }
    text.substring_char(start, end)
}

} // verus!
