//! The rope that holds a buffer's text, seen as a sequence of UTF-8 bytes.

use ropey::{LineType, Rope};
use vstd::prelude::*;
use vstd::utf8::*;

use crate::text::{cut_out, full_line, line_of, line_start, line_total, on_char, spliced_in};

verus! {

#[verifier::external_type_specification]
#[verifier::external_body]
pub struct ExRope(Rope);

/// The bytes that a rope holds.
pub uninterp spec fn rope_bytes(rope: Rope) -> Seq<u8>;

/// The character that begins at byte offset `b` of `t`.
pub open spec fn char_at(t: Seq<u8>, b: int) -> char {
    decode_first_scalar(t.subrange(b, t.len() as int)) as char
}

/// The character that begins at byte offset `b` of `t`, if one does.
pub open spec fn get_char(t: Seq<u8>, b: int) -> Option<char> {
    if b < t.len() && is_char_boundary(t, b) {
        Some(char_at(t, b))
    } else {
        None
    }
}

/// The last offset not after `b` that lies between characters.
pub open spec fn floor_char(t: Seq<u8>, b: int) -> int
    decreases b,
{
    if b <= 0 || is_char_boundary(t, b) {
        b
    } else {
        floor_char(t, b - 1)
    }
}

/// `Rope::from_str`: a rope that holds the bytes of the string.
#[verifier::external_body]
pub(crate) fn rope_from_str(s: &str) -> (r: Rope)
    ensures
        rope_bytes(r) == encode_utf8(s@),
        rope_bytes(r).len() <= usize::MAX,
{
    Rope::from_str(s)
}

/// `Rope::clone`: a rope that holds the same bytes.
#[verifier::external_body]
pub(crate) fn rope_clone(rope: &Rope) -> (r: Rope)
    ensures
        rope_bytes(r) == rope_bytes(*rope),
{
    rope.clone()
}

/// `Rope::len`: the number of bytes.
#[verifier::external_body]
pub(crate) fn rope_len(rope: &Rope) -> (n: usize)
    ensures
        n == rope_bytes(*rope).len(),
{
    rope.len()
}

/// `Rope::len_lines` under `LineType::LF_CR`: one more than the number of line
/// breaks, where a break is a line feed, a carriage return, or the pair.
#[verifier::external_body]
pub(crate) fn rope_len_lines(rope: &Rope) -> (n: usize)
    ensures
        n == line_total(rope_bytes(*rope)),
{
    rope.len_lines(LineType::LF_CR)
}

/// `Rope::line_to_byte_idx` under `LineType::LF_CR`: the offset at which a line
/// begins, and the end of the text for the line one past the last. It panics on
/// any later line.
#[verifier::external_body]
pub(crate) fn rope_line_start(rope: &Rope, line: usize) -> (b: usize)
    requires
        line <= line_total(rope_bytes(*rope)),
    ensures
        b == line_start(rope_bytes(*rope), line as int),
{
    rope.line_to_byte_idx(line, LineType::LF_CR)
}

/// `Rope::byte_to_line_idx` under `LineType::LF_CR`: the number of line breaks
/// that end at or before the offset. It panics past the end of the text.
#[verifier::external_body]
pub(crate) fn rope_line_of(rope: &Rope, byte: usize) -> (n: usize)
    requires
        byte <= rope_bytes(*rope).len(),
    ensures
        n == line_of(rope_bytes(*rope), byte as int),
{
    rope.byte_to_line_idx(byte, LineType::LF_CR)
}

/// `Rope::line` under `LineType::LF_CR`, as an owned string: the bytes of the
/// line with the break that ends it. It panics on a line that is not there.
#[verifier::external_body]
pub(crate) fn rope_line(rope: &Rope, line: usize) -> (s: String)
    requires
        line < line_total(rope_bytes(*rope)),
        valid_utf8(rope_bytes(*rope)),
    ensures
        encode_utf8(s@) == full_line(rope_bytes(*rope), line as int),
{
    rope.line(line, LineType::LF_CR).to_string()
}

/// `Rope::get_char`: the character that begins at the offset; none at or past
/// the end of the text, and none inside a character.
#[verifier::external_body]
pub(crate) fn rope_char(rope: &Rope, byte: usize) -> (c: Option<char>)
    requires
        valid_utf8(rope_bytes(*rope)),
    ensures
        c == get_char(rope_bytes(*rope), byte as int),
{
    rope.get_char(byte).ok()
}

/// `Rope::slice`, as an owned string: the bytes of the range. It panics on a
/// range that is inverted, leaves the text or cuts a character.
#[verifier::external_body]
pub(crate) fn rope_slice(rope: &Rope, start: usize, end: usize) -> (s: String)
    requires
        valid_utf8(rope_bytes(*rope)),
        start <= end,
        on_char(rope_bytes(*rope), start as int),
        on_char(rope_bytes(*rope), end as int),
    ensures
        encode_utf8(s@) == rope_bytes(*rope).subrange(start as int, end as int),
{
    rope.slice(start..end).to_string()
}

/// `Rope::floor_char_boundary`: the last offset not after `byte` that is on a
/// character boundary. It panics past the end of the text.
#[verifier::external_body]
pub(crate) fn rope_floor_char(rope: &Rope, byte: usize) -> (b: usize)
    requires
        valid_utf8(rope_bytes(*rope)),
        byte <= rope_bytes(*rope).len(),
    ensures
        b == floor_char(rope_bytes(*rope), byte as int),
{
    rope.floor_char_boundary(byte)
}

/// `Rope`'s `Display`: the whole text as a string.
#[verifier::external_body]
pub(crate) fn rope_to_string(rope: &Rope) -> (s: String)
    requires
        valid_utf8(rope_bytes(*rope)),
    ensures
        encode_utf8(s@) == rope_bytes(*rope),
{
    rope.to_string()
}

/// `Rope::insert`: the string goes in at the offset. It panics past the end of
/// the text and inside a character. A rope that exists fits in memory, so its
/// length is a `usize`.
#[verifier::external_body]
pub(crate) fn rope_insert(rope: &mut Rope, byte: usize, s: &str)
    requires
        valid_utf8(rope_bytes(*old(rope))),
        on_char(rope_bytes(*old(rope)), byte as int),
    ensures
        rope_bytes(*final(rope)) == spliced_in(
            rope_bytes(*old(rope)),
            byte as int,
            encode_utf8(s@),
        ),
        rope_bytes(*final(rope)).len() <= usize::MAX,
{
    rope.insert(byte, s)
}

/// `Rope::remove`: the bytes of the range go. It panics on a range that is
/// inverted, leaves the text or cuts a character.
#[verifier::external_body]
pub(crate) fn rope_remove(rope: &mut Rope, start: usize, end: usize)
    requires
        valid_utf8(rope_bytes(*old(rope))),
        start <= end,
        on_char(rope_bytes(*old(rope)), start as int),
        on_char(rope_bytes(*old(rope)), end as int),
    ensures
        rope_bytes(*final(rope)) == cut_out(rope_bytes(*old(rope)), start as int, end as int),
{
    rope.remove(start..end)
}

/// The character at an ASCII byte is that byte's, and no other character is
/// ASCII.
pub proof fn lemma_char_at_ascii(t: Seq<u8>, b: int)
    requires
        valid_utf8(t),
        0 <= b < t.len(),
        is_char_boundary(t, b),
    ensures
        t[b] < 0x80 ==> char_at(t, b) == t[b] as char,
        t[b] >= 0x80 ==> char_at(t, b) as u32 >= 0x80,
{
    valid_utf8_split(t, b);
    let r = t.subrange(b, t.len() as int);
    assert(valid_utf8(r));
    assert(r[0] == t[b]);
    let x = t[b];
    if x < 0x80 {
        assert((x & 0x7f) as u32 == x as u32) by (bit_vector)
            requires
                x < 0x80,
        ;
        assert(decode_first_scalar(r) == x as u32);
    } else {
        decode_utf8_first_scalar(r);
        assert(take_first_scalar(r).len() == length_of_first_scalar(r));
        let c = char_at(t, b);
        if (c as u32) < 0x80 {
            assert(encode_scalar(c as u32).len() == 1);
            assert(false);
        }
    }
}

} // verus!
