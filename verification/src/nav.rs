//! Moving through a buffer's text: graphemes, words, columns.

use vstd::prelude::*;
use vstd::utf8::*;

use crate::buffer::Buffer;
use crate::rope::{floor_char, get_char, rope_floor_char};
use crate::strings::{alphanumeric, is_alphanumeric};
use crate::text::{
    break_ends_at, buffer_text, edit_lines, full_line, lemma_after_ascii_on_char,
    lemma_buffer_lines, lemma_line_of, lemma_line_start, lemma_line_start_on_char, line_of,
    line_start, line_text, line_total, on_char, CR, LF,
};
use crate::unicode::{
    bound, bound_upto, floor_grapheme, lemma_bound_from, lemma_bound_upto, lemma_on_char_prefix,
    next_bound, next_grapheme, prev_bound, prev_grapheme,
};
use crate::window::Cursor;

verus! {

/// The three kinds of characters that words are made of and parted by.
#[derive(Debug, Clone, Copy, PartialEq, Eq, Structural)]
pub enum CharClass {
    Blank,
    Word,
    Punct,
}

pub open spec fn class_of(c: char) -> CharClass {
    if c == ' ' || c == '\t' || c == '\n' || c == '\r' {
        CharClass::Blank
    } else if alphanumeric(c) || c == '_' {
        CharClass::Word
    } else {
        CharClass::Punct
    }
}

pub fn char_class(c: char) -> (r: CharClass)
    ensures
        r == class_of(c),
{
    if c == ' ' || c == '\t' || c == '\n' || c == '\r' {
        CharClass::Blank
    } else if is_alphanumeric(c) || c == '_' {
        CharClass::Word
    } else {
        CharClass::Punct
    }
}

/// The line of an offset, without its line break.
pub open spec fn own_line(t: Seq<u8>, i: int) -> Seq<u8> {
    line_text(t, line_of(t, i) as int)
}

/// Where the line of an offset begins.
pub open spec fn own_start(t: Seq<u8>, i: int) -> int {
    line_start(t, line_of(t, i) as int)
}

/// The character that begins at an offset; a blank where none does.
pub open spec fn char_or_blank(t: Seq<u8>, i: int) -> char {
    match get_char(t, i) {
        Some(c) => c,
        None => ' ',
    }
}

/// The last offset of the text: that of its final line feed.
pub open spec fn last_idx(t: Seq<u8>) -> int {
    if t.len() > 0 {
        t.len() - 1
    } else {
        0
    }
}

/// The offset one grapheme on. The bytes of a line break count one each.
pub open spec fn next_idx(t: Seq<u8>, i: int) -> int {
    let rel = i - own_start(t, i);
    if rel < own_line(t, i).len() {
        own_start(t, i) + next_bound(own_line(t, i), rel)
    } else if i < t.len() {
        i + 1
    } else {
        t.len() as int
    }
}

/// The offset one grapheme back.
pub open spec fn prev_idx(t: Seq<u8>, i: int) -> int {
    let rel = i - own_start(t, i);
    if i <= 0 {
        0
    } else if rel == 0 {
        i - 1
    } else {
        own_start(t, i) + prev_bound(
            own_line(t, i),
            if rel < own_line(t, i).len() {
                rel
            } else {
                own_line(t, i).len() as int
            },
        )
    }
}

/// An offset moved back to the start of the grapheme that it lies in, or to the
/// end of its line.
pub open spec fn floor_idx(t: Seq<u8>, i: int) -> int {
    let rel = i - own_start(t, i);
    own_start(t, i) + bound_upto(
        own_line(t, i),
        if rel < own_line(t, i).len() {
            rel
        } else {
            own_line(t, i).len() as int
        },
    )
}

/// An offset moved on to the end of the grapheme that it lies in.
pub open spec fn ceil_idx(t: Seq<u8>, i: int) -> int {
    let f = floor_idx(t, i);
    if f >= i {
        f
    } else {
        next_idx(t, f)
    }
}

/// A line is UTF-8, lies inside its full extent, and is followed by its line break.
pub proof fn lemma_line_text(t: Seq<u8>, n: int)
    requires
        buffer_text(t),
        0 <= n,
    ensures
        valid_utf8(line_text(t, n)),
        0 <= line_start(t, n) <= t.len(),
        line_start(t, n) + line_text(t, n).len() <= line_start(t, n + 1) <= t.len(),
        n < edit_lines(t) ==> line_text(t, n) == t.subrange(
            line_start(t, n),
            line_start(t, n) + line_text(t, n).len(),
        ),
        n >= edit_lines(t) ==> line_start(t, n) == t.len(),
        on_char(t, line_start(t, n)),
        on_char(t, line_start(t, n) + line_text(t, n).len()),
        forall|i: int|
            line_start(t, n) + line_text(t, n).len() <= i < line_start(t, n + 1) ==> #[trigger] t[i]
                == LF || t[i] == CR,
{
    lemma_line_start(t, n);
    lemma_line_start(t, n + 1);
    lemma_line_start_on_char(t, n);
    lemma_line_start_on_char(t, n + 1);
    lemma_buffer_lines(t);
    let a = line_start(t, n);
    let b = line_start(t, n + 1);
    if n < edit_lines(t) {
        let f = full_line(t, n);
        let l = line_text(t, n);
        assert(f == t.subrange(a, b));
        if f.len() > 0 && f.last() == LF {
            assert(t[b - 1] == LF);
            lemma_after_ascii_on_char(t, b - 1);
            if f.drop_last().len() > 0 && f.drop_last().last() == CR {
                assert(t[b - 2] == CR);
                lemma_after_ascii_on_char(t, b - 2);
            }
        }
        let e = a + l.len();
        assert(l =~= t.subrange(a, e));
        valid_utf8_split(t, e);
        lemma_on_char_prefix(t, e, a);
        valid_utf8_split(t.subrange(0, e), a);
        assert(t.subrange(0, e).subrange(a, e) =~= l);
    } else {
        assert(line_text(t, n).len() == 0);
        reveal_with_fuel(valid_utf8, 1);
        assert(edit_lines(t) + 1 == line_total(t));
    }
}

/// An offset between characters of a line lies between characters of the text.
pub proof fn lemma_line_offset(t: Seq<u8>, n: int, col: int)
    requires
        buffer_text(t),
        0 <= n,
        on_char(line_text(t, n), col),
    ensures
        on_char(t, line_start(t, n) + col),
        line_start(t, n) + col <= t.len(),
{
    lemma_line_text(t, n);
    let l = line_text(t, n);
    let a = line_start(t, n);
    if col < l.len() {
        is_char_boundary_iff_not_is_continuation_byte(l, col);
        assert(l[col] == t[a + col]);
        is_char_boundary_iff_not_is_continuation_byte(t, a + col);
    }
}

/// An offset of the text between characters lies between characters of its line, as
/// far as that reaches.
pub proof fn lemma_own_line(t: Seq<u8>, i: int)
    requires
        buffer_text(t),
        0 <= i <= t.len(),
    ensures
        0 <= own_start(t, i) <= i,
        own_start(t, i) + own_line(t, i).len() <= t.len(),
        valid_utf8(own_line(t, i)),
        on_char(t, own_start(t, i)),
        on_char(t, i) && i - own_start(t, i) <= own_line(t, i).len() ==> on_char(
            own_line(t, i),
            i - own_start(t, i),
        ),
        i < t.len() && i - own_start(t, i) >= own_line(t, i).len() ==> t[i] == LF || t[i] == CR,
        i == t.len() ==> own_line(t, i).len() == 0 && own_start(t, i) == i,
{
    lemma_line_of(t, i);
    let n = line_of(t, i) as int;
    lemma_line_text(t, n);
    lemma_buffer_lines(t);
    let l = own_line(t, i);
    let a = own_start(t, i);
    let rel = i - a;
    is_char_boundary_start_end_of_seq(l);
    if on_char(t, i) && rel < l.len() {
        assert(l[rel] == t[i]);
        is_char_boundary_iff_not_is_continuation_byte(t, i);
        is_char_boundary_iff_not_is_continuation_byte(l, rel);
    }
}

/// The last byte of the text belongs to no line without its line break.
pub proof fn lemma_line_ends_early(t: Seq<u8>, n: int)
    requires
        buffer_text(t),
        0 <= n < edit_lines(t),
    ensures
        line_start(t, n) + line_text(t, n).len() < t.len(),
{
    lemma_line_text(t, n);
    lemma_line_start(t, n);
    if line_start(t, n + 1) == t.len() {
        let f = full_line(t, n);
        assert(f.last() == t.last());
        assert(line_text(t, n).len() < f.len());
    }
}

pub proof fn lemma_next_idx(t: Seq<u8>, i: int)
    requires
        buffer_text(t),
        0 <= i <= t.len(),
    ensures
        i < t.len() ==> i < next_idx(t, i) <= t.len(),
        i < last_idx(t) ==> next_idx(t, i) <= last_idx(t),
        i == t.len() ==> next_idx(t, i) == t.len(),
        on_char(t, i) ==> on_char(t, next_idx(t, i)),
{
    lemma_own_line(t, i);
    let l = own_line(t, i);
    let a = own_start(t, i);
    let rel = i - a;
    if rel < l.len() {
        lemma_bound_from(l, rel + 1);
        lemma_line_offset(t, line_of(t, i) as int, next_bound(l, rel));
        lemma_line_ends_early(t, line_of(t, i) as int);
    } else if i < t.len() {
        lemma_after_ascii_on_char(t, i);
    }
}

pub proof fn lemma_prev_idx(t: Seq<u8>, i: int)
    requires
        buffer_text(t),
        0 <= i <= t.len(),
    ensures
        0 <= prev_idx(t, i) <= i,
        i > 0 ==> prev_idx(t, i) < i,
        on_char(t, prev_idx(t, i)),
{
    lemma_own_line(t, i);
    is_char_boundary_start_end_of_seq(t);
    let l = own_line(t, i);
    let a = own_start(t, i);
    let rel = i - a;
    if i > 0 {
        let n = line_of(t, i) as int;
        if rel == 0 {
            lemma_line_of(t, i);
            lemma_line_start(t, n);
            assert(n > 0);
            assert(break_ends_at(t, i));
            lemma_after_ascii_on_char(t, i - 1);
        } else {
            let r = if rel < l.len() {
                rel
            } else {
                l.len() as int
            };
            lemma_bound_upto(l, r - 1);
            lemma_line_offset(t, n, prev_bound(l, r));
        }
    }
}

pub proof fn lemma_floor_idx(t: Seq<u8>, i: int)
    requires
        buffer_text(t),
        0 <= i <= t.len(),
    ensures
        0 <= floor_idx(t, i) <= i,
        on_char(t, floor_idx(t, i)),
{
    lemma_own_line(t, i);
    let l = own_line(t, i);
    let rel = i - own_start(t, i);
    let r = if rel < l.len() {
        rel
    } else {
        l.len() as int
    };
    lemma_bound_upto(l, r);
    lemma_line_offset(t, line_of(t, i) as int, bound_upto(l, r));
}

pub proof fn lemma_ceil_idx(t: Seq<u8>, i: int)
    requires
        buffer_text(t),
        0 <= i <= t.len(),
    ensures
        floor_idx(t, i) <= ceil_idx(t, i) <= t.len(),
        on_char(t, ceil_idx(t, i)),
{
    lemma_floor_idx(t, i);
    lemma_next_idx(t, floor_idx(t, i));
}

/// From `i` on, past every grapheme before `limit` whose character `p` holds of.
pub open spec fn past(t: Seq<u8>, i: int, limit: int, p: spec_fn(char) -> bool) -> int
    decreases
            if i < limit {
                limit - i
            } else {
                0
            },
{
    if i < limit && p(char_or_blank(t, i)) && i < next_idx(t, i) {
        past(t, next_idx(t, i), limit, p)
    } else {
        i
    }
}

/// From `i` back, as long as `p` holds of the character at hand and there is one
/// before it.
pub open spec fn back_off(t: Seq<u8>, i: int, p: spec_fn(char) -> bool) -> int
    decreases i,
{
    if i > 0 && p(char_or_blank(t, i)) && 0 <= prev_idx(t, i) < i {
        back_off(t, prev_idx(t, i), p)
    } else {
        i
    }
}

/// From `i` back, over every grapheme before it whose character `p` holds of.
pub open spec fn back_over(t: Seq<u8>, i: int, p: spec_fn(char) -> bool) -> int
    decreases i,
{
    if i > 0 && p(char_or_blank(t, prev_idx(t, i))) && 0 <= prev_idx(t, i) < i {
        back_over(t, prev_idx(t, i), p)
    } else {
        i
    }
}

pub open spec fn of_class(k: CharClass) -> spec_fn(char) -> bool {
    |c: char| class_of(c) == k
}

/// Where `w` goes: past the rest of the word, then past blanks.
pub open spec fn word_forward_of(t: Seq<u8>, i: int) -> int {
    let last = last_idx(t);
    if i >= last {
        i
    } else {
        let k = class_of(char_or_blank(t, i));
        let after = if k == CharClass::Blank {
            i
        } else {
            past(t, i, last, of_class(k))
        };
        past(t, after, last, of_class(CharClass::Blank))
    }
}

/// Where `b` goes: back over blanks, then to the start of the word there.
pub open spec fn word_backward_of(t: Seq<u8>, i: int) -> int {
    if i <= 0 {
        0
    } else {
        let j = back_off(t, prev_idx(t, i), of_class(CharClass::Blank));
        if j <= 0 {
            0
        } else {
            back_over(t, j, of_class(class_of(char_or_blank(t, j))))
        }
    }
}

/// From `i` on, to the last grapheme not after `last` before which the class does
/// not change.
pub open spec fn run_end(t: Seq<u8>, i: int, last: int, k: CharClass) -> int
    decreases last - i,
{
    let n = next_idx(t, i);
    if i < last && i < n <= last && class_of(char_or_blank(t, n)) == k {
        run_end(t, n, last, k)
    } else {
        i
    }
}

/// Where `e` goes: on to the next word's last grapheme.
pub open spec fn word_end_of(t: Seq<u8>, i: int) -> int {
    let last = last_idx(t);
    if i >= last {
        i
    } else {
        let j = past(t, next_idx(t, i), last, of_class(CharClass::Blank));
        run_end(t, j, last, class_of(char_or_blank(t, j)))
    }
}

/// `n` steps of `f` from `i`.
pub open spec fn steps(t: Seq<u8>, i: int, n: nat, f: spec_fn(Seq<u8>, int) -> int) -> int
    decreases n,
{
    if n == 0 {
        i
    } else {
        f(t, steps(t, i, (n - 1) as nat, f))
    }
}

/// How many blanks and tabs `l` begins with.
pub open spec fn indent_len(l: Seq<u8>, i: int) -> int
    decreases l.len() - i,
{
    if 0 <= i < l.len() && (l[i] == 32 || l[i] == 9) {
        indent_len(l, i + 1)
    } else {
        i
    }
}

/// A position whose column is moved back to a bound of its line.
pub open spec fn snapped(t: Seq<u8>, c: Cursor) -> Cursor {
    let l = line_text(t, c.line as int);
    Cursor {
        line: c.line,
        col: bound_upto(
            l,
            if c.col < l.len() {
                c.col as int
            } else {
                l.len() as int
            },
        ) as usize,
    }
}

/// The position of an offset, on a bound of its line.
pub open spec fn cursor_at(t: Seq<u8>, i: int) -> Cursor {
    let b = floor_char(t, i);
    snapped(t, Cursor { line: line_of(t, b) as usize, col: (b - own_start(t, b)) as usize })
}

/// A position in the text: an editable line, and an offset between its characters.
pub open spec fn valid_cursor(t: Seq<u8>, c: Cursor) -> bool {
    c.line < edit_lines(t) && on_char(line_text(t, c.line as int), c.col as int)
}

/// The offset of a position.
pub open spec fn cursor_idx(t: Seq<u8>, c: Cursor) -> int {
    line_start(t, c.line as int) + c.col
}

/// The last editable line.
pub open spec fn last_line_of(t: Seq<u8>) -> int {
    if edit_lines(t) == 0 {
        0
    } else {
        edit_lines(t) - 1
    }
}

pub proof fn lemma_floor_char(t: Seq<u8>, b: int)
    requires
        valid_utf8(t),
        0 <= b <= t.len(),
    ensures
        0 <= floor_char(t, b) <= b,
        on_char(t, floor_char(t, b)),
    decreases b,
{
    is_char_boundary_start_end_of_seq(t);
    if b > 0 && !is_char_boundary(t, b) {
        lemma_floor_char(t, b - 1);
    }
}

/// A snapped position on an editable line is a position in the text.
pub proof fn lemma_snapped(t: Seq<u8>, c: Cursor)
    requires
        buffer_text(t),
        c.line < edit_lines(t),
    ensures
        valid_cursor(t, snapped(t, c)),
        snapped(t, c).col <= c.col,
        bound(line_text(t, c.line as int), snapped(t, c).col as int),
{
    lemma_line_text(t, c.line as int);
    let l = line_text(t, c.line as int);
    lemma_bound_upto(
        l,
        if c.col < l.len() {
            c.col as int
        } else {
            l.len() as int
        },
    );
}

/// The position of an offset inside the text is a position in it, not after the
/// offset.
pub proof fn lemma_cursor_at(t: Seq<u8>, i: int)
    requires
        buffer_text(t),
        0 <= i < t.len(),
    ensures
        valid_cursor(t, cursor_at(t, i)),
        cursor_idx(t, cursor_at(t, i)) <= i,
{
    lemma_floor_char(t, i);
    let b = floor_char(t, i);
    lemma_own_line(t, b);
    lemma_line_of(t, b);
    lemma_buffer_lines(t);
    let n = line_of(t, b) as int;
    if n >= edit_lines(t) {
        assert(line_start(t, n) == t.len());
        assert(false);
    }
    let c = Cursor { line: n as usize, col: (b - own_start(t, b)) as usize };
    lemma_line_of_bounds_usize(t, b);
    lemma_snapped(t, c);
}

/// The line of an offset inside the text is an editable one.
pub proof fn lemma_line_of_inside(t: Seq<u8>, i: int)
    requires
        buffer_text(t),
        0 <= i < t.len(),
    ensures
        line_of(t, i) < edit_lines(t),
{
    lemma_line_of(t, i);
    lemma_buffer_lines(t);
    let n = line_of(t, i) as int;
    if n >= edit_lines(t) {
        assert(line_start(t, n) == t.len());
    }
}

proof fn lemma_line_of_bounds_usize(t: Seq<u8>, b: int)
    requires
        0 <= b <= t.len() <= usize::MAX,
    ensures
        line_of(t, b) <= usize::MAX,
{
    crate::text::lemma_line_of_bounds(t, b);
}

impl Buffer {
    /// The buffer's text is UTF-8 and ends in a line feed.
    pub open spec fn settled(&self) -> bool {
        self.wf() && buffer_text(self@.text)
    }

    /// The last editable line.
    pub fn last_line(&self) -> (n: usize)
        requires
            self.settled(),
        ensures
            n == last_line_of(self@.text),
            n < edit_lines(self@.text),
    {
        proof {
            lemma_buffer_lines(self@.text);
        }
        self.line_count().saturating_sub(1)
    }

    /// The offset of the final line feed.
    pub fn last_char_idx(&self) -> (n: usize)
        requires
            self.wf(),
        ensures
            n == last_idx(self@.text),
    {
        self.len_bytes().saturating_sub(1)
    }

    /// The character at an offset; a blank where none begins.
    pub fn char_or_blank(&self, idx: usize) -> (c: char)
        requires
            self.wf(),
        ensures
            c == char_or_blank(self@.text, idx as int),
    {
        match self.char_at(idx) {
            Some(c) => c,
            None => ' ',
        }
    }

    /// The offset one grapheme on.
    pub fn next_grapheme_idx(&self, idx: usize) -> (r: usize)
        requires
            self.settled(),
            idx <= self@.text.len(),
        ensures
            r == next_idx(self@.text, idx as int),
            idx < self@.text.len() ==> idx < r,
            idx < last_idx(self@.text) ==> r <= last_idx(self@.text),
            idx <= r <= self@.text.len(),
            on_char(self@.text, idx as int) ==> on_char(self@.text, r as int),
    {
        proof {
            lemma_next_idx(self@.text, idx as int);
            lemma_own_line(self@.text, idx as int);
        }
        let line: usize = self.byte_to_line(idx);
        let start: usize = self.line_start(line);
        let s = self.line(line);
        let rel: usize = idx - start;
        if rel < s.as_str().as_bytes().len() {
            start + next_grapheme(s.as_str(), rel)
        } else if idx < self.len_bytes() {
            idx + 1
        } else {
            idx
        }
    }

    /// The offset one grapheme back.
    pub fn prev_grapheme_idx(&self, idx: usize) -> (r: usize)
        requires
            self.settled(),
            idx <= self@.text.len(),
        ensures
            r == prev_idx(self@.text, idx as int),
            idx > 0 ==> r < idx,
            r <= idx,
            on_char(self@.text, r as int),
    {
        proof {
            lemma_prev_idx(self@.text, idx as int);
            lemma_own_line(self@.text, idx as int);
        }
        if idx == 0 {
            return 0;
        }
        let line: usize = self.byte_to_line(idx);
        let start: usize = self.line_start(line);
        let s = self.line(line);
        let rel: usize = idx - start;
        if rel == 0 {
            idx - 1
        } else {
            let len: usize = s.as_str().as_bytes().len();
            let at: usize = if rel < len {
                rel
            } else {
                len
            };
            start + prev_grapheme(s.as_str(), at)
        }
    }

    /// An offset moved back to a grapheme's start.
    pub fn grapheme_floor_abs(&self, idx: usize) -> (r: usize)
        requires
            self.settled(),
            idx <= self@.text.len(),
        ensures
            r == floor_idx(self@.text, idx as int),
            r <= idx,
            on_char(self@.text, r as int),
    {
        proof {
            lemma_floor_idx(self@.text, idx as int);
            lemma_own_line(self@.text, idx as int);
        }
        let line: usize = self.byte_to_line(idx);
        let start: usize = self.line_start(line);
        let s = self.line(line);
        let rel: usize = idx - start;
        let len: usize = s.as_str().as_bytes().len();
        let at: usize = if rel < len {
            rel
        } else {
            len
        };
        start + floor_grapheme(s.as_str(), at)
    }

    /// An offset moved on to a grapheme's end.
    pub fn grapheme_ceil_abs(&self, idx: usize) -> (r: usize)
        requires
            self.settled(),
            idx <= self@.text.len(),
        ensures
            r == ceil_idx(self@.text, idx as int),
            r <= self@.text.len(),
            on_char(self@.text, r as int),
    {
        proof {
            lemma_ceil_idx(self@.text, idx as int);
        }
        let floored: usize = self.grapheme_floor_abs(idx);
        if floored >= idx {
            floored
        } else {
            self.next_grapheme_idx(floored)
        }
    }

    fn skip_class(&self, from: usize, limit: usize, k: CharClass) -> (r: usize)
        requires
            self.settled(),
            from <= self@.text.len(),
            limit <= self@.text.len(),
        ensures
            r == past(self@.text, from as int, limit as int, of_class(k)),
            from <= r <= self@.text.len(),
    {
        let mut idx: usize = from;
        while idx < limit && char_class(self.char_or_blank(idx)) == k
            invariant
                self.settled(),
                from <= idx <= self@.text.len(),
                limit <= self@.text.len(),
                past(self@.text, from as int, limit as int, of_class(k)) == past(
                    self@.text,
                    idx as int,
                    limit as int,
                    of_class(k),
                ),
            decreases self@.text.len() - idx,
        {
            idx = self.next_grapheme_idx(idx);
        }
        idx
    }

    /// Where `w` goes from an offset.
    pub fn word_forward(&self, idx: usize) -> (r: usize)
        requires
            self.settled(),
            idx <= self@.text.len(),
        ensures
            r == word_forward_of(self@.text, idx as int),
            r <= self@.text.len(),
    {
        let last: usize = self.last_char_idx();
        if idx >= last {
            return idx;
        }
        let start = char_class(self.char_or_blank(idx));
        let after: usize = if start != CharClass::Blank {
            self.skip_class(idx, last, start)
        } else {
            idx
        };
        self.skip_class(after, last, CharClass::Blank)
    }

    /// Where `b` goes from an offset.
    pub fn word_backward(&self, from: usize) -> (r: usize)
        requires
            self.settled(),
            from <= self@.text.len(),
        ensures
            r == word_backward_of(self@.text, from as int),
            r <= self@.text.len(),
    {
        if from == 0 {
            return 0;
        }
        let ghost t = self@.text;
        let mut idx: usize = self.prev_grapheme_idx(from);
        let ghost first = idx as int;
        while idx > 0 && char_class(self.char_or_blank(idx)) == CharClass::Blank
            invariant
                self.settled(),
                t == self@.text,
                idx <= t.len(),
                back_off(t, first, of_class(CharClass::Blank)) == back_off(
                    t,
                    idx as int,
                    of_class(CharClass::Blank),
                ),
            decreases idx,
        {
            idx = self.prev_grapheme_idx(idx);
        }
        if idx == 0 {
            return 0;
        }
        let k = char_class(self.char_or_blank(idx));
        while idx > 0
            invariant
                self.settled(),
                t == self@.text,
                idx <= t.len(),
                word_backward_of(t, from as int) == back_over(t, idx as int, of_class(k)),
            decreases idx,
        {
            let prev: usize = self.prev_grapheme_idx(idx);
            if char_class(self.char_or_blank(prev)) != k {
                return idx;
            }
            idx = prev;
        }
        idx
    }

    /// Where `e` goes from an offset.
    pub fn word_end(&self, from: usize) -> (r: usize)
        requires
            self.settled(),
            from <= self@.text.len(),
        ensures
            r == word_end_of(self@.text, from as int),
            r <= self@.text.len(),
    {
        let last: usize = self.last_char_idx();
        if from >= last {
            return from;
        }
        let ghost t = self@.text;
        let next: usize = self.next_grapheme_idx(from);
        let mut idx: usize = self.skip_class(next, last, CharClass::Blank);
        let k = char_class(self.char_or_blank(idx));
        while idx < last
            invariant
                self.settled(),
                t == self@.text,
                idx <= t.len(),
                last <= t.len(),
                word_end_of(t, from as int) == run_end(t, idx as int, last as int, k),
            decreases t.len() - idx,
        {
            let next: usize = self.next_grapheme_idx(idx);
            if next > last || char_class(self.char_or_blank(next)) != k {
                return idx;
            }
            idx = next;
        }
        idx
    }

    /// How many blanks and tabs a line begins with.
    pub fn first_non_blank(&self, line: usize) -> (n: usize)
        requires
            self.wf(),
        ensures
            n == indent_len(line_text(self@.text, line as int), 0),
            n <= line_text(self@.text, line as int).len(),
    {
        let s = self.line(line);
        let b = s.as_str().as_bytes();
        let mut n: usize = 0;
        while n < b.len() && (b[n] == 32 || b[n] == 9)
            invariant
                n <= b@.len(),
                indent_len(b@, 0) == indent_len(b@, n as int),
            decreases b@.len() - n,
        {
            n += 1;
        }
        n
    }

    /// A position moved back to a bound of its line.
    pub fn snap(&self, c: Cursor) -> (r: Cursor)
        requires
            self.settled(),
        ensures
            r == snapped(self@.text, c),
            c.line < edit_lines(self@.text) ==> valid_cursor(self@.text, r),
    {
        proof {
            if c.line < edit_lines(self@.text) {
                lemma_snapped(self@.text, c);
            }
        }
        let s = self.line(c.line);
        let len: usize = s.as_str().as_bytes().len();
        let at: usize = if c.col < len {
            c.col
        } else {
            len
        };
        Cursor { line: c.line, col: floor_grapheme(s.as_str(), at) }
    }

    /// The position of an offset.
    pub fn position_of(&self, idx: usize) -> (r: Cursor)
        requires
            self.settled(),
            idx <= self@.text.len(),
        ensures
            r == cursor_at(self@.text, idx as int),
            idx < self@.text.len() ==> valid_cursor(self@.text, r),
    {
        proof {
            lemma_floor_char(self@.text, idx as int);
            if idx < self@.text.len() {
                lemma_cursor_at(self@.text, idx as int);
            }
            lemma_own_line(self@.text, floor_char(self@.text, idx as int));
        }
        let b: usize = rope_floor_char(&self.text, idx);
        let line: usize = self.byte_to_line(b);
        let col: usize = b - self.line_start(line);
        self.snap(Cursor { line, col })
    }

}

} // verus!
