//! The text of a buffer as a byte sequence: where its lines begin and end.
//!
//! A line break is a line feed, a carriage return, or the two in that order,
//! counted once. A line owns the break that ends it.

use vstd::prelude::*;
use vstd::utf8::*;

verus! {

/// The line feed byte.
pub const LF: u8 = 10;

/// The carriage return byte.
pub const CR: u8 = 13;

/// A line break ends just before byte offset `i`.
pub open spec fn break_ends_at(t: Seq<u8>, i: int) -> bool {
    0 < i <= t.len() && (t[i - 1] == LF || (t[i - 1] == CR && (i == t.len() || t[i] != LF)))
}

/// How many line breaks end at or before byte offset `b`: the zero-based line
/// that the offset lies on.
pub open spec fn line_of(t: Seq<u8>, b: int) -> nat
    decreases b,
{
    if b <= 0 {
        0
    } else {
        line_of(t, b - 1) + if break_ends_at(t, b) {
            1nat
        } else {
            0nat
        }
    }
}

/// The first offset after `b` at which a line begins, or the end of the text.
pub open spec fn next_line_start(t: Seq<u8>, b: int) -> int
    decreases t.len() - b,
{
    if b >= t.len() {
        t.len() as int
    } else if break_ends_at(t, b + 1) {
        b + 1
    } else {
        next_line_start(t, b + 1)
    }
}

/// The offset at which line `n` begins, or the end of the text for a line past
/// the last.
pub open spec fn line_start(t: Seq<u8>, n: int) -> int
    decreases n,
{
    if n <= 0 {
        0
    } else {
        next_line_start(t, line_start(t, n - 1))
    }
}

/// The number of lines, where a text that ends in a line break has a last line
/// that is empty.
pub open spec fn line_total(t: Seq<u8>) -> nat {
    line_of(t, t.len() as int) + 1
}

/// `s` without one trailing line feed, and without a carriage return before it.
pub open spec fn strip_eol_bytes(s: Seq<u8>) -> Seq<u8> {
    if s.len() > 0 && s.last() == LF {
        let rest = s.drop_last();
        if rest.len() > 0 && rest.last() == CR {
            rest.drop_last()
        } else {
            rest
        }
    } else {
        s
    }
}

/// The bytes of line `n`, its line break included.
pub open spec fn full_line(t: Seq<u8>, n: int) -> Seq<u8> {
    t.subrange(line_start(t, n), line_start(t, n + 1))
}

/// The number of lines that can be edited: all but the last, which is empty in a
/// text that ends in a line break.
pub open spec fn edit_lines(t: Seq<u8>) -> nat {
    line_of(t, t.len() as int)
}

/// The bytes of editable line `n` without its line break; nothing past the last
/// editable line.
pub open spec fn line_text(t: Seq<u8>, n: int) -> Seq<u8> {
    if 0 <= n < edit_lines(t) {
        strip_eol_bytes(full_line(t, n))
    } else {
        Seq::empty()
    }
}

/// The line and the byte column of offset `b`.
pub open spec fn point_of(t: Seq<u8>, b: int) -> (int, int) {
    (line_of(t, b) as int, b - line_start(t, line_of(t, b) as int))
}

/// The text of a buffer: valid UTF-8 that ends in a line feed.
pub open spec fn buffer_text(t: Seq<u8>) -> bool {
    &&& valid_utf8(t)
    &&& t.len() > 0
    &&& t.last() == LF
    &&& t.len() <= usize::MAX
}

/// Byte offset `b` lies between two characters of `t`, or at one of its ends.
pub open spec fn on_char(t: Seq<u8>, b: int) -> bool {
    0 <= b <= t.len() && is_char_boundary(t, b)
}

/// `t` with `s` put in at `b`.
pub open spec fn spliced_in(t: Seq<u8>, b: int, s: Seq<u8>) -> Seq<u8> {
    t.subrange(0, b) + s + t.subrange(b, t.len() as int)
}

/// `t` without the bytes from `a` to `b`.
pub open spec fn cut_out(t: Seq<u8>, a: int, b: int) -> Seq<u8> {
    t.subrange(0, a) + t.subrange(b, t.len() as int)
}

pub proof fn lemma_line_of_bounds(t: Seq<u8>, b: int)
    ensures
        line_of(t, b) <= if b <= 0 { 0 } else { b },
    decreases b,
{
    if b > 0 {
        lemma_line_of_bounds(t, b - 1);
    }
}

pub proof fn lemma_line_of_mono(t: Seq<u8>, a: int, b: int)
    requires
        a <= b,
    ensures
        line_of(t, a) <= line_of(t, b),
    decreases b - a,
{
    if a < b {
        lemma_line_of_mono(t, a, b - 1);
    }
}

pub proof fn lemma_next_line_start(t: Seq<u8>, b: int)
    requires
        0 <= b <= t.len(),
    ensures
        b <= next_line_start(t, b) <= t.len(),
        b < t.len() ==> b < next_line_start(t, b),
        next_line_start(t, b) < t.len() ==> break_ends_at(t, next_line_start(t, b)),
        forall|i: int| b < i < next_line_start(t, b) ==> !break_ends_at(t, i),
        forall|i: int| b <= i < next_line_start(t, b) ==> line_of(t, i) == line_of(t, b),
        line_of(t, next_line_start(t, b)) <= line_of(t, b) + 1,
        b < t.len() && break_ends_at(t, next_line_start(t, b)) ==> line_of(
            t,
            next_line_start(t, b),
        ) == line_of(t, b) + 1,
    decreases t.len() - b,
{
    if b >= t.len() {
    } else if break_ends_at(t, b + 1) {
    } else {
        lemma_next_line_start(t, b + 1);
        let e = next_line_start(t, b + 1);
        assert forall|i: int| b < i < e implies !break_ends_at(t, i) by {
            if i > b + 1 {
            }
        }
        assert forall|i: int| b <= i < e implies line_of(t, i) == line_of(t, b) by {
            if i > b {
                if i >= b + 1 {
                    assert(line_of(t, i) == line_of(t, b + 1));
                }
            }
        }
    }
}

/// A line's start is inside the text, the starts ascend, and the line of a
/// line's start is that line.
pub proof fn lemma_line_start(t: Seq<u8>, n: int)
    ensures
        0 <= line_start(t, n) <= t.len(),
        line_start(t, n) <= line_start(t, n + 1),
        0 <= n < line_total(t) ==> line_of(t, line_start(t, n)) == n,
        0 <= n < edit_lines(t) ==> line_start(t, n) < line_start(t, n + 1),
        0 < n < line_total(t) ==> break_ends_at(t, line_start(t, n)),
        n >= line_total(t) ==> line_start(t, n) == t.len(),
    decreases n,
{
    if n <= 0 {
        lemma_next_line_start(t, 0);
        if edit_lines(t) > 0 && t.len() == 0 {
            assert(false);
        }
    } else {
        lemma_line_start(t, n - 1);
        let p = line_start(t, n - 1);
        lemma_next_line_start(t, p);
        let s = line_start(t, n);
        lemma_next_line_start(t, s);
        if n < line_total(t) {
            if p == t.len() {
                assert(line_of(t, p) == n - 1);
                assert(false);
            }
            if s == t.len() && !break_ends_at(t, s) {
                lemma_line_of_mono(t, p, s);
                assert(line_of(t, s - 1) == line_of(t, p));
                assert(line_of(t, s) == line_of(t, p));
                assert(false);
            }
        } else if n - 1 < line_total(t) {
            // the line before is the last one
            if s < t.len() {
                assert(line_of(t, s) == n);
                lemma_line_of_mono(t, s, t.len() as int);
                assert(false);
            }
        }
        if n < edit_lines(t) && s == t.len() {
            assert(false);
        }
    }
}

pub proof fn lemma_line_start_mono(t: Seq<u8>, m: int, n: int)
    requires
        m <= n,
    ensures
        line_start(t, m) <= line_start(t, n),
    decreases n - m,
{
    if m < n {
        lemma_line_start_mono(t, m, n - 1);
        lemma_line_start(t, n - 1);
    }
}

/// An offset lies between the start of its line and the start of the next.
pub proof fn lemma_line_of(t: Seq<u8>, b: int)
    requires
        0 <= b <= t.len(),
    ensures
        line_of(t, b) < line_total(t),
        line_start(t, line_of(t, b) as int) <= b,
        b < t.len() ==> b < line_start(t, line_of(t, b) as int + 1),
        b <= line_start(t, line_of(t, b) as int + 1),
{
    lemma_line_of_mono(t, b, t.len() as int);
    let n = line_of(t, b) as int;
    lemma_line_start(t, n);
    lemma_line_start(t, n + 1);
    let s = line_start(t, n);
    if s > b {
        if n == 0 {
            assert(false);
        }
        lemma_line_of_mono(t, b, s - 1);
        assert(line_of(t, s) == line_of(t, s - 1) + 1);
        assert(false);
    }
    let e = line_start(t, n + 1);
    if b < t.len() && b >= e {
        if n + 1 < line_total(t) {
            lemma_line_of_mono(t, e, b);
            assert(false);
        }
    }
}

/// The line starts of a UTF-8 text lie between characters.
pub proof fn lemma_line_start_on_char(t: Seq<u8>, n: int)
    requires
        valid_utf8(t),
    ensures
        on_char(t, line_start(t, n)),
{
    lemma_line_start(t, n);
    let s = line_start(t, n);
    is_char_boundary_start_end_of_seq(t);
    if 0 < s < t.len() {
        if n >= line_total(t) {
        } else {
            assert(break_ends_at(t, s));
            lemma_after_ascii_on_char(t, s - 1);
        }
    }
}

/// The offset after an ASCII byte of a UTF-8 text lies between characters, and
/// so does the byte's own.
pub proof fn lemma_after_ascii_on_char(t: Seq<u8>, i: int)
    requires
        valid_utf8(t),
        0 <= i < t.len(),
        t[i] < 0x80,
    ensures
        on_char(t, i),
        on_char(t, i + 1),
    decreases t.len(),
{
    is_char_boundary_iff_not_is_continuation_byte(t, i);
    is_char_boundary_start_end_of_seq(t);
    let k = length_of_first_scalar(t);
    if i < k {
        assert(i == 0);
        assert(k == 1);
        reveal_with_fuel(is_char_boundary, 2);
        assert(pop_first_scalar(t) == t.subrange(1, t.len() as int));
        assert(is_char_boundary(pop_first_scalar(t), 0));
        assert(is_char_boundary(t, 1));
    } else {
        let r = pop_first_scalar(t);
        assert(r[i - k] == t[i]);
        lemma_after_ascii_on_char(r, i - k);
        assert(is_char_boundary(t, i + 1) == is_char_boundary(r, i + 1 - k));
    }
}

/// In a text that ends in a line feed the last editable line is followed by the
/// end of the text, and there is at least one.
pub proof fn lemma_buffer_lines(t: Seq<u8>)
    requires
        t.len() > 0,
        t.last() == LF,
    ensures
        edit_lines(t) >= 1,
        line_start(t, edit_lines(t) as int) == t.len(),
{
    let n = edit_lines(t) as int;
    assert(break_ends_at(t, t.len() as int));
    lemma_line_start(t, n);
    let s = line_start(t, n);
    lemma_line_of_mono(t, s, t.len() as int);
    if s < t.len() {
        lemma_line_of_mono(t, s, t.len() - 1);
        assert(false);
    }
}

/// No byte breaks a line.
pub open spec fn unbroken(s: Seq<u8>) -> bool {
    forall|i: int| 0 <= i < s.len() ==> #[trigger] s[i] != LF && s[i] != CR
}

/// What is put in without line breaks, and not after a carriage return, moves the lines after
/// it and no others.
proof fn lemma_line_of_spliced(t: Seq<u8>, at: int, s: Seq<u8>, b: int)
    requires
        unbroken(s),
        s.len() > 0,
        0 <= at <= t.len(),
        at > 0 ==> t[at - 1] != CR,
        0 <= b <= t.len() + s.len(),
    ensures
        ({
            let u = spliced_in(t, at, s);
            line_of(u, b) == if b <= at {
                line_of(t, b)
            } else if b <= at + s.len() {
                line_of(t, at)
            } else {
                line_of(t, b - s.len())
            }
        }),
    decreases b,
{
    let u = spliced_in(t, at, s);
    if b > 0 {
        lemma_line_of_spliced(t, at, s, b - 1);
        if b <= at {
            assert(u[b - 1] == t[b - 1]);
            if b < at {
                assert(u[b] == t[b]);
            }
        } else if b <= at + s.len() {
            assert(u[b - 1] == s[b - 1 - at]);
        } else {
            assert(u[b - 1] == t[b - 1 - s.len()]);
            if b < u.len() {
                assert(u[b] == t[b - s.len()]);
            }
        }
    }
}

/// The line that begins at an offset begins nowhere else.
proof fn lemma_line_start_is(t: Seq<u8>, n: int, x: int)
    requires
        0 <= x <= t.len(),
        line_of(t, x) == n,
        x == 0 || break_ends_at(t, x),
    ensures
        line_start(t, n) == x,
{
    lemma_line_of_mono(t, x, t.len() as int);
    lemma_line_start(t, n);
    let a = line_start(t, n);
    if a < x {
        lemma_line_of_mono(t, a, x - 1);
    } else if x < a {
        lemma_line_of_mono(t, x, a - 1);
        if n == 0 {
            assert(a == 0);
        }
        assert(break_ends_at(t, a));
    }
}

/// Putting a text without line breaks into a line, between its ends and not after a carriage
/// return, gives the line with it and leaves the line where it is.
pub proof fn lemma_line_spliced(t: Seq<u8>, n: int, col: int, s: Seq<u8>)
    requires
        t.len() > 0,
        t.last() == LF,
        0 <= n < edit_lines(t),
        0 <= col <= line_text(t, n).len(),
        col > 0 ==> line_text(t, n)[col - 1] != CR,
        unbroken(s),
        s.len() > 0,
    ensures
        ({
            let u = spliced_in(t, line_start(t, n) + col, s);
            &&& edit_lines(u) == edit_lines(t)
            &&& line_start(u, n) == line_start(t, n)
            &&& line_text(u, n) == spliced_in(line_text(t, n), col, s)
        }),
{
    let (a, z) = (line_start(t, n), line_start(t, n + 1));
    let at = a + col;
    let u = spliced_in(t, at, s);
    let k = s.len() as int;
    let f = full_line(t, n);
    let l = line_text(t, n);
    lemma_line_start(t, n);
    lemma_line_start(t, n + 1);
    lemma_buffer_lines(t);
    assert(break_ends_at(t, z));
    assert(f[f.len() - 1] == t[z - 1]);
    assert(col < f.len());
    if col > 0 {
        assert(t[at - 1] == f[col - 1]);
        assert(l[col - 1] == f[col - 1]);
    } else if at > 0 {
        assert(break_ends_at(t, a));
    }
    if at > 0 && t[at - 1] == CR {
        // Only a line above can end in a carriage return there.
        assert(col == 0);
        lemma_spliced_after_return(t, n, s);
    } else {
        lemma_line_of_spliced(t, at, s, a);
        lemma_line_of_spliced(t, at, s, z + k);
        lemma_line_of_spliced(t, at, s, t.len() + k);
        if a > 0 {
            assert(u[a - 1] == t[a - 1]);
            if a < at {
                assert(u[a] == t[a]);
            }
            assert(break_ends_at(u, a));
        }
        lemma_line_start_is(u, n, a);
        assert(u[z + k - 1] == t[z - 1]);
        if z < t.len() {
            assert(u[z + k] == t[z]);
        }
        assert(break_ends_at(u, z + k));
        lemma_line_start_is(u, n + 1, z + k);
    }
    let g = full_line(u, n);
    assert(g =~= spliced_in(f, col, s));
    assert(g.last() == f.last());
    if f.last() == LF {
        let r = g.drop_last();
        assert(r =~= spliced_in(f.drop_last(), col, s));
        if col == f.len() - 1 {
            assert(r.last() == s.last());
        } else {
            assert(r.last() == f.drop_last().last());
        }
    }
    assert(line_text(u, n) =~= spliced_in(l, col, s));
}

/// The same at the start of a line that follows a carriage return.
proof fn lemma_spliced_after_return(t: Seq<u8>, n: int, s: Seq<u8>)
    requires
        t.len() > 0,
        t.last() == LF,
        0 < n < edit_lines(t),
        t[line_start(t, n) - 1] == CR,
        unbroken(s),
        s.len() > 0,
    ensures
        ({
            let u = spliced_in(t, line_start(t, n), s);
            &&& edit_lines(u) == edit_lines(t)
            &&& line_start(u, n) == line_start(t, n)
            &&& line_start(u, n + 1) == line_start(t, n + 1) + s.len()
        }),
{
    let (a, z) = (line_start(t, n), line_start(t, n + 1));
    let u = spliced_in(t, a, s);
    let k = s.len() as int;
    lemma_line_start(t, n);
    lemma_line_start(t, n + 1);
    lemma_line_of_after_return(t, a, s, a);
    lemma_line_of_after_return(t, a, s, z + k);
    lemma_line_of_after_return(t, a, s, t.len() + k);
    assert(u[a - 1] == CR);
    assert(u[a] == s[0]);
    assert(break_ends_at(u, a));
    lemma_line_start_is(u, n, a);
    lemma_buffer_lines(t);
    assert(break_ends_at(t, z));
    assert(u[z + k - 1] == t[z - 1]);
    if z < t.len() {
        assert(u[z + k] == t[z]);
    }
    assert(break_ends_at(u, z + k));
    lemma_line_start_is(u, n + 1, z + k);
}

proof fn lemma_line_of_after_return(t: Seq<u8>, at: int, s: Seq<u8>, b: int)
    requires
        unbroken(s),
        s.len() > 0,
        0 < at < t.len(),
        break_ends_at(t, at),
        0 <= b <= t.len() + s.len(),
    ensures
        ({
            let u = spliced_in(t, at, s);
            line_of(u, b) == if b <= at {
                line_of(t, b)
            } else if b <= at + s.len() {
                line_of(t, at)
            } else {
                line_of(t, b - s.len())
            }
        }),
    decreases b,
{
    let u = spliced_in(t, at, s);
    if b > 0 {
        lemma_line_of_after_return(t, at, s, b - 1);
        if b < at {
            assert(u[b - 1] == t[b - 1]);
            assert(u[b] == t[b]);
        } else if b == at {
            assert(u[b - 1] == t[b - 1]);
            assert(u[b] == s[0]);
        } else if b <= at + s.len() {
            assert(u[b - 1] == s[b - 1 - at]);
        } else {
            assert(u[b - 1] == t[b - 1 - s.len()]);
            if b < u.len() {
                assert(u[b] == t[b - s.len()]);
            }
        }
    }
}

/// The first `n` lines of a text, each with a line feed after it.
pub open spec fn joined(t: Seq<u8>, n: int) -> Seq<u8>
    decreases n,
{
    if n <= 0 {
        Seq::empty()
    } else {
        joined(t, n - 1) + line_text(t, n - 1) + seq![LF]
    }
}

/// No byte is a carriage return.
pub open spec fn no_returns(t: Seq<u8>) -> bool {
    forall|i: int| 0 <= i < t.len() ==> #[trigger] t[i] != CR
}

proof fn lemma_joined(t: Seq<u8>, n: int)
    requires
        no_returns(t),
        t.len() > 0,
        t.last() == LF,
        0 <= n <= edit_lines(t),
    ensures
        joined(t, n) == t.subrange(0, line_start(t, n)),
    decreases n,
{
    if n == 0 {
        assert(t.subrange(0, 0) =~= Seq::<u8>::empty());
    } else {
        lemma_joined(t, n - 1);
        lines_are_parts(t, n - 1);
        let (a, z) = (line_start(t, n - 1), line_start(t, n));
        lemma_line_start(t, n - 1);
        lemma_line_start(t, n);
        let l = line_text(t, n - 1);
        assert(t.subrange(0, z) =~= t.subrange(0, a) + l + seq![LF]);
    }
}

/// A line of a text without carriage returns is what stands in it from where the line begins
/// up to the line feed that ends it.
pub proof fn lines_are_parts(t: Seq<u8>, n: int)
    requires
        no_returns(t),
        t.len() > 0,
        t.last() == LF,
        0 <= n < edit_lines(t),
    ensures
        0 <= line_start(t, n) < line_start(t, n + 1) <= t.len(),
        line_text(t, n) == t.subrange(line_start(t, n), line_start(t, n + 1) - 1),
        t[line_start(t, n + 1) - 1] == LF,
{
    let (a, z) = (line_start(t, n), line_start(t, n + 1));
    lemma_line_start(t, n);
    lemma_line_start(t, n + 1);
    lemma_buffer_lines(t);
    if z < t.len() {
        if n + 1 >= line_total(t) {
            assert(false);
        }
        assert(break_ends_at(t, z));
    }
    assert(t[z - 1] == LF);
    let f = full_line(t, n);
    assert(f.last() == LF);
    let r = f.drop_last();
    if r.len() > 0 {
        assert(r.last() == t[z - 2]);
    }
    assert(r =~= t.subrange(a, z - 1));
}

/// The lines of a text without carriage returns, joined by line feeds, are the text.
pub proof fn lines_make_up_the_text(t: Seq<u8>)
    requires
        no_returns(t),
        t.len() > 0,
        t.last() == LF,
    ensures
        joined(t, edit_lines(t) as int) == t,
{
    lemma_joined(t, edit_lines(t) as int);
    lemma_buffer_lines(t);
    assert(t.subrange(0, t.len() as int) =~= t);
}

pub proof fn lemma_encode_concat(a: Seq<char>, b: Seq<char>)
    ensures
        encode_utf8(a + b) == encode_utf8(a) + encode_utf8(b),
        is_char_boundary(encode_utf8(a + b), encode_utf8(a).len() as int),
    decreases a.len(),
{
    encode_utf8_valid_utf8(a + b);
    is_char_boundary_start_end_of_seq(encode_utf8(a + b));
    if a.len() == 0 {
        assert(a + b =~= b);
        assert(encode_utf8(a) + encode_utf8(b) =~= encode_utf8(b));
    } else {
        let rest = a.drop_first();
        lemma_encode_concat(rest, b);
        assert((a + b).drop_first() =~= rest + b);
        let first = encode_scalar(a[0] as u32);
        assert(encode_utf8(a + b) =~= first + (encode_utf8(rest) + encode_utf8(b)));
        assert(encode_utf8(a) + encode_utf8(b) =~= first + (encode_utf8(rest) + encode_utf8(b)));
        encode_utf8_first_scalar(a + b);
        assert(pop_first_scalar(encode_utf8(a + b)) =~= encode_utf8(rest + b));
    }
}

} // verus!
