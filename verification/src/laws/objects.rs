//! What text objects take.

use vstd::prelude::*;
use vstd::utf8::*;

use crate::laws::{lemma_line_is, lemma_line_within};
use crate::nav::{
    back_over, char_or_blank, indent_len, last_idx, lemma_line_text, lemma_next_idx,
    lemma_own_line, lemma_prev_idx, next_idx, own_line, own_start, past, prev_idx,
};
use crate::objects::{
    blank_line, blanks_before, block_bottom, block_top, close_after, first_from, last_below, of_span,
    open_before, pair_range, pair_reaching, paragraph_lines, quote_columns, quote_pair, quote_range,
    span_at, span_of, spans_on, word_range,
};
use crate::text::{
    break_ends_at, buffer_text, edit_lines, lemma_buffer_lines, lemma_line_of, lemma_line_of_mono,
    lemma_line_start, line_of, line_start, line_text, unbroken, CR, LF,
};
use crate::unicode::{bound, lemma_bound_ends, lemma_bound_upto, prev_then_next};

verus! {

/// Every carriage return of a text stands before a line feed.
pub open spec fn plain_breaks(t: Seq<u8>) -> bool {
    forall|n: int| 0 <= n < edit_lines(t) ==> unbroken(#[trigger] line_text(t, n))
}

/// A grapheme begins at an offset, or the break of a line or a part of it does.
pub open spec fn starts_at(t: Seq<u8>, i: int) -> bool {
    let rel = i - own_start(t, i);
    0 <= i <= t.len() && (rel >= own_line(t, i).len() || bound(own_line(t, i), rel))
}

/// Going back and on again leads to the same place, but for the two bytes of a line break.
proof fn lemma_back_and_on(t: Seq<u8>, i: int)
    requires
        buffer_text(t),
        plain_breaks(t),
        starts_at(t, i),
        0 < i < t.len(),
    ensures
        ({
            let j = prev_idx(t, i);
            &&& 0 <= j < i
            &&& starts_at(t, j)
            &&& next_idx(t, j) == i || (next_idx(t, j) == i - 1 && t[i - 1] == CR && next_idx(
                t,
                i - 1,
            ) == i && j < i - 1)
        }),
{
    lemma_own_line(t, i);
    lemma_prev_idx(t, i);
    lemma_line_of(t, i);
    lemma_buffer_lines(t);
    crate::nav::lemma_line_of_inside(t, i);
    let n = line_of(t, i) as int;
    let a = line_start(t, n);
    let l = line_text(t, n);
    let rel = i - a;
    let j = prev_idx(t, i);
    lemma_line_text(t, n);
    lemma_line_start(t, n);
    lemma_line_start(t, n + 1);
    assert(unbroken(line_text(t, n)));
    lemma_line_within(t, n);
    if rel == 0 {
        assert(n > 0);
        lemma_line_start(t, n - 1);
        assert(unbroken(line_text(t, n - 1)));
        lemma_line_within(t, n - 1);
        lemma_line_is(t, n - 1, i - 1);
    } else if rel <= l.len() {
        lemma_bound_ends(l);
        prev_then_next(l, rel);
        lemma_bound_upto(l, rel - 1);
        lemma_line_is(t, n, j);
    } else {
        // The line feed of a break of two bytes.
        let f = crate::text::full_line(t, n);
        assert(break_ends_at(t, line_start(t, n + 1)));
        assert(rel == l.len() + 1);
        assert(t[i - 1] == f[rel - 1]);
        if t[i - 1] == LF {
            assert(break_ends_at(t, i));
            lemma_line_of_mono(t, a, i - 1);
        }
        assert(t[i - 1] == CR);
        if l.len() > 0 {
            lemma_bound_ends(l);
            prev_then_next(l, l.len() as int);
            lemma_bound_upto(l, l.len() - 1);
            lemma_line_is(t, n, j);
            lemma_line_is(t, n, i - 1);
        } else {
            lemma_line_is(t, n, j);
        }
    }
}

/// What a character adds to the depth of brackets.
pub open spec fn nests(c: char, open: char, close: char) -> int {
    if c == open {
        1
    } else if c == close {
        -1
    } else {
        0
    }
}

/// By how much the depth of brackets grows from `a` to `b`.
pub open spec fn depth(t: Seq<u8>, open: char, close: char, a: int, b: int) -> int
    decreases
            if a < b {
                b - a
            } else {
                0
            },
{
    if a >= b || next_idx(t, a) <= a {
        0
    } else {
        nests(char_or_blank(t, a), open, close) + depth(t, open, close, next_idx(t, a), b)
    }
}

/// Every bracket that opens from `a` on is closed again before `b`.
pub open spec fn all_closed(t: Seq<u8>, open: char, close: char, a: int, b: int) -> bool
    decreases
            if a < b {
                b - a
            } else {
                0
            },
{
    a >= b || next_idx(t, a) <= a || (depth(t, open, close, a, b) <= 0 && all_closed(
        t,
        open,
        close,
        next_idx(t, a),
        b,
    ))
}

/// No bracket closes from `a` on, before `b`, that did not open there, where `d` are open.
pub open spec fn none_closes(t: Seq<u8>, open: char, close: char, a: int, d: int, b: int) -> bool
    decreases
            if a < b {
                b - a
            } else {
                0
            },
{
    a >= b || next_idx(t, a) <= a || (d + nests(char_or_blank(t, a), open, close) >= 0
        && none_closes(
        t,
        open,
        close,
        next_idx(t, a),
        d + nests(char_or_blank(t, a), open, close),
        b,
    ))
}

proof fn lemma_not_return(t: Seq<u8>, i: int)
    requires
        valid_utf8(t),
        0 <= i < t.len(),
        t[i] == CR,
    ensures
        char_or_blank(t, i) == '\r',
{
    crate::buffer::lemma_ascii_char(t, i, '\r', CR);
}

/// What holds of the place `i` on the way back from `from` to the bracket that opens around it:
/// `d` brackets close after it that did not open there.
spec fn on_the_way(t: Seq<u8>, open: char, close: char, from: int, i: int, d: nat) -> bool {
    if i < from {
        &&& next_idx(t, i) <= from
        &&& depth(t, open, close, next_idx(t, i), from) == -d
        &&& all_closed(t, open, close, next_idx(t, i), from)
    } else {
        d == 0
    }
}

proof fn lemma_open_before(t: Seq<u8>, open: char, close: char, from: int, i: int, d: nat)
    requires
        buffer_text(t),
        plain_breaks(t),
        starts_at(t, i),
        0 <= i <= from < t.len(),
        open != close,
        open != '\r',
        close != '\r',
        open_before(t, open, close, from, i, d) is Some,
        on_the_way(t, open, close, from, i, d),
    ensures
        ({
            let o = open_before(t, open, close, from, i, d)->0;
            &&& 0 <= o <= i
            &&& starts_at(t, o)
            &&& char_or_blank(t, o) == open
            &&& on_the_way(t, open, close, from, o, 0)
            &&& i < from ==> close_after(t, open, close, o, 0) == close_after(
                t,
                open,
                close,
                next_idx(t, i),
                d as int + 1,
            )
            &&& i == from && o < from ==> close_after(t, open, close, o, 0) == close_after(
                t,
                open,
                close,
                from,
                1,
            )
        }),
    decreases i,
{
    lemma_next_idx(t, i);
    let c = char_or_blank(t, i);
    let o = open_before(t, open, close, from, i, d)->0;
    if !(c == close && i != from) && c == open && d == 0 {
        assert(o == i);
    } else {
        let d2 = if c == close && i != from {
            d + 1
        } else if c == open {
            (d - 1) as nat
        } else {
            d
        };
        let j = prev_idx(t, i);
        lemma_prev_idx(t, i);
        lemma_back_and_on(t, i);
        lemma_next_idx(t, i - 1);
        if i < from {
            assert(depth(t, open, close, i, from) == nests(c, open, close) - d);
            assert(depth(t, open, close, i, from) <= 0);
            assert(all_closed(t, open, close, i, from));
        }
        if next_idx(t, j) != i {
            lemma_not_return(t, i - 1);
            assert(depth(t, open, close, i - 1, from) == depth(t, open, close, i, from));
            assert(all_closed(t, open, close, i, from));
            assert(depth(t, open, close, i - 1, from) <= 0);
            assert(all_closed(t, open, close, i - 1, from));
        }
        assert(on_the_way(t, open, close, from, j, d2));
        lemma_open_before(t, open, close, from, j, d2);
        if next_idx(t, j) != i {
            assert(close_after(t, open, close, i - 1, d2 as int + 1) == close_after(
                t,
                open,
                close,
                i,
                d2 as int + 1,
            ));
        }
        if i < from {
            assert(close_after(t, open, close, i, d2 as int + 1) == close_after(
                t,
                open,
                close,
                next_idx(t, i),
                d as int + 1,
            ));
        }
    }
}

/// The bracket that closes is the first one that brings the depth to nothing.
proof fn lemma_close_after(t: Seq<u8>, open: char, close: char, i: int, d: int)
    requires
        buffer_text(t),
        0 <= i < t.len(),
        d >= 1,
        open != close,
        close_after(t, open, close, i, d) is Some,
    ensures
        ({
            let c = close_after(t, open, close, i, d)->0;
            &&& i <= c < t.len()
            &&& char_or_blank(t, c) == close
            &&& depth(t, open, close, i, c) == 1 - d
            &&& none_closes(t, open, close, i, d - 1, c)
        }),
    decreases t.len() - i,
{
    lemma_next_idx(t, i);
    let c = char_or_blank(t, i);
    if !(c == close && d == 1) {
        lemma_close_after(t, open, close, next_idx(t, i), d + nests(c, open, close));
    }
}

/// The pair that a bracket object takes is the innermost one around the cursor: it opens not
/// after the cursor and closes not before it, and from where it opens to the cursor every
/// bracket that opens is closed again. It ends at the bracket that closes it, before which none
/// closes that did not open. What is inside begins after the one and ends before the other.
pub proof fn pair_encloses_the_cursor(t: Seq<u8>, cur: int, open: char, close: char, visual: bool)
    requires
        buffer_text(t),
        plain_breaks(t),
        starts_at(t, cur),
        cur < t.len(),
        open != close,
        open != '\r',
        close != '\r',
    ensures
        pair_range(t, cur, false, open, close, visual) matches Some((lo, hi, lines)) ==> {
            &&& !lines
            &&& 0 <= lo <= cur < hi <= t.len()
            &&& char_or_blank(t, lo) == open
            &&& lo < cur ==> all_closed(t, open, close, next_idx(t, lo), cur)
            &&& lo < cur ==> depth(t, open, close, next_idx(t, lo), cur) == 0
            &&& pair_range(t, cur, true, open, close, true) matches Some((a, z, _)) && {
                &&& a == next_idx(t, lo)
                &&& next_idx(t, z) == hi
                &&& char_or_blank(t, z) == close
                &&& depth(t, open, close, a, z) == 0
                &&& none_closes(t, open, close, a, 0, z)
            }
        },
{
    if pair_range(t, cur, false, open, close, visual) is Some {
        lemma_open_before(t, open, close, cur, cur, 0);
        let o = open_before(t, open, close, cur, cur, 0)->0;
        lemma_next_idx(t, o);
        if o == last_idx(t) {
            assert(close_after(t, open, close, o, 0) is None);
        }
        assert(close_after(t, open, close, o, 0) == close_after(
            t,
            open,
            close,
            next_idx(t, o),
            1,
        ));
        lemma_close_after(t, open, close, next_idx(t, o), 1);
        if o < cur {
            lemma_close_after(t, open, close, cur, 1);
        }
        lemma_next_idx(t, close_after(t, open, close, o, 0)->0);
    }
}

/// Every grapheme from `a` on, before `b`, is of span class `k`.
pub open spec fn all_of(t: Seq<u8>, a: int, b: int, k: u8, big: bool) -> bool
    decreases
            if a < b {
                b - a
            } else {
                0
            },
{
    a >= b || next_idx(t, a) <= a || (span_at(t, a, big) == k && all_of(
        t,
        next_idx(t, a),
        b,
        k,
        big,
    ))
}

/// Every grapheme before `b`, back to `a`, is of span class `k`.
pub open spec fn all_of_back(t: Seq<u8>, a: int, b: int, k: u8, big: bool) -> bool
    decreases b,
{
    b <= a || !(0 <= prev_idx(t, b) < b) || (span_at(t, prev_idx(t, b), big) == k
        && all_of_back(t, a, prev_idx(t, b), k, big))
}

proof fn lemma_past_span(t: Seq<u8>, i: int, k: u8, big: bool)
    requires
        buffer_text(t),
        0 <= i <= last_idx(t),
    ensures
        ({
            let e = past(t, i, last_idx(t), of_span(k, big));
            &&& i <= e <= last_idx(t)
            &&& all_of(t, i, e, k, big)
            &&& e < last_idx(t) ==> span_at(t, e, big) != k
            &&& i < last_idx(t) && span_at(t, i, big) == k ==> i < e
        }),
    decreases last_idx(t) - i,
{
    lemma_next_idx(t, i);
    if i < last_idx(t) && span_at(t, i, big) == k {
        lemma_past_span(t, next_idx(t, i), k, big);
    }
}

proof fn lemma_back_span(t: Seq<u8>, i: int, k: u8, big: bool)
    requires
        buffer_text(t),
        0 <= i <= t.len(),
    ensures
        ({
            let s = back_over(t, i, of_span(k, big));
            &&& 0 <= s <= i
            &&& all_of_back(t, s, i, k, big)
            &&& s > 0 ==> span_at(t, prev_idx(t, s), big) != k
        }),
    decreases i,
{
    lemma_prev_idx(t, i);
    if i > 0 && span_at(t, prev_idx(t, i), big) == k {
        lemma_back_span(t, prev_idx(t, i), k, big);
    }
}

/// The inner word object takes the run of characters of one class around the cursor: all of
/// them, and no other. The one around it takes the same and blanks alone besides: those after
/// the word, else those before it.
pub proof fn word_object_is_a_run(t: Seq<u8>, cur: int, big: bool)
    requires
        buffer_text(t),
        0 <= cur < last_idx(t),
    ensures
        ({
            let k = span_at(t, cur, big);
            let (lo, hi) = word_range(t, cur, true, 1, big);
            let (a, z) = word_range(t, cur, false, 1, big);
            &&& 0 <= lo <= cur < hi <= last_idx(t)
            &&& all_of_back(t, lo, cur, k, big)
            &&& all_of(t, cur, hi, k, big)
            &&& lo > 0 ==> span_at(t, prev_idx(t, lo), big) != k
            &&& hi < last_idx(t) ==> span_at(t, hi, big) != k
            &&& k != 0 && hi < last_idx(t) && span_at(t, hi, big) == 0 ==> {
                &&& a == lo
                &&& hi < z <= last_idx(t)
                &&& all_of(t, hi, z, 0, big)
                &&& z < last_idx(t) ==> span_at(t, z, big) != 0
            }
            &&& k != 0 && !(hi < last_idx(t) && span_at(t, hi, big) == 0) ==> {
                &&& z == hi
                &&& 0 <= a <= lo
                &&& all_of_back(t, a, lo, 0, big)
                &&& a > 0 ==> span_at(t, prev_idx(t, a), big) != 0
            }
        }),
{
    reveal_with_fuel(crate::objects::words_on, 2);
    reveal_with_fuel(crate::objects::spans_on, 2);
    let k = span_at(t, cur, big);
    lemma_past_span(t, cur, k, big);
    lemma_back_span(t, cur, k, big);
    let (lo, hi) = span_of(t, cur, big);
    if hi < last_idx(t) && span_at(t, hi, big) == 0 {
        lemma_past_span(t, hi, 0, big);
    }
    if lo > 0 {
        lemma_prev_idx(t, lo);
        let b = prev_idx(t, lo);
        lemma_back_span(t, b, 0, big);
        if span_at(t, b, big) == 0 {
            assert(span_of(t, b, big).0 == back_over(t, b, of_span(0, big)));
        }
    }
}

/// More of a run is taken where the count is more than one: the object with a count takes what
/// the one without takes, and begins where it does.
pub proof fn more_words_take_more(t: Seq<u8>, cur: int, big: bool, n: nat)
    requires
        buffer_text(t),
        0 <= cur < last_idx(t),
        n >= 1,
    ensures
        ({
            let (lo, hi) = word_range(t, cur, true, n, big);
            let (a, z) = word_range(t, cur, true, n + 1, big);
            &&& a == lo
            &&& hi <= z <= last_idx(t)
            &&& hi < last_idx(t) ==> hi < z && all_of(t, hi, z, span_at(t, hi, big), big) && (z
                < last_idx(t) ==> span_at(t, z, big) != span_at(t, hi, big))
        }),
{
    lemma_past_span(t, cur, span_at(t, cur, big), big);
    lemma_spans_on(t, span_of(t, cur, big).1, (n - 1) as nat, big);
}

proof fn lemma_spans_on(t: Seq<u8>, end: int, n: nat, big: bool)
    requires
        buffer_text(t),
        0 <= end <= last_idx(t),
    ensures
        ({
            let a = spans_on(t, end, n, big);
            let z = spans_on(t, end, n + 1, big);
            &&& end <= a <= z <= last_idx(t)
            &&& a < last_idx(t) ==> a < z && all_of(t, a, z, span_at(t, a, big), big) && (z
                < last_idx(t) ==> span_at(t, z, big) != span_at(t, a, big))
        }),
    decreases n,
{
    reveal_with_fuel(crate::objects::spans_on, 3);
    lemma_past_span(t, end, span_at(t, end, big), big);
    if n > 0 && end < last_idx(t) {
        lemma_spans_on(t, span_of(t, end, big).1, (n - 1) as nat, big);
    }
}

/// The lines of the inner paragraph object are those around the cursor's that are blank as it
/// is, or not: all of them and no other.
pub proof fn paragraph_is_a_block(t: Seq<u8>, line: int)
    requires
        0 <= line < edit_lines(t),
    ensures
        ({
            let (first, last) = paragraph_lines(t, line, true, 1);
            let k = line_text(t, line).len() == 0;
            &&& 0 <= first <= line <= last < edit_lines(t)
            &&& forall|i: int|
                first <= i <= last ==> (#[trigger] line_text(t, i).len() == 0) == k
            &&& first > 0 ==> (line_text(t, first - 1).len() == 0) != k
            &&& last + 1 < edit_lines(t) ==> (line_text(t, last + 1).len() == 0) != k
        }),
{
    lemma_block_top(t, line, blank_line(t, line));
    lemma_block_bottom(t, line, blank_line(t, line));
    reveal_with_fuel(crate::objects::blocks_down, 2);
}

/// The paragraph object around the cursor takes the inner one, and the block after it too, or
/// the one before where there is none after.
pub proof fn paragraph_takes_a_neighbour(t: Seq<u8>, line: int)
    requires
        0 <= line < edit_lines(t),
    ensures
        ({
            let (first, last) = paragraph_lines(t, line, true, 1);
            let (a, z) = paragraph_lines(t, line, false, 1);
            let k = line_text(t, line).len() == 0;
            &&& 0 <= a <= first <= last <= z < edit_lines(t)
            &&& last + 1 < edit_lines(t) ==> a == first && z > last && (z + 1 < edit_lines(t) ==> (
            line_text(t, z + 1).len() == 0) == k)
            &&& last + 1 == edit_lines(t) ==> z == last && (first > 0 ==> a < first) && (a > 0 ==> (
            line_text(t, a - 1).len() == 0) == k)
            &&& forall|i: int|
                (a <= i < first || last < i <= z) ==> (#[trigger] line_text(t, i).len() == 0) != k
        }),
{
    paragraph_is_a_block(t, line);
    reveal_with_fuel(crate::objects::blocks_down, 2);
    let (first, last) = paragraph_lines(t, line, true, 1);
    let k = blank_line(t, line);
    assert(blank_line(t, last) == k);
    assert(blank_line(t, first) == k);
    lemma_block_bottom(t, last, !k);
    lemma_block_top(t, first, !k);
}

proof fn lemma_block_top(t: Seq<u8>, n: int, k: bool)
    requires
        0 <= n,
    ensures
        ({
            let r = block_top(t, n, k);
            &&& 0 <= r <= n
            &&& forall|i: int| r <= i < n ==> (#[trigger] line_text(t, i).len() == 0) == k
            &&& r > 0 ==> (line_text(t, r - 1).len() == 0) != k
        }),
    decreases n,
{
    if n > 0 && blank_line(t, n - 1) == k {
        lemma_block_top(t, n - 1, k);
    }
}

proof fn lemma_block_bottom(t: Seq<u8>, n: int, k: bool)
    requires
        0 <= n < edit_lines(t),
    ensures
        ({
            let r = block_bottom(t, n, k);
            &&& n <= r < edit_lines(t)
            &&& forall|i: int| n < i <= r ==> (#[trigger] line_text(t, i).len() == 0) == k
            &&& r + 1 < edit_lines(t) ==> (line_text(t, r + 1).len() == 0) != k
        }),
    decreases edit_lines(t) - n,
{
    if n + 1 < edit_lines(t) && blank_line(t, n + 1) == k {
        lemma_block_bottom(t, n + 1, k);
    }
}

proof fn lemma_quote_columns(l: Seq<u8>, q: u8, i: int)
    requires
        0 <= i,
        q != 92,
    ensures
        ({
            let v = quote_columns(l, q, i);
            &&& forall|k: int| 0 <= k < v.len() ==> i <= #[trigger] v[k] < l.len() && l[v[k]] == q
            &&& forall|j: int, k: int| 0 <= j < k < v.len() ==> #[trigger] v[j] < #[trigger] v[k]
        }),
    decreases l.len() + 1 - i,
{
    if i < l.len() {
        let rest = if l[i] == 92 {
            i + 2
        } else {
            i + 1
        };
        lemma_quote_columns(l, q, rest);
        let v = quote_columns(l, q, i);
        let r = quote_columns(l, q, rest);
        if l[i] != 92 && l[i] == q {
            assert(v[0] == i);
            assert forall|k: int| 0 < k < v.len() implies #[trigger] v[k] == r[k - 1] by {}
            assert forall|j: int, k: int| 0 <= j < k < v.len() implies #[trigger] v[j]
                < #[trigger] v[k] by {
                assert(v[k] == r[k - 1]);
                if j > 0 {
                    assert(v[j] == r[j - 1]);
                }
            }
        } else {
            assert(v == r);
        }
    }
}

proof fn lemma_pair_reaching(qs: Seq<int>, c: int, k: int)
    requires
        0 <= k,
        forall|i: int, j: int| 0 <= i < j < qs.len() ==> #[trigger] qs[i] < #[trigger] qs[j],
        k > 0 && 2 * k - 1 < qs.len() ==> qs[2 * k - 1] < c,
    ensures
        pair_reaching(qs, c, k) matches Some((a, z)) ==> {
            &&& a < z
            &&& c <= z
            &&& qs.contains(a)
            &&& qs.contains(z)
            &&& forall|i: int| 0 <= i < qs.len() ==> !(a < #[trigger] qs[i] < z)
        },
    decreases qs.len() - 2 * k,
{
    if 2 * k + 1 < qs.len() {
        if c <= qs[2 * k + 1] {
            assert forall|i: int| 0 <= i < qs.len() implies !(qs[2 * k] < #[trigger] qs[i] < qs[2
                * k + 1]) by {
                if i < 2 * k {
                    assert(qs[i] < qs[2 * k]);
                }
                if i > 2 * k + 1 {
                    assert(qs[2 * k + 1] < qs[i]);
                }
            }
        } else {
            lemma_pair_reaching(qs, c, k + 1);
        }
    }
}

/// The quote object lies between two quotes with none between them that counts, and does not
/// end before the cursor. The one around it takes the quotes in, and blanks alone besides.
pub proof fn quotes_enclose_or_follow(l: Seq<u8>, c: int, q: u8)
    requires
        0 <= c,
        q != 92,
    ensures
        quote_range(l, c, true, q) matches Some((lo, hi)) ==> {
            &&& 1 <= lo <= hi < l.len()
            &&& l[lo - 1] == q
            &&& l[hi] == q
            &&& c <= hi
            &&& quote_range(l, c, false, q) matches Some((a, z)) && {
                &&& 0 <= a <= lo - 1
                &&& hi + 1 <= z <= l.len()
                &&& forall|i: int|
                    (a <= i < lo - 1 || hi < i < z) ==> #[trigger] l[i] == 32 || l[i] == 9
                &&& a == lo - 1 || z == hi + 1
            }
        },
{
    let qs = quote_columns(l, q, 0);
    lemma_quote_columns(l, q, 0);
    lemma_pair_reaching(qs, c, 0);
    lemma_last_below(qs, c, qs.len() as int);
    lemma_first_from(qs, c, 0);
    if quote_range(l, c, true, q) is Some {
        let (open, close) = quote_pair(qs, c)->0;
        assert(qs.contains(open) && qs.contains(close) && open < close);
        lemma_blanks_on(l, close + 1);
        lemma_blanks_back(l, open);
    }
}

proof fn lemma_last_below(qs: Seq<int>, c: int, n: int)
    requires
        0 <= n <= qs.len(),
    ensures
        last_below(qs, c, n) matches Some(x) ==> x < c && qs.contains(x),
    decreases n,
{
    if n > 0 && qs[n - 1] >= c {
        lemma_last_below(qs, c, n - 1);
    }
}

proof fn lemma_first_from(qs: Seq<int>, c: int, i: int)
    requires
        0 <= i,
    ensures
        first_from(qs, c, i) matches Some(x) ==> x >= c && qs.contains(x),
    decreases qs.len() - i,
{
    if i < qs.len() && qs[i] < c {
        lemma_first_from(qs, c, i + 1);
    }
}

proof fn lemma_blanks_on(l: Seq<u8>, i: int)
    requires
        0 <= i <= l.len(),
    ensures
        i <= indent_len(l, i) <= l.len(),
        forall|k: int| i <= k < indent_len(l, i) ==> #[trigger] l[k] == 32 || l[k] == 9,
    decreases l.len() - i,
{
    if i < l.len() && (l[i] == 32 || l[i] == 9) {
        lemma_blanks_on(l, i + 1);
    }
}

proof fn lemma_blanks_back(l: Seq<u8>, i: int)
    requires
        0 <= i <= l.len(),
    ensures
        0 <= blanks_before(l, i) <= i,
        forall|k: int| blanks_before(l, i) <= k < i ==> #[trigger] l[k] == 32 || l[k] == 9,
    decreases i,
{
    if 0 < i && (l[i - 1] == 32 || l[i - 1] == 9) {
        lemma_blanks_back(l, i - 1);
    }
}

} // verus!
