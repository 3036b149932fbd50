//! Text objects: the ranges that `iw`, `a(`, `i"`, `as` and `ip` select.
//!
//! Each function takes the place of the cursor and gives a range of byte offsets,
//! from its start to just past its end.

use vstd::prelude::*;
use vstd::utf8::*;

use crate::buffer::Buffer;
use crate::nav::{
    back_over, char_class, char_or_blank, class_of, indent_len, last_idx, lemma_line_text,
    lemma_own_line, next_idx, own_line, own_start, past, prev_idx, CharClass,
};
use crate::text::{edit_lines, line_of, line_start, line_text};
use crate::window::Cursor;

verus! {

/// The class of a character for spans: blank, word and punctuation, where `big`
/// makes one class of the last two.
pub open spec fn span_class_of(c: char, big: bool) -> u8 {
    match class_of(c) {
        CharClass::Blank => 0,
        CharClass::Word => 1,
        CharClass::Punct => if big {
            1
        } else {
            2
        },
    }
}

pub open spec fn of_span(k: u8, big: bool) -> spec_fn(char) -> bool {
    |c: char| span_class_of(c, big) == k
}

/// The span class of the character at an offset.
pub open spec fn span_at(t: Seq<u8>, i: int, big: bool) -> u8 {
    span_class_of(char_or_blank(t, i), big)
}

/// The run of characters of one span class around an offset.
pub open spec fn span_of(t: Seq<u8>, i: int, big: bool) -> (int, int) {
    let last = last_idx(t);
    let at = if i < last {
        i
    } else {
        last
    };
    let k = span_at(t, at, big);
    (back_over(t, at, of_span(k, big)), past(t, at, last, of_span(k, big)))
}

/// From `end`, on over so many more spans.
pub open spec fn spans_on(t: Seq<u8>, end: int, n: nat, big: bool) -> int
    decreases n,
{
    let e = span_of(t, end, big).1;
    if n == 0 || end >= last_idx(t) || e == end {
        end
    } else {
        spans_on(t, e, (n - 1) as nat, big)
    }
}

/// From `end`, on over so many words and the blanks after each. Also says whether
/// the last of them had blanks after it; `took` is the answer for no words.
pub open spec fn words_on(t: Seq<u8>, end: int, n: nat, took: bool, big: bool) -> (int, bool)
    decreases n,
{
    if n == 0 {
        (end, took)
    } else {
        let blank = end < last_idx(t) && span_at(t, end, big) == 0;
        let e = if blank {
            span_of(t, end, big).1
        } else {
            end
        };
        let f = if n > 1 && e < last_idx(t) {
            span_of(t, e, big).1
        } else {
            e
        };
        words_on(t, f, (n - 1) as nat, blank, big)
    }
}

pub open spec fn less_one(n: nat) -> nat {
    if n == 0 {
        0
    } else {
        (n - 1) as nat
    }
}

/// The word object: `i` takes the span under the cursor and `count - 1` more; `a`
/// takes words with the blanks after them, or the blanks before where there are
/// none after. From a blank, `a` takes the blanks and the word after them first.
pub open spec fn word_range(
    t: Seq<u8>,
    cur: int,
    inner: bool,
    count: nat,
    big: bool,
) -> (int, int) {
    let (start, end) = span_of(t, cur, big);
    if inner {
        (start, spans_on(t, end, less_one(count), big))
    } else {
        let blank = span_at(t, cur, big) == 0;
        let first = if blank && end < last_idx(t) {
            span_of(t, end, big).1
        } else {
            end
        };
        let (e, took) = words_on(
            t,
            first,
            if blank {
                less_one(count)
            } else {
                count
            },
            blank,
            big,
        );
        if !took && start > 0 && span_at(t, prev_idx(t, start), big) == 0 {
            (span_of(t, prev_idx(t, start), big).0, e)
        } else {
            (start, e)
        }
    }
}

/// From `i` back, the opening delimiter that encloses `from`, where `depth` closing
/// ones await their partner. A closing one at `from` itself does not.
pub open spec fn open_before(
    t: Seq<u8>,
    open: char,
    close: char,
    from: int,
    i: int,
    depth: nat,
) -> Option<int>
    decreases i,
{
    let c = char_or_blank(t, i);
    if !(c == close && i != from) && c == open && depth == 0 {
        Some(i)
    } else {
        let d = if c == close && i != from {
            depth + 1
        } else if c == open {
            (depth - 1) as nat
        } else {
            depth
        };
        if i > 0 && 0 <= prev_idx(t, i) < i {
            open_before(t, open, close, from, prev_idx(t, i), d)
        } else {
            None
        }
    }
}

/// From `i` on, the closing delimiter at which `depth` comes to nothing.
pub open spec fn close_after(
    t: Seq<u8>,
    open: char,
    close: char,
    i: int,
    depth: int,
) -> Option<int>
    decreases t.len() - i,
{
    let c = char_or_blank(t, i);
    let d = if c == open {
        depth + 1
    } else if c == close {
        depth - 1
    } else {
        depth
    };
    if c != open && c == close && d == 0 {
        Some(i)
    } else if i < last_idx(t) && i < next_idx(t, i) <= t.len() {
        close_after(t, open, close, next_idx(t, i), d)
    } else {
        None
    }
}

pub open spec fn space_or_tab() -> spec_fn(char) -> bool {
    |c: char| c == ' ' || c == '\t'
}

/// Nothing but blanks follows the character at `i` on its line.
pub open spec fn blank_after(t: Seq<u8>, i: int) -> bool {
    let end = own_start(t, i) + own_line(t, i).len();
    past(t, next_idx(t, i), end, space_or_tab()) >= end
}

/// Nothing but blanks comes before `i` on its line.
pub open spec fn blank_before(t: Seq<u8>, i: int) -> bool {
    past(t, own_start(t, i), i, space_or_tab()) >= i
}

/// The delimited object around `cur`, and whether it is whole lines: `a` takes the
/// delimiters in, `i` leaves them out. Where the inner text is whole lines, `i` takes
/// those lines, unless a selection is being made.
pub open spec fn pair_range(
    t: Seq<u8>,
    cur: int,
    inner: bool,
    open: char,
    close: char,
    visual: bool,
) -> Option<(int, int, bool)> {
    match open_before(t, open, close, cur, cur, 0) {
        None => None,
        Some(o) => match close_after(t, open, close, o, 0) {
            None => None,
            Some(c) => if !inner {
                Some((o, next_idx(t, c), false))
            } else if !visual && line_of(t, c) > line_of(t, o) && blank_after(t, o)
                && blank_before(t, c) {
                Some(
                    (
                        line_start(t, line_of(t, o) as int + 1),
                        line_start(t, line_of(t, c) as int),
                        true,
                    ),
                )
            } else {
                Some((next_idx(t, o), c, false))
            },
        },
    }
}

/// The columns of the quotes of a line from byte `i` on that no backslash escapes.
pub open spec fn quote_columns(l: Seq<u8>, q: u8, i: int) -> Seq<int>
    decreases l.len() + 1 - i,
{
    if i < 0 || i >= l.len() {
        Seq::empty()
    } else if l[i] == 92 {
        quote_columns(l, q, i + 2)
    } else if l[i] == q {
        seq![i] + quote_columns(l, q, i + 1)
    } else {
        quote_columns(l, q, i + 1)
    }
}

/// The first pair of quotes from the `k`th on that does not end before column `c`.
pub open spec fn pair_reaching(qs: Seq<int>, c: int, k: int) -> Option<(int, int)>
    decreases qs.len() - 2 * k,
{
    if k < 0 || 2 * k + 1 >= qs.len() {
        None
    } else if c <= qs[2 * k + 1] {
        Some((qs[2 * k], qs[2 * k + 1]))
    } else {
        pair_reaching(qs, c, k + 1)
    }
}

/// The last of the first `n` columns that is before `c`.
pub open spec fn last_below(qs: Seq<int>, c: int, n: int) -> Option<int>
    decreases n,
{
    if n <= 0 || n > qs.len() {
        None
    } else if qs[n - 1] < c {
        Some(qs[n - 1])
    } else {
        last_below(qs, c, n - 1)
    }
}

/// The first of the columns from the `i`th on that is not before `c`.
pub open spec fn first_from(qs: Seq<int>, c: int, i: int) -> Option<int>
    decreases qs.len() - i,
{
    if i < 0 || i >= qs.len() {
        None
    } else if qs[i] >= c {
        Some(qs[i])
    } else {
        first_from(qs, c, i + 1)
    }
}

/// The quotes that a quote object is about: the pair that encloses column `c`, else
/// the next one; past the last pair, the quotes on either side of `c`.
pub open spec fn quote_pair(qs: Seq<int>, c: int) -> Option<(int, int)> {
    match pair_reaching(qs, c, 0) {
        Some(p) => Some(p),
        None => match (last_below(qs, c, qs.len() as int), first_from(qs, c, 0)) {
            (Some(l), Some(r)) => Some((l, r)),
            _ => None,
        },
    }
}

/// From `i` back over blanks and tabs.
pub open spec fn blanks_before(l: Seq<u8>, i: int) -> int
    decreases i,
{
    if 0 < i <= l.len() && (l[i - 1] == 32 || l[i - 1] == 9) {
        blanks_before(l, i - 1)
    } else {
        i
    }
}

/// The columns of a quote object: `i` takes what is between the quotes, `a` the
/// quotes and the blanks after them, or those before where there are none after.
pub open spec fn quote_range(l: Seq<u8>, c: int, inner: bool, q: u8) -> Option<(int, int)> {
    match quote_pair(quote_columns(l, q, 0), c) {
        None => None,
        Some((open, close)) => if inner {
            Some((open + 1, close))
        } else if indent_len(l, close + 1) > close + 1 {
            Some((open, indent_len(l, close + 1)))
        } else {
            Some((blanks_before(l, open), close + 1))
        },
    }
}

pub open spec fn blank_line(t: Seq<u8>, n: int) -> bool {
    line_text(t, n).len() == 0
}

/// From line `n` up, as long as lines are blank or not as `k` says.
pub open spec fn block_top(t: Seq<u8>, n: int, k: bool) -> int
    decreases n,
{
    if n > 0 && blank_line(t, n - 1) == k {
        block_top(t, n - 1, k)
    } else {
        n
    }
}

/// From line `n` down, as long as lines are blank or not as `k` says.
pub open spec fn block_bottom(t: Seq<u8>, n: int, k: bool) -> int
    decreases edit_lines(t) - n,
{
    if n + 1 < edit_lines(t) && blank_line(t, n + 1) == k {
        block_bottom(t, n + 1, k)
    } else {
        n
    }
}

/// From line `n` down over so many more blocks, blank and not in turn; `k` is the
/// kind of the block that `n` ends.
pub open spec fn blocks_down(t: Seq<u8>, n: int, k: bool, more: nat) -> int
    decreases more,
{
    if more == 0 || n + 1 >= edit_lines(t) {
        n
    } else {
        blocks_down(t, block_bottom(t, n, !k), !k, (more - 1) as nat)
    }
}

/// The lines of a paragraph object, first and last: the block of blank or other
/// lines at `line`, and `count - 1` more. `a` takes the block after it in, or the
/// one before where there is none.
pub open spec fn paragraph_lines(t: Seq<u8>, line: int, inner: bool, count: nat) -> (int, int) {
    let k = blank_line(t, line);
    let first = block_top(t, line, k);
    let last = blocks_down(t, block_bottom(t, line, k), k, less_one(count));
    if inner {
        (first, last)
    } else {
        let other = !blank_line(t, last);
        if last + 1 < edit_lines(t) && blank_line(t, last + 1) == other {
            (first, block_bottom(t, last, other))
        } else {
            (block_top(t, first, !blank_line(t, first)), last)
        }
    }
}

/// The range of whole lines from `first` to `last`.
pub open spec fn lines_range(t: Seq<u8>, first: int, last: int) -> (int, int) {
    (line_start(t, first), line_start(t, last + 1))
}

/// The lines of the paragraph at `line`; the line alone where it is blank.
pub open spec fn paragraph_around(t: Seq<u8>, line: int) -> (int, int) {
    if blank_line(t, line) {
        (line, line)
    } else {
        (block_top(t, line, false), block_bottom(t, line, false))
    }
}

pub open spec fn white() -> spec_fn(char) -> bool {
    |c: char| c == ' ' || c == '\t' || c == '\n' || c == '\r'
}

pub open spec fn closing() -> spec_fn(char) -> bool {
    |c: char| c == ')' || c == ']' || c == '"' || c == '\''
}

/// From `i` back to no further than `lo`, over characters that `p` holds of.
pub open spec fn back_to(t: Seq<u8>, i: int, lo: int, p: spec_fn(char) -> bool) -> int
    decreases i,
{
    if i > lo && i > 0 && p(char_or_blank(t, prev_idx(t, i))) && 0 <= prev_idx(t, i) < i {
        back_to(t, prev_idx(t, i), lo, p)
    } else {
        i
    }
}

/// The sentences up to `end`: where each starts, where its text ends and where the
/// white space after it ends. One starts at `s`, and `i` is the place reached.
pub open spec fn sentences(t: Seq<u8>, s: int, i: int, end: int) -> Seq<(int, int, int)>
    decreases
            if i < end {
                end - i
            } else {
                0
            },
{
    if i >= end {
        if s < end {
            seq![(s, back_to(t, end, s, white()), end)]
        } else {
            Seq::empty()
        }
    } else {
        let c = char_or_blank(t, i);
        let j = past(t, next_idx(t, i), end, closing());
        let k = past(t, j, end, white());
        if (c == '.' || c == '!' || c == '?') && (j >= end || white()(char_or_blank(t, j))) && k
            > i {
            seq![(s, j, k)] + sentences(t, k, k, end)
        } else if next_idx(t, i) > i {
            sentences(t, s, next_idx(t, i), end)
        } else {
            Seq::empty()
        }
    }
}

/// The last of the first `n` sentences that does not start after `cur`; the first
/// where they all do.
pub open spec fn sentence_at(segs: Seq<(int, int, int)>, cur: int, n: int) -> int
    decreases n,
{
    if n <= 1 || n > segs.len() {
        0
    } else if segs[n - 1].0 <= cur {
        n - 1
    } else {
        sentence_at(segs, cur, n - 1)
    }
}

/// The sentence object between `lo` and `hi`: `i` takes the text of a sentence, and
/// of `count - 1` more; `a` the white space after it too, or that before where there
/// is none after.
pub open spec fn sentence_range(
    t: Seq<u8>,
    lo: int,
    hi: int,
    cur: int,
    inner: bool,
    count: nat,
) -> Option<(int, int)> {
    let s = past(t, lo, hi, white());
    let segs = sentences(t, s, s, hi);
    if lo >= hi || segs.len() == 0 {
        None
    } else {
        let at = sentence_at(segs, cur, segs.len() as int);
        let to = if at + less_one(count) < segs.len() {
            at + less_one(count)
        } else {
            segs.len() - 1
        };
        let start = segs[at].0;
        let (_, text_end, space_end) = segs[to];
        if inner {
            Some((start, text_end))
        } else if space_end > text_end {
            Some((start, space_end))
        } else {
            Some((back_to(t, start, lo, white()), space_end))
        }
    }
}

fn is_white(c: char) -> (r: bool)
    ensures
        r == white()(c),
{
    c == ' ' || c == '\t' || c == '\n' || c == '\r'
}

fn is_closing(c: char) -> (r: bool)
    ensures
        r == closing()(c),
{
    matches!(c, ')' | ']' | '"' | '\'')
}

impl Buffer {
    /// The span class of the character at an offset.
    pub fn span_class(&self, idx: usize, big: bool) -> (k: u8)
        requires
            self.wf(),
        ensures
            k == span_at(self@.text, idx as int, big),
    {
        match char_class(self.char_or_blank(idx)) {
            CharClass::Blank => 0,
            CharClass::Word => 1,
            CharClass::Punct => if big {
                1
            } else {
                2
            },
        }
    }

    /// The run of characters of one span class around an offset.
    pub fn class_span(&self, i: usize, big: bool) -> (r: (usize, usize))
        requires
            self.settled(),
            i <= self@.text.len(),
        ensures
            (r.0 as int, r.1 as int) == span_of(self@.text, i as int, big),
            r.0 <= self@.text.len(),
            r.1 <= self@.text.len(),
            i <= last_idx(self@.text) ==> r.0 <= i <= r.1,
    {
        let ghost t = self@.text;
        let last: usize = self.last_char_idx();
        let idx: usize = if i < last {
            i
        } else {
            last
        };
        let k: u8 = self.span_class(idx, big);
        let mut start: usize = idx;
        let mut searching = true;
        while start > 0 && searching
            invariant
                self.settled(),
                t == self@.text,
                start <= idx <= t.len(),
                !searching ==> back_over(t, idx as int, of_span(k, big)) == start,
                searching ==> back_over(t, idx as int, of_span(k, big)) == back_over(
                    t,
                    start as int,
                    of_span(k, big),
                ),
            decreases start, searching as int,
        {
            let prev: usize = self.prev_grapheme_idx(start);
            if self.span_class(prev, big) != k {
                searching = false;
            } else {
                start = prev;
            }
        }
        let mut end: usize = idx;
        while end < last && self.span_class(end, big) == k
            invariant
                self.settled(),
                t == self@.text,
                idx <= end <= t.len(),
                last <= t.len(),
                past(t, idx as int, last as int, of_span(k, big)) == past(
                    t,
                    end as int,
                    last as int,
                    of_span(k, big),
                ),
            decreases t.len() - end,
        {
            end = self.next_grapheme_idx(end);
        }
        (start, end)
    }

    /// `iw`/`aw`, and `iW`/`aW` where `big`.
    pub fn word_object(&self, cur: usize, inner: bool, count: usize, big: bool) -> (r: (
        usize,
        usize,
    ))
        requires
            self.settled(),
            cur < self@.text.len(),
        ensures
            (r.0 as int, r.1 as int) == word_range(
                self@.text,
                cur as int,
                inner,
                count as nat,
                big,
            ),
            r.0 <= self@.text.len(),
            r.1 <= self@.text.len(),
    {
        let ghost t = self@.text;
        let last: usize = self.last_char_idx();
        let (first, end0) = self.class_span(cur, big);
        if inner {
            let mut end: usize = end0;
            let mut remaining: usize = count.saturating_sub(1);
            while remaining > 0 && end < last
                invariant
                    self.settled(),
                    t == self@.text,
                    last == last_idx(t),
                    end <= t.len(),
                    first <= t.len(),
                    spans_on(t, end0 as int, less_one(count as nat), big) == spans_on(
                        t,
                        end as int,
                        remaining as nat,
                        big,
                    ),
                    (first as int, end0 as int) == span_of(t, cur as int, big),
                    inner,
                decreases remaining,
            {
                let (_, e2) = self.class_span(end, big);
                if e2 == end {
                    return (first, end);
                }
                end = e2;
                remaining -= 1;
            }
            return (first, end);
        }
        let mut start: usize = first;
        let mut end: usize = end0;
        let mut took = false;
        let mut units: usize = count;
        let blank = self.span_class(cur, big) == 0;
        if blank {
            if end < last {
                let (_, e2) = self.class_span(end, big);
                end = e2;
            }
            took = true;
            units = units.saturating_sub(1);
        }
        let ghost first_end = end as int;
        let ghost n = units as nat;
        while units > 0
            invariant
                self.settled(),
                t == self@.text,
                last == last_idx(t),
                end <= t.len(),
                words_on(t, first_end, n, blank, big) == words_on(
                    t,
                    end as int,
                    units as nat,
                    took,
                    big,
                ),
            decreases units,
        {
            if end < last && self.span_class(end, big) == 0 {
                let (_, e2) = self.class_span(end, big);
                end = e2;
                took = true;
            } else {
                took = false;
            }
            units -= 1;
            if units > 0 && end < last {
                let (_, e2) = self.class_span(end, big);
                end = e2;
            }
        }
        if !took && start > 0 {
            let prev: usize = self.prev_grapheme_idx(start);
            if self.span_class(prev, big) == 0 {
                let (s2, _) = self.class_span(prev, big);
                start = s2;
            }
        }
        (start, end)
    }

    fn find_unmatched_open(&self, open: char, close: char, from: usize) -> (r: Option<usize>)
        requires
            self.settled(),
            from < self@.text.len(),
        ensures
            match open_before(self@.text, open, close, from as int, from as int, 0) {
                Some(i) => r is Some && r->0 == i && i < self@.text.len() && char_or_blank(
                    self@.text,
                    i,
                ) == open,
                None => r is None,
            },
    {
        let ghost t = self@.text;
        let mut idx: usize = from;
        let mut depth: usize = 0;
        loop
            invariant
                self.settled(),
                t == self@.text,
                idx <= from < t.len(),
                depth <= from - idx,
                open_before(t, open, close, from as int, from as int, 0) == open_before(
                    t,
                    open,
                    close,
                    from as int,
                    idx as int,
                    depth as nat,
                ),
            decreases idx,
        {
            let c = self.char_or_blank(idx);
            if c == close && idx != from {
                depth += 1;
            } else if c == open {
                if depth == 0 {
                    return Some(idx);
                }
                depth -= 1;
            }
            if idx == 0 {
                return None;
            }
            idx = self.prev_grapheme_idx(idx);
        }
    }

    fn find_match_close(&self, open: char, close: char, open_idx: usize) -> (r: Option<usize>)
        requires
            self.settled(),
            open_idx < self@.text.len(),
            char_or_blank(self@.text, open_idx as int) == open,
        ensures
            match close_after(self@.text, open, close, open_idx as int, 0) {
                Some(i) => r is Some && r->0 == i && open_idx <= i < self@.text.len(),
                None => r is None,
            },
    {
        let ghost t = self@.text;
        let last: usize = self.last_char_idx();
        let mut idx: usize = open_idx;
        let mut depth: usize = 0;
        loop
            invariant
                self.settled(),
                t == self@.text,
                last == last_idx(t),
                open_idx <= idx < t.len(),
                depth <= idx - open_idx,
                depth == 0 ==> idx == open_idx && char_or_blank(t, idx as int) == open,
                close_after(t, open, close, open_idx as int, 0) == close_after(
                    t,
                    open,
                    close,
                    idx as int,
                    depth as int,
                ),
            decreases t.len() - idx,
        {
            let c = self.char_or_blank(idx);
            if c == open {
                depth += 1;
            } else if c == close {
                depth -= 1;
                if depth == 0 {
                    return Some(idx);
                }
            }
            if idx >= last {
                return None;
            }
            idx = self.next_grapheme_idx(idx);
        }
    }

    fn rest_of_line_blank(&self, idx: usize) -> (r: bool)
        requires
            self.settled(),
            idx < self@.text.len(),
        ensures
            r == blank_after(self@.text, idx as int),
    {
        let ghost t = self@.text;
        proof {
            lemma_own_line(t, idx as int);
        }
        let line: usize = self.byte_to_line(idx);
        let end: usize = self.line_start(line) + self.line_len(line);
        let mut i: usize = self.next_grapheme_idx(idx);
        while i < end
            invariant
                self.settled(),
                t == self@.text,
                i <= t.len(),
                end <= t.len(),
                end == own_start(t, idx as int) + own_line(t, idx as int).len(),
                past(t, next_idx(t, idx as int), end as int, space_or_tab()) == past(
                    t,
                    i as int,
                    end as int,
                    space_or_tab(),
                ),
            decreases t.len() - i,
        {
            if !matches!(self.char_or_blank(i), ' ' | '\t') {
                return false;
            }
            i = self.next_grapheme_idx(i);
        }
        true
    }

    fn start_of_line_blank(&self, idx: usize) -> (r: bool)
        requires
            self.settled(),
            idx < self@.text.len(),
        ensures
            r == blank_before(self@.text, idx as int),
    {
        let ghost t = self@.text;
        let mut i: usize = self.line_start(self.byte_to_line(idx));
        while i < idx
            invariant
                self.settled(),
                t == self@.text,
                i <= t.len(),
                idx < t.len(),
                past(t, own_start(t, idx as int), idx as int, space_or_tab()) == past(
                    t,
                    i as int,
                    idx as int,
                    space_or_tab(),
                ),
            decreases t.len() - i,
        {
            if !matches!(self.char_or_blank(i), ' ' | '\t') {
                return false;
            }
            i = self.next_grapheme_idx(i);
        }
        true
    }

    /// `i(`/`a(` and the like.
    pub fn pair_object(
        &self,
        cur: usize,
        inner: bool,
        open: char,
        close: char,
        visual: bool,
    ) -> (r: Option<(usize, usize, bool)>)
        requires
            self.settled(),
            cur < self@.text.len(),
        ensures
            match pair_range(self@.text, cur as int, inner, open, close, visual) {
                Some((lo, hi, linewise)) => {
                    &&& r is Some
                    &&& (r->0).0 == lo
                    &&& (r->0).1 == hi
                    &&& (r->0).2 == linewise
                    &&& lo <= self@.text.len()
                    &&& hi <= self@.text.len()
                },
                None => r is None,
            },
    {
        let open_idx: usize = match self.find_unmatched_open(open, close, cur) {
            Some(i) => i,
            None => {
                return None;
            },
        };
        let close_idx: usize = match self.find_match_close(open, close, open_idx) {
            Some(i) => i,
            None => {
                return None;
            },
        };
        if inner {
            let open_line: usize = self.byte_to_line(open_idx);
            let close_line: usize = self.byte_to_line(close_idx);
            if !visual && close_line > open_line && self.rest_of_line_blank(open_idx)
                && self.start_of_line_blank(close_idx) {
                let lo: usize = self.line_start(open_line + 1);
                let hi: usize = self.line_start(close_line);
                return Some((lo, hi, true));
            }
            return Some((self.next_grapheme_idx(open_idx), close_idx, false));
        }
        Some((open_idx, self.next_grapheme_idx(close_idx), false))
    }

    /// `i"`/`a"` and the like, on the cursor's line.
    pub fn quote_object(&self, at: Cursor, inner: bool, quote: u8) -> (r: Option<(usize, usize)>)
        requires
            self.settled(),
            at.line < edit_lines(self@.text),
        ensures
            match quote_range(line_text(self@.text, at.line as int), at.col as int, inner, quote) {
                Some((lo, hi)) => {
                    &&& r is Some
                    &&& (r->0).0 == line_start(self@.text, at.line as int) + lo
                    &&& (r->0).1 == line_start(self@.text, at.line as int) + hi
                    &&& (r->0).0 <= self@.text.len()
                    &&& (r->0).1 <= self@.text.len()
                },
                None => r is None,
            },
    {
        let ghost t = self@.text;
        proof {
            lemma_line_text(t, at.line as int);
        }
        let base: usize = self.line_start(at.line);
        let s = self.line(at.line);
        let bytes = s.as_str().as_bytes();
        let len: usize = bytes.len();
        let ghost l = bytes@;
        let mut quotes: Vec<usize> = Vec::new();
        let mut i: usize = 0;
        let ghost all = quote_columns(l, quote, 0);
        assert(as_ints(quotes@) + all =~= all);
        while i < len
            invariant
                len == l.len() == bytes@.len(),
                l == bytes@,
                as_ints(quotes@) + quote_columns(l, quote, i as int) == all,
                forall|k: int| 0 <= k < quotes@.len() ==> #[trigger] quotes@[k] < len,
            decreases len - i,
        {
            if bytes[i] == 92 {
                if len - i >= 2 {
                    i += 2;
                } else {
                    assert(quote_columns(l, quote, i + 2) =~= Seq::<int>::empty());
                    i = len;
                }
                continue;
            }
            if bytes[i] == quote {
                let ghost before = as_ints(quotes@);
                quotes.push(i);
                assert(as_ints(quotes@) =~= before.push(i as int));
                assert(as_ints(quotes@) + quote_columns(l, quote, i + 1) =~= before + (seq![
                    i as int,
                ] + quote_columns(l, quote, i + 1)));
            }
            i += 1;
        }
        assert(as_ints(quotes@) =~= all);
        let (open, close) = match quote_pair_in(&quotes, at.col) {
            Some(p) => p,
            None => {
                return None;
            },
        };
        if inner {
            return Some((base + (open + 1), base + close));
        }
        let mut hi: usize = close + 1;
        while hi < len && (bytes[hi] == 32 || bytes[hi] == 9)
            invariant
                len == l.len() == bytes@.len(),
                l == bytes@,
                close < hi <= len,
                indent_len(l, close + 1) == indent_len(l, hi as int),
            decreases len - hi,
        {
            hi += 1;
        }
        if hi > close + 1 {
            Some((base + open, base + hi))
        } else {
            let mut lo: usize = open;
            while lo > 0 && (bytes[lo - 1] == 32 || bytes[lo - 1] == 9)
                invariant
                    l == bytes@,
                    lo <= open < l.len(),
                    blanks_before(l, open as int) == blanks_before(l, lo as int),
                decreases lo,
            {
                lo -= 1;
            }
            Some((base + lo, base + hi))
        }
    }

    fn is_blank_line(&self, line: usize) -> (r: bool)
        requires
            self.wf(),
        ensures
            r == blank_line(self@.text, line as int),
    {
        self.line_len(line) == 0
    }

    fn block_up(&self, line: usize, k: bool) -> (r: usize)
        requires
            self.wf(),
        ensures
            r == block_top(self@.text, line as int, k),
            r <= line,
    {
        let mut n: usize = line;
        while n > 0 && self.is_blank_line(n - 1) == k
            invariant
                self.wf(),
                n <= line,
                block_top(self@.text, line as int, k) == block_top(self@.text, n as int, k),
            decreases n,
        {
            n -= 1;
        }
        n
    }

    fn block_down(&self, line: usize, k: bool) -> (r: usize)
        requires
            self.settled(),
            line < edit_lines(self@.text),
        ensures
            r == block_bottom(self@.text, line as int, k),
            line <= r < edit_lines(self@.text),
    {
        let total: usize = self.line_count();
        let mut n: usize = line;
        while n + 1 < total && self.is_blank_line(n + 1) == k
            invariant
                self.wf(),
                total == edit_lines(self@.text),
                line <= n < total,
                block_bottom(self@.text, line as int, k) == block_bottom(self@.text, n as int, k),
            decreases total - n,
        {
            n += 1;
        }
        n
    }

    /// `ip`/`ap`: the first line and the last.
    pub fn paragraph_object(&self, line: usize, inner: bool, count: usize) -> (r: (usize, usize))
        requires
            self.settled(),
            line < edit_lines(self@.text),
        ensures
            (r.0 as int, r.1 as int) == paragraph_lines(
                self@.text,
                line as int,
                inner,
                count as nat,
            ),
            r.0 < edit_lines(self@.text),
            r.1 < edit_lines(self@.text),
    {
        let ghost t = self@.text;
        let total: usize = self.line_count();
        let on_blank = self.is_blank_line(line);
        let mut first: usize = self.block_up(line, on_blank);
        let mut last: usize = self.block_down(line, on_blank);
        let mut kind = on_blank;
        let mut more: usize = count.saturating_sub(1);
        let ghost bottom = last as int;
        while more > 0 && last + 1 < total
            invariant
                self.settled(),
                t == self@.text,
                total == edit_lines(t),
                last < total,
                blocks_down(t, bottom, on_blank, less_one(count as nat)) == blocks_down(
                    t,
                    last as int,
                    kind,
                    more as nat,
                ),
            decreases more,
        {
            kind = !kind;
            last = self.block_down(last, kind);
            more -= 1;
        }
        if !inner {
            let trailing = !self.is_blank_line(last);
            if last + 1 < total && self.is_blank_line(last + 1) == trailing {
                last = self.block_down(last, trailing);
            } else {
                let leading = !self.is_blank_line(first);
                first = self.block_up(first, leading);
            }
        }
        (first, last)
    }

    /// The offsets of the paragraph at a line.
    pub fn current_paragraph_bytes(&self, line: usize) -> (r: (usize, usize))
        requires
            self.settled(),
            line < edit_lines(self@.text),
        ensures
            (r.0 as int, r.1 as int) == lines_range(
                self@.text,
                paragraph_around(self@.text, line as int).0,
                paragraph_around(self@.text, line as int).1,
            ),
            r.0 <= self@.text.len(),
            r.1 <= self@.text.len(),
    {
        let total: usize = self.line_count();
        let (first, last): (usize, usize) = if self.is_blank_line(line) {
            (line, line)
        } else {
            (self.block_up(line, false), self.block_down(line, false))
        };
        assert(last < total);
        (self.line_start(first), self.line_start(last + 1))
    }

    fn skip_white(&self, from: usize, limit: usize) -> (r: usize)
        requires
            self.settled(),
            from <= self@.text.len(),
            limit <= self@.text.len(),
        ensures
            r == past(self@.text, from as int, limit as int, white()),
            from <= r <= self@.text.len(),
    {
        let mut idx: usize = from;
        while idx < limit && is_white(self.char_or_blank(idx))
            invariant
                self.settled(),
                from <= idx <= self@.text.len(),
                limit <= self@.text.len(),
                past(self@.text, from as int, limit as int, white()) == past(
                    self@.text,
                    idx as int,
                    limit as int,
                    white(),
                ),
            decreases self@.text.len() - idx,
        {
            idx = self.next_grapheme_idx(idx);
        }
        idx
    }

    fn skip_closing(&self, from: usize, limit: usize) -> (r: usize)
        requires
            self.settled(),
            from <= self@.text.len(),
            limit <= self@.text.len(),
        ensures
            r == past(self@.text, from as int, limit as int, closing()),
            from <= r <= self@.text.len(),
    {
        let mut idx: usize = from;
        while idx < limit && is_closing(self.char_or_blank(idx))
            invariant
                self.settled(),
                from <= idx <= self@.text.len(),
                limit <= self@.text.len(),
                past(self@.text, from as int, limit as int, closing()) == past(
                    self@.text,
                    idx as int,
                    limit as int,
                    closing(),
                ),
            decreases self@.text.len() - idx,
        {
            idx = self.next_grapheme_idx(idx);
        }
        idx
    }

    fn white_back_to(&self, from: usize, lo: usize) -> (r: usize)
        requires
            self.settled(),
            from <= self@.text.len(),
        ensures
            r == back_to(self@.text, from as int, lo as int, white()),
            r <= from,
    {
        let mut i: usize = from;
        while i > lo && is_white(self.char_or_blank(self.prev_grapheme_idx(i)))
            invariant
                self.settled(),
                i <= from <= self@.text.len(),
                back_to(self@.text, from as int, lo as int, white()) == back_to(
                    self@.text,
                    i as int,
                    lo as int,
                    white(),
                ),
            decreases i,
        {
            i = self.prev_grapheme_idx(i);
        }
        i
    }

    /// `is`/`as`, within the paragraph at the cursor.
    pub fn sentence_object(
        &self,
        line: usize,
        cursor: usize,
        inner: bool,
        count: usize,
    ) -> (r: Option<(usize, usize)>)
        requires
            self.settled(),
            line < edit_lines(self@.text),
        ensures
            ({
                let t = self@.text;
                let p = paragraph_around(t, line as int);
                let (lo, hi) = lines_range(t, p.0, p.1);
                match sentence_range(t, lo, hi, cursor as int, inner, count as nat) {
                    Some((a, b)) => r is Some && (r->0).0 == a && (r->0).1 == b && a <= t.len() && b
                        <= t.len(),
                    None => r is None,
                }
            }),
    {
        let ghost t = self@.text;
        let (p_start, p_end) = self.current_paragraph_bytes(line);
        if p_start >= p_end {
            return None;
        }
        let mut segs: Vec<(usize, usize, usize)> = Vec::new();
        let mut s: usize = self.skip_white(p_start, p_end);
        let mut i: usize = s;
        let ghost s0 = s as int;
        let ghost all = sentences(t, s0, s0, p_end as int);
        assert(as_triples(segs@) + all =~= all);
        while i < p_end
            invariant
                self.settled(),
                t == self@.text,
                p_end <= t.len(),
                s <= i <= t.len(),
                as_triples(segs@) + sentences(t, s as int, i as int, p_end as int) == all,
                forall|k: int|
                    0 <= k < segs@.len() ==> (#[trigger] segs@[k]).0 <= t.len() && segs@[k].1
                        <= t.len() && segs@[k].2 <= t.len(),
            decreases t.len() - i,
        {
            let c = self.char_or_blank(i);
            let next: usize = self.next_grapheme_idx(i);
            let ghost before = as_triples(segs@);
            if c == '.' || c == '!' || c == '?' {
                let j: usize = self.skip_closing(next, p_end);
                let k: usize = self.skip_white(j, p_end);
                if j >= p_end || is_white(self.char_or_blank(j)) {
                    segs.push((s, j, k));
                    assert(as_triples(segs@) =~= before.push((s as int, j as int, k as int)));
                    assert(as_triples(segs@) + sentences(t, k as int, k as int, p_end as int)
                        =~= before + (seq![(s as int, j as int, k as int)] + sentences(
                        t,
                        k as int,
                        k as int,
                        p_end as int,
                    )));
                    s = k;
                    i = k;
                    continue;
                }
            }
            i = next;
        }
        if s < p_end {
            let text_end: usize = self.white_back_to(p_end, s);
            let ghost before = as_triples(segs@);
            segs.push((s, text_end, p_end));
            assert(as_triples(segs@) =~= before + seq![(s as int, text_end as int, p_end as int)]);
        }
        assert(as_triples(segs@) =~= all);
        if segs.len() == 0 {
            return None;
        }
        let n: usize = segs.len();
        let mut idx: usize = n - 1;
        while idx > 0 && segs[idx].0 > cursor
            invariant
                n == segs@.len() == all.len(),
                idx < n,
                all == as_triples(segs@),
                sentence_at(all, cursor as int, n as int) == sentence_at(
                    all,
                    cursor as int,
                    idx + 1,
                ),
            decreases idx,
        {
            assert(all[idx as int].0 == segs@[idx as int].0);
            idx -= 1;
        }
        assert(all[idx as int].0 == segs@[idx as int].0);
        let more: usize = count.saturating_sub(1);
        let end: usize = if more <= n - 1 - idx {
            idx + more
        } else {
            n - 1
        };
        let start: usize = segs[idx].0;
        let (_, text_end, ws_end) = segs[end];
        assert(all[end as int] == (segs@[end as int].0 as int, text_end as int, ws_end as int));
        if inner {
            Some((start, text_end))
        } else if ws_end > text_end {
            Some((start, ws_end))
        } else {
            Some((self.white_back_to(start, p_start), ws_end))
        }
    }
}

spec fn as_ints(v: Seq<usize>) -> Seq<int> {
    v.map_values(|x: usize| x as int)
}

spec fn as_triples(v: Seq<(usize, usize, usize)>) -> Seq<(int, int, int)> {
    v.map_values(|x: (usize, usize, usize)| (x.0 as int, x.1 as int, x.2 as int))
}

fn quote_pair_in(quotes: &Vec<usize>, c: usize) -> (r: Option<(usize, usize)>)
    ensures
        match quote_pair(as_ints(quotes@), c as int) {
            Some((a, b)) => r is Some && (r->0).0 == a && (r->0).1 == b && quotes@.contains((r->0).0)
                && quotes@.contains((r->0).1),
            None => r is None,
        },
{
    let ghost qs = as_ints(quotes@);
    let n: usize = quotes.len();
    let pairs: usize = n / 2;
    let mut k: usize = 0;
    while k < pairs
        invariant
            n == quotes@.len(),
            pairs == n / 2,
            k <= pairs,
            qs == as_ints(quotes@),
            pair_reaching(qs, c as int, 0) == pair_reaching(qs, c as int, k as int),
        decreases pairs - k,
    {
        assert(qs[2 * k] == quotes@[2 * k]);
        assert(qs[2 * k + 1] == quotes@[2 * k + 1]);
        if c <= quotes[2 * k + 1] {
            return Some((quotes[2 * k], quotes[2 * k + 1]));
        }
        k += 1;
    }
    let mut i: usize = n;
    while i > 0 && quotes[i - 1] >= c
        invariant
            n == quotes@.len(),
            i <= n,
            qs == as_ints(quotes@),
            last_below(qs, c as int, n as int) == last_below(qs, c as int, i as int),
        decreases i,
    {
        assert(qs[i - 1] == quotes@[i - 1]);
        i -= 1;
    }
    if i == 0 {
        return None;
    }
    assert(qs[i - 1] == quotes@[i - 1]);
    let mut j: usize = 0;
    while j < n && quotes[j] < c
        invariant
            n == quotes@.len(),
            j <= n,
            qs == as_ints(quotes@),
            first_from(qs, c as int, 0) == first_from(qs, c as int, j as int),
        decreases n - j,
    {
        assert(qs[j as int] == quotes@[j as int]);
        j += 1;
    }
    if j == n {
        return None;
    }
    assert(qs[j as int] == quotes@[j as int]);
    Some((quotes[i - 1], quotes[j]))
}

} // verus!
