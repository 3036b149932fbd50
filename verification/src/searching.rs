//! Searching: which match a search goes to, and where it leaves the cursor.

use vstd::prelude::*;
use vstd::utf8::*;

use crate::buffer::Buffer;
use crate::command::{NamedOperator, PendingCommand};
use crate::desk::{advanced, byte_len, is_uppercase, uppercase, Desk, Pane};
use crate::motion::MotionResult;
use crate::motions::{landing, line_at};
use crate::nav::{indent_len, last_idx, last_line_of};
use crate::num::{least, within};
use crate::operate::{motion_operated, with_pending};
use crate::options::{tab_width, Options};
use crate::search::{offset_kind, SearchDir, SearchOffset};
use crate::strings::{alphanumeric, chars_of, is_alphanumeric, string_of};
use crate::text::{
    buffer_text, edit_lines, lemma_buffer_lines, lemma_line_of, lemma_line_start,
    lemma_line_start_mono, line_of, line_text,
};
use crate::unicode::{virtcol, virtcol_of};
use crate::window::Cursor;

verus! {

/// The matches of a pattern on each line of a text: byte columns of their starts and
/// ends, from left to right and none inside another.
pub struct Hits {
    pub lines: Vec<Vec<(usize, usize)>>,
}

impl View for Hits {
    type V = Seq<Seq<(usize, usize)>>;

    open spec fn view(&self) -> Seq<Seq<(usize, usize)>> {
        self.lines@.map_values(|l: Vec<(usize, usize)>| l@)
    }
}

/// The matches on a line.
pub open spec fn hits_on(h: Seq<Seq<(usize, usize)>>, n: int) -> Seq<(usize, usize)> {
    if 0 <= n < h.len() {
        h[n]
    } else {
        Seq::empty()
    }
}

/// A match lies in the text and begins between two characters.
#[verifier::opaque]
pub open spec fn hit_fits(p: Pane, n: int, hit: (usize, usize)) -> bool {
    &&& hit.0 <= hit.1
    &&& p.start_of(n) + hit.1 <= p.text().len()
    &&& p.between(p.start_of(n) + hit.0)
}

/// All matches lie in the text and begin between two characters.
pub open spec fn hits_fit(p: Pane, h: Seq<Seq<(usize, usize)>>) -> bool {
    forall|n: int, k: int|
        0 <= n < h.len() && 0 <= k < h[n].len() ==> hit_fits(p, n, #[trigger] h[n][k])
}

/// The first match of a line that starts at column `col` or after it.
pub open spec fn first_from(l: Seq<(usize, usize)>, col: int, i: int) -> Option<(usize, usize)>
    decreases l.len() - i,
{
    if i < 0 || i >= l.len() {
        None
    } else if l[i].0 >= col {
        Some(l[i])
    } else {
        first_from(l, col, i + 1)
    }
}

/// How many matches of a line come before the first that starts at `cap` or after it.
pub open spec fn leading(l: Seq<(usize, usize)>, cap: int, i: int) -> int
    decreases l.len() - i,
{
    if i < 0 || i >= l.len() || l[i].0 >= cap {
        i
    } else {
        leading(l, cap, i + 1)
    }
}

/// A match of line `n` as a range of the text.
pub open spec fn range_of(p: Pane, n: int, hit: (usize, usize)) -> (int, int) {
    (p.start_of(n) + hit.0, p.start_of(n) + hit.1)
}

/// The first match from column `col` of line `n` on.
pub open spec fn forward_from(p: Pane, h: Seq<Seq<(usize, usize)>>, n: int, col: int) -> Option<
    (int, int),
>
    decreases edit_lines(p.text()) - n,
{
    if n < 0 || n >= edit_lines(p.text()) {
        None
    } else {
        match first_from(hits_on(h, n), col, 0) {
            Some(hit) => Some(range_of(p, n, hit)),
            None => forward_from(p, h, n + 1, 0),
        }
    }
}

/// The first match that starts at an offset or after it.
pub open spec fn match_forward(p: Pane, h: Seq<Seq<(usize, usize)>>, start: int) -> Option<
    (int, int),
> {
    let n = line_at(p, start);
    forward_from(
        p,
        h,
        n,
        if start >= p.start_of(n) {
            start - p.start_of(n)
        } else {
            0
        },
    )
}

/// The last match on line `n`, before column `cap` where there is one, or above it.
pub open spec fn backward_from(
    p: Pane,
    h: Seq<Seq<(usize, usize)>>,
    n: int,
    cap: Option<int>,
) -> Option<(int, int)>
    decreases n + 1,
{
    if n < 0 {
        None
    } else {
        let l = hits_on(h, n);
        let k = leading(
            l,
            match cap {
                Some(c) => c,
                None => (line_text(p.text(), n).len() + 1) as int,
            },
            0,
        );
        if k > 0 {
            Some(range_of(p, n, l[k - 1]))
        } else {
            backward_from(p, h, n - 1, None)
        }
    }
}

/// The last match that starts before an offset.
pub open spec fn match_backward(p: Pane, h: Seq<Seq<(usize, usize)>>, limit: int) -> Option<
    (int, int),
> {
    let n = line_at(p, limit);
    backward_from(
        p,
        h,
        n,
        Some(
            if limit >= p.start_of(n) {
                limit - p.start_of(n)
            } else {
                0
            },
        ),
    )
}

/// The next match in a direction, and the one that a search comes to that goes on from
/// the other end of the text.
pub open spec fn both_matches(
    p: Pane,
    h: Seq<Seq<(usize, usize)>>,
    dir: SearchDir,
    from: int,
) -> (Option<(int, int)>, Option<(int, int)>) {
    match dir {
        SearchDir::Forward => (match_forward(p, h, p.next(from)), match_forward(p, h, 0)),
        SearchDir::Backward => (
            match_backward(p, h, from),
            match_backward(p, h, p.text().len() as int),
        ),
    }
}

/// One step of a search: the match, and whether the search went on from the other end.
pub open spec fn search_step(
    p: Pane,
    h: Seq<Seq<(usize, usize)>>,
    dir: SearchDir,
    wrapscan: bool,
    from: int,
) -> Option<((int, int), bool)> {
    match both_matches(p, h, dir, from) {
        (Some(r), _) => Some((r, false)),
        (None, Some(r)) => if wrapscan {
            Some((r, true))
        } else {
            None
        },
        _ => None,
    }
}

/// The `n`th match from an offset on, and whether the search went on from the other end on
/// its way there.
pub open spec fn nth_match(
    p: Pane,
    h: Seq<Seq<(usize, usize)>>,
    dir: SearchDir,
    wrapscan: bool,
    from: int,
    n: nat,
) -> Option<((int, int), bool)>
    decreases n,
{
    if n == 0 {
        None
    } else {
        match search_step(p, h, dir, wrapscan, from) {
            None => None,
            Some(r) => if n == 1 {
                Some(r)
            } else {
                match nth_match(p, h, dir, wrapscan, (r.0).0, (n - 1) as nat) {
                    Some((hit, later)) => Some((hit, r.1 || later)),
                    None => None,
                }
            },
        }
    }
}

/// `n` graphemes back.
pub open spec fn steps_back(p: Pane, i: int, n: nat) -> int
    decreases n,
{
    if n == 0 {
        i
    } else {
        steps_back(p, p.prev(i), (n - 1) as nat)
    }
}

/// `n` graphemes on, or back.
pub open spec fn graphemes_from(p: Pane, base: int, n: int) -> int {
    if n >= 0 {
        advanced(p.text(), base, n as nat, last_idx(p.text())).0
    } else {
        steps_back(p, base, (-n) as nat)
    }
}

/// The cursor where a match leaves it: on its start or its end, so many graphemes
/// away, or so many lines from it.
pub open spec fn at_match(p: Pane, hit: (int, int), offset: SearchOffset) -> Pane {
    match offset {
        SearchOffset::Bare => p.at(hit.0).held(),
        SearchOffset::Start(n) => p.at(graphemes_from(p, hit.0, n as int)).held(),
        SearchOffset::End(n) => p.at(
            graphemes_from(
                p,
                if hit.1 > hit.0 {
                    p.prev(hit.1)
                } else {
                    hit.0
                },
                n as int,
            ),
        ).held(),
        SearchOffset::Line(n) => {
            let line = within(line_at(p, hit.0) + n, 0, last_line_of(p.text()));
            p.with_cursor(
                Cursor {
                    line: line as usize,
                    col: indent_len(line_text(p.text(), line), 0) as usize,
                },
            ).held()
        },
    }
}

/// What came of a search.
#[derive(Debug, Clone, Copy, PartialEq, Eq, Structural)]
pub enum SearchEnd {
    /// There is no such match.
    Miss,
    /// The cursor is on a match.
    Found,
    /// The cursor is on a match that was found from the other end of the text.
    Wrapped,
    /// An operator was applied up to a match.
    Operated,
}

/// A search for the `n`th match: where it leaves the cursor, or what an operator does
/// to the text from there back to where the search began. What is pending stays so.
pub open spec fn search_run(
    p: Pane,
    h: Seq<Seq<(usize, usize)>>,
    dir: SearchDir,
    offset: SearchOffset,
    n: nat,
    op: Option<NamedOperator>,
    wrapscan: bool,
) -> (Pane, SearchEnd) {
    match nth_match(p, h, dir, wrapscan, p.spot(), n) {
        None => (p, SearchEnd::Miss),
        Some((hit, wrapped)) => {
            let q = at_match(p, hit, offset);
            match op {
                Some(o) => (
                    with_pending(
                        motion_operated(
                            with_pending(
                                q,
                                PendingCommand { register: o.register, ..p.live.pending },
                            ),
                            o.op,
                            landing(p.spot(), offset_kind(offset)),
                        ),
                        p.live.pending,
                    ),
                    SearchEnd::Operated,
                ),
                None => (
                    q,
                    if wrapped {
                        SearchEnd::Wrapped
                    } else {
                        SearchEnd::Found
                    },
                ),
            }
        },
    }
}

/// The cursor where a search that is still being typed would leave it, from the place
/// where it began.
pub open spec fn search_preview(
    p: Pane,
    h: Option<Seq<Seq<(usize, usize)>>>,
    origin: Cursor,
    dir: SearchDir,
    offset: SearchOffset,
    wrapscan: bool,
) -> Pane {
    let q = p.with_cursor(origin);
    match h {
        None => q.held(),
        Some(h) => match search_step(q, h, dir, wrapscan, q.spot()) {
            Some((hit, _)) => at_match(q, hit, offset),
            None => q.held(),
        },
    }
}

/// A character of a word.
pub open spec fn word_char(c: char) -> bool {
    alphanumeric(c) || c == '_'
}

/// The first character from the `k`th on, at byte `b`, that begins at column `col` or
/// after it, and the column where it begins.
pub open spec fn char_from(s: Seq<char>, col: int, k: int, b: int) -> Option<(int, int)>
    decreases s.len() - k,
{
    if k < 0 || k >= s.len() {
        None
    } else if b >= col {
        Some((k, b))
    } else {
        char_from(s, col, k + 1, b + encode_utf8(seq![s[k]]).len())
    }
}

/// The first character of a word from the `k`th on.
pub open spec fn word_from(s: Seq<char>, k: int) -> int
    decreases s.len() - k,
{
    if k < 0 || k >= s.len() || word_char(s[k]) {
        k
    } else {
        word_from(s, k + 1)
    }
}

/// The end of the word that the `k`th character is in.
pub open spec fn word_stop(s: Seq<char>, k: int) -> int
    decreases s.len() - k,
{
    if k < 0 || k >= s.len() || !word_char(s[k]) {
        k
    } else {
        word_stop(s, k + 1)
    }
}

/// The start of the word that the `k`th character is in.
pub open spec fn word_begin(s: Seq<char>, k: int) -> int
    decreases k,
{
    if k <= 0 || k > s.len() || !word_char(s[k - 1]) {
        k
    } else {
        word_begin(s, k - 1)
    }
}

/// The word at a byte column of a line: the one there, else the next one.
pub open spec fn word_at_column(s: Seq<char>, col: int) -> Option<Seq<char>> {
    match char_from(s, col, 0, 0) {
        None => None,
        Some((start, b)) => {
            let k = word_from(s, start);
            if k >= s.len() {
                None
            } else {
                let lo = if b == col && word_char(s[start]) {
                    word_begin(s, k)
                } else {
                    k
                };
                Some(s.subrange(lo, word_stop(s, k)))
            }
        },
    }
}

/// Whether a pattern is looked for in either case.
pub open spec fn folds_case(o: Options, pattern: Seq<char>) -> bool {
    o.ignorecase && !(o.smartcase && exists|i: int|
        0 <= i < pattern.len() && uppercase(#[trigger] pattern[i]))
}

/// The screen columns of the matches of a line.
pub open spec fn spans_of(l: Seq<(usize, usize)>, t: Seq<u8>, ts: int) -> Seq<(usize, usize)> {
    l.map_values(
        |hit: (usize, usize)|
            (
                virtcol_of(t, hit.0 as int, ts) as usize,
                virtcol_of(t, hit.1 as int, ts) as usize,
            ),
    )
}

/// The last match among the first `k` that starts at a column.
pub open spec fn last_at(l: Seq<(usize, usize)>, col: int, k: int) -> Option<int>
    decreases k,
{
    if k <= 0 {
        None
    } else if l[k - 1].0 == col {
        Some(k - 1)
    } else {
        last_at(l, col, k - 1)
    }
}

/// The screen columns to paint on a row that shows line `n`.
pub open spec fn row_spans(t: Seq<u8>, h: Seq<Seq<(usize, usize)>>, n: int, ts: int) -> Seq<
    (usize, usize),
> {
    if n < edit_lines(t) {
        spans_of(hits_on(h, n), line_text(t, n), ts)
    } else {
        Seq::empty()
    }
}

/// The match on line `n` that the cursor is on the start of, in screen columns.
pub open spec fn row_current(
    t: Seq<u8>,
    h: Seq<Seq<(usize, usize)>>,
    n: int,
    ts: int,
    cursor: Cursor,
) -> Option<(usize, usize)> {
    if n < edit_lines(t) && n == cursor.line {
        match last_at(hits_on(h, n), cursor.col as int, hits_on(h, n).len() as int) {
            Some(k) => Some(row_spans(t, h, n, ts)[k]),
            None => None,
        }
    } else {
        None
    }
}

/// Whether a pattern is looked for in either case: where `ignorecase` is on, unless
/// `smartcase` is too and the pattern holds an upper-case character.
pub fn search_ignorecase(o: &Options, pattern: &str) -> (b: bool)
    ensures
        b == folds_case(*o, pattern@),
{
    if !o.ignorecase {
        return false;
    }
    if !o.smartcase {
        return true;
    }
    let v = chars_of(pattern);
    let mut i: usize = 0;
    while i < v.len()
        invariant
            i <= v@.len(),
            v@ == pattern@,
            o.ignorecase,
            o.smartcase,
            forall|j: int| 0 <= j < i ==> !uppercase(#[trigger] pattern@[j]),
        decreases v@.len() - i,
    {
        if is_uppercase(v[i]) {
            return false;
        }
        i += 1;
    }
    true
}

fn is_word(c: char) -> (b: bool)
    ensures
        b == word_char(c),
{
    c == '_' || is_alphanumeric(c)
}

/// The word at a byte column of a line: the one there, else the next one.
pub fn word_at(line: &str, col: usize) -> (r: Option<String>)
    ensures
        crate::buffer::opt_chars(r) == word_at_column(line@, col as int),
{
    let v = chars_of(line);
    let n: usize = v.len();
    let mut start: usize = 0;
    let mut b: u128 = 0;
    while start < n && b < col as u128
        invariant
            n == v@.len(),
            v@ == line@,
            start <= n,
            b <= usize::MAX + 8,
            char_from(line@, col as int, 0, 0) == char_from(
                line@,
                col as int,
                start as int,
                b as int,
            ),
        decreases n - start,
    {
        let w: usize = byte_len(v[start]);
        proof {
            reveal_with_fuel(encode_utf8, 2);
            assert(seq![v@[start as int]].drop_first() =~= Seq::<char>::empty());
        }
        b = b + w as u128;
        start += 1;
    }
    if start >= n {
        return None;
    }
    let mut k: usize = start;
    while k < n && !is_word(v[k])
        invariant
            n == v@.len(),
            v@ == line@,
            start <= k <= n,
            word_from(line@, start as int) == word_from(line@, k as int),
        decreases n - k,
    {
        k += 1;
    }
    if k >= n {
        return None;
    }
    let mut lo: usize = k;
    if b == col as u128 && is_word(v[start]) {
        while lo > 0 && is_word(v[lo - 1])
            invariant
                n == v@.len(),
                v@ == line@,
                lo <= k < n,
                word_begin(line@, k as int) == word_begin(line@, lo as int),
            decreases lo,
        {
            lo -= 1;
        }
    }
    let mut hi: usize = k;
    while hi < n && is_word(v[hi])
        invariant
            n == v@.len(),
            v@ == line@,
            lo <= k <= hi <= n,
            word_stop(line@, k as int) == word_stop(line@, hi as int),
        decreases n - hi,
    {
        hi += 1;
    }
    Some(string_of(&v, lo, hi))
}

impl Hits {
    /// The first match of line `n` that starts at column `col` or after it.
    fn first_from(&self, n: usize, col: usize) -> (r: Option<(usize, usize)>)
        ensures
            r == first_from(hits_on(self@, n as int), col as int, 0),
            r is Some ==> n < self@.len() && exists|k: int|
                0 <= k < self@[n as int].len() && #[trigger] self@[n as int][k] == r->0,
    {
        if n >= self.lines.len() {
            return None;
        }
        let l = &self.lines[n];
        let mut i: usize = 0;
        while i < l.len()
            invariant
                n < self.lines@.len(),
                *l == self.lines@[n as int],
                i <= l@.len(),
                first_from(l@, col as int, 0) == first_from(l@, col as int, i as int),
            decreases l@.len() - i,
        {
            if l[i].0 >= col {
                assert(self@[n as int][i as int] == l@[i as int]);
                return Some(l[i]);
            }
            i += 1;
        }
        None
    }

    /// The last of the matches of line `n` that come before the first one that starts
    /// at column `cap` or after it.
    fn last_before(&self, n: usize, cap: u128) -> (r: Option<(usize, usize)>)
        ensures
            ({
                let l = hits_on(self@, n as int);
                let k = leading(l, cap as int, 0);
                r == if k > 0 {
                    Some(l[k - 1])
                } else {
                    None
                }
            }),
            r is Some ==> n < self@.len() && exists|k: int|
                0 <= k < self@[n as int].len() && #[trigger] self@[n as int][k] == r->0,
    {
        if n >= self.lines.len() {
            return None;
        }
        let l = &self.lines[n];
        let mut i: usize = 0;
        while i < l.len() && (l[i].0 as u128) < cap
            invariant
                n < self.lines@.len(),
                *l == self.lines@[n as int],
                i <= l@.len(),
                leading(l@, cap as int, 0) == leading(l@, cap as int, i as int),
            decreases l@.len() - i,
        {
            i += 1;
        }
        if i > 0 {
            assert(self@[n as int][i - 1] == l@[i - 1]);
            Some(l[i - 1])
        } else {
            None
        }
    }
}

impl Desk {
    /// Whether matches lie in the text and begin between two characters.
    pub fn hits_fit(&self, h: &Hits) -> (b: bool)
        requires
            self.wf(),
        ensures
            b == hits_fit(self@, h@),
    {
        let mut n: usize = 0;
        while n < h.lines.len()
            invariant
                self.wf(),
                n <= h.lines@.len(),
                forall|m: int, k: int|
                    0 <= m < n && 0 <= k < h@[m].len() ==> hit_fits(self@, m, #[trigger] h@[m][k]),
            decreases h.lines@.len() - n,
        {
            let l = &h.lines[n];
            let start: usize = self.start_of(n);
            let mut i: usize = 0;
            while i < l.len()
                invariant
                    self.wf(),
                    n < h.lines@.len(),
                    *l == h.lines@[n as int],
                    start == self@.start_of(n as int),
                    i <= l@.len(),
                    forall|k: int|
                        0 <= k < i ==> hit_fits(self@, n as int, #[trigger] h@[n as int][k]),
                decreases l@.len() - i,
            {
                assert(h@[n as int][i as int] == l@[i as int]);
                if !self.hit_fits(n, start, l[i]) {
                    return false;
                }
                i += 1;
            }
            n += 1;
        }
        true
    }

    fn hit_fits(&self, n: usize, start: usize, hit: (usize, usize)) -> (b: bool)
        requires
            self.wf(),
            start == self@.start_of(n as int),
        ensures
            b == hit_fits(self@, n as int, hit),
    {
        proof {
            reveal(hit_fits);
            reveal(Pane::between);
            self.text_is_settled();
        }
        let len: usize = self.buffer().len_bytes();
        if hit.0 > hit.1 || start > len || hit.1 > len - start {
            return false;
        }
        let at: usize = start + hit.0;
        proof {
            is_char_boundary_start_end_of_seq(self@.text());
        }
        at == len || self.buffer().char_at(at).is_some()
    }

    fn match_forward_from(&self, h: &Hits, start: usize) -> (r: Option<(usize, usize)>)
        requires
            self.wf(),
            hits_fit(self@, h@),
        ensures
            match match_forward(self@, h@, start as int) {
                Some(m) => r is Some && (r->0).0 == m.0 && (r->0).1 == m.1,
                None => r is None,
            },
            r is Some ==> (r->0).0 <= (r->0).1 <= self@.text().len() && self@.between(
                (r->0).0 as int,
            ),
    {
        let count: usize = self.buffer().line_count();
        let mut line: usize = self.line_at(start);
        let mut col: usize = start.saturating_sub(self.start_of(line));
        while line < count
            invariant
                self.wf(),
                hits_fit(self@, h@),
                count == edit_lines(self@.text()),
                match_forward(self@, h@, start as int) == forward_from(
                    self@,
                    h@,
                    line as int,
                    col as int,
                ),
            decreases count - line,
        {
            if let Some(hit) = h.first_from(line, col) {
                let base: usize = self.start_of(line);
                proof {
                    assert(hit_fits(self@, line as int, hit));
                    reveal(hit_fits);
                    self.text_is_settled();
                }
                return Some((base + hit.0, base + hit.1));
            }
            line += 1;
            col = 0;
        }
        None
    }

    fn match_backward_before(&self, h: &Hits, limit: usize) -> (r: Option<(usize, usize)>)
        requires
            self.wf(),
            hits_fit(self@, h@),
        ensures
            match match_backward(self@, h@, limit as int) {
                Some(m) => r is Some && (r->0).0 == m.0 && (r->0).1 == m.1,
                None => r is None,
            },
            r is Some ==> (r->0).0 <= (r->0).1 <= self@.text().len() && self@.between(
                (r->0).0 as int,
            ),
    {
        let mut line: usize = self.line_at(limit);
        let mut cap: u128 = limit.saturating_sub(self.start_of(line)) as u128;
        let ghost mut first = true;
        loop
            invariant
                self.wf(),
                hits_fit(self@, h@),
                line < edit_lines(self@.text()),
                match_backward(self@, h@, limit as int) == backward_from(
                    self@,
                    h@,
                    line as int,
                    if first {
                        Some(cap as int)
                    } else {
                        None
                    },
                ),
                !first ==> cap == line_text(self@.text(), line as int).len() + 1,
            decreases line,
        {
            if let Some(hit) = h.last_before(line, cap) {
                let base: usize = self.start_of(line);
                proof {
                    assert(hit_fits(self@, line as int, hit));
                    reveal(hit_fits);
                    self.text_is_settled();
                }
                return Some((base + hit.0, base + hit.1));
            }
            if line == 0 {
                assert(backward_from(self@, h@, -1, None) is None);
                return None;
            }
            line -= 1;
            cap = self.buffer().line_len(line) as u128 + 1;
            proof {
                first = false;
            }
        }
    }

    /// The next match in a direction, and whether the search went on from the other
    /// end of the text for it.
    fn next_match(&self, h: &Hits, dir: SearchDir, wrapscan: bool, from: usize) -> (r: Option<
        ((usize, usize), bool),
    >)
        requires
            self.wf(),
            hits_fit(self@, h@),
            from <= self@.text().len(),
        ensures
            match search_step(self@, h@, dir, wrapscan, from as int) {
                Some((m, w)) => r is Some && ((r->0).0).0 == m.0 && ((r->0).0).1 == m.1 && (
                r->0).1 == w,
                None => r is None,
            },
            r is Some ==> ((r->0).0).0 <= ((r->0).0).1 <= self@.text().len() && self@.between(
                ((r->0).0).0 as int,
            ),
    {
        let first = match dir {
            SearchDir::Forward => {
                let next: usize = self.next(from);
                self.match_forward_from(h, next)
            },
            SearchDir::Backward => self.match_backward_before(h, from),
        };
        if let Some(m) = first {
            return Some((m, false));
        }
        if !wrapscan {
            return None;
        }
        let again = match dir {
            SearchDir::Forward => self.match_forward_from(h, 0),
            SearchDir::Backward => {
                let len: usize = self.buffer().len_bytes();
                self.match_backward_before(h, len)
            },
        };
        match again {
            Some(m) => Some((m, true)),
            None => None,
        }
    }

    proof fn last_is_between(&self)
        requires
            self.wf(),
        ensures
            self@.between(last_idx(self@.text())),
            last_idx(self@.text()) < self@.text().len(),
    {
        reveal(Pane::between);
        self.text_is_settled();
        let t = self@.text();
        is_char_boundary_iff_not_is_continuation_byte(t, t.len() - 1);
    }

    fn shift_graphemes(&self, base: usize, n: isize) -> (r: usize)
        requires
            self.wf(),
            base <= self@.text().len(),
            self@.between(base as int),
        ensures
            r == graphemes_from(self@, base as int, n as int),
    {
        if n >= 0 {
            proof {
                self.last_is_between();
            }
            let last: usize = self.buffer().last_char_idx();
            let (r, _) = self.advance(base, n as usize, last);
            r
        } else {
            let mut b: usize = base;
            let mut left: isize = n;
            while left < 0
                invariant
                    self.wf(),
                    n <= left <= 0,
                    b <= self@.text().len(),
                    graphemes_from(self@, base as int, n as int) == steps_back(
                        self@,
                        b as int,
                        (-left) as nat,
                    ),
                decreases -left,
            {
                b = self.prev(b);
                left += 1;
            }
            b
        }
    }

    /// Leave the cursor at a match.
    pub fn place_with_offset(&mut self, start: usize, end: usize, offset: SearchOffset)
        requires
            old(self).wf(),
            start <= end <= old(self)@.text().len(),
            old(self)@.between(start as int),
        ensures
            final(self).wf(),
            final(self)@ == at_match(old(self)@, (start as int, end as int), offset),
    {
        match offset {
            SearchOffset::Bare => self.move_to_match(start),
            SearchOffset::Start(n) => {
                let to: usize = self.shift_graphemes(start, n);
                self.move_to_match(to);
            },
            SearchOffset::End(n) => {
                let base: usize = if end > start {
                    self.prev(end)
                } else {
                    start
                };
                let to: usize = self.shift_graphemes(base, n);
                self.move_to_match(to);
            },
            SearchOffset::Line(n) => {
                let last: usize = self.buffer().last_line();
                let at: i128 = self.line_at(start) as i128 + n as i128;
                let line: usize = if at < 0 {
                    0
                } else if at > last as i128 {
                    last
                } else {
                    at as usize
                };
                let col: usize = self.buffer().first_non_blank(line);
                self.set_cursor(Cursor { line, col });
                self.clamp_cursor();
            },
        }
    }

    fn move_to_match(&mut self, byte: usize)
        requires
            old(self).wf(),
        ensures
            final(self).wf(),
            final(self)@ == old(self)@.at(byte as int).held(),
    {
        self.set_cursor_char(byte);
        self.clamp_cursor();
    }

    /// The `n`th match from an offset on.
    fn find_nth(&self, h: &Hits, dir: SearchDir, wrapscan: bool, from: usize, n: usize) -> (r:
        Option<((usize, usize), bool)>)
        requires
            self.wf(),
            hits_fit(self@, h@),
            from <= self@.text().len(),
        ensures
            match nth_match(self@, h@, dir, wrapscan, from as int, n as nat) {
                Some((m, w)) => r is Some && ((r->0).0).0 == m.0 && ((r->0).0).1 == m.1 && (
                r->0).1 == w,
                None => r is None,
            },
            r is Some ==> ((r->0).0).0 <= ((r->0).0).1 <= self@.text().len() && self@.between(
                ((r->0).0).0 as int,
            ),
    {
        let mut at: usize = from;
        let mut left: usize = n;
        let mut wrapped = false;
        while left > 1
            invariant
                self.wf(),
                hits_fit(self@, h@),
                at <= self@.text().len(),
                left <= n,
                n >= 1 ==> left >= 1,
                n == 0 ==> left == 0,
                nth_match(self@, h@, dir, wrapscan, from as int, n as nat) == (match nth_match(
                    self@,
                    h@,
                    dir,
                    wrapscan,
                    at as int,
                    left as nat,
                ) {
                    Some((hit, later)) => Some((hit, wrapped || later)),
                    None => None,
                }),
            decreases left,
        {
            match self.next_match(h, dir, wrapscan, at) {
                None => {
                    return None;
                },
                Some((m, w)) => {
                    at = m.0;
                    wrapped = wrapped || w;
                },
            }
            left -= 1;
        }
        if left == 0 {
            return None;
        }
        match self.next_match(h, dir, wrapscan, at) {
            Some((m, w)) => Some((m, wrapped || w)),
            None => None,
        }
    }

    /// Search for the `n`th match in a direction. The cursor goes there, or an
    /// operator is applied from there back to where the search began.
    pub fn run_search(
        &mut self,
        h: &Hits,
        dir: SearchDir,
        offset: SearchOffset,
        n: usize,
        op: Option<NamedOperator>,
        wrapscan: bool,
    ) -> (end: SearchEnd)
        requires
            old(self).wf(),
            hits_fit(old(self)@, h@),
        ensures
            final(self).wf(),
            (final(self)@, end) == search_run(
                old(self)@,
                h@,
                dir,
                offset,
                n as nat,
                op,
                wrapscan,
            ),
    {
        let origin: usize = self.spot();
        let pending = self.live().pending;
        match self.find_nth(h, dir, wrapscan, origin, n) {
            None => SearchEnd::Miss,
            Some(((start, end), wrapped)) => {
                let ghost before = self@.text();
                self.place_with_offset(start, end, offset);
                match op {
                    Some(o) => {
                        proof {
                            lemma_placing_keeps_text(
                                old(self)@,
                                (start as int, end as int),
                                offset,
                            );
                        }
                        let m = MotionResult::horizontal(origin, offset.motion_kind());
                        let mut named = pending;
                        named.register = o.register;
                        self.set_pending(named);
                        self.apply_operator(o.op, m);
                        self.set_pending(pending);
                        SearchEnd::Operated
                    },
                    None => if wrapped {
                        SearchEnd::Wrapped
                    } else {
                        SearchEnd::Found
                    },
                }
            },
        }
    }

    /// Show where a search that is still being typed would go, from the place where
    /// it began. There are no matches to go to while the pattern is empty or not
    /// understood.
    pub fn preview_search(
        &mut self,
        h: Option<&Hits>,
        origin: Cursor,
        dir: SearchDir,
        offset: SearchOffset,
        wrapscan: bool,
    )
        requires
            old(self).wf(),
            h is Some ==> hits_fit(old(self)@, (h->0)@),
        ensures
            final(self).wf(),
            final(self)@ == search_preview(
                old(self)@,
                match h {
                    Some(h) => Some(h@),
                    None => None,
                },
                origin,
                dir,
                offset,
                wrapscan,
            ),
    {
        self.set_cursor(origin);
        if let Some(h) = h {
            proof {
                lemma_fits_same(old(self)@, self@, h@);
            }
            let from: usize = self.spot();
            if let Some(((start, end), _)) = self.next_match(h, dir, wrapscan, from) {
                self.place_with_offset(start, end, offset);
                return;
            }
        }
        self.clamp_cursor();
    }

    /// The word under the cursor, or the next one on its line.
    pub fn word_under_cursor(&self) -> (r: Option<String>)
        requires
            self.wf(),
        ensures
            crate::buffer::opt_chars(r) == word_at_column(
                decode_utf8(self@.line()),
                self@.live.cursor.col as int,
            ),
    {
        let s = self.line();
        proof {
            encode_utf8_decode_utf8(s@);
        }
        word_at(s.as_str(), self.live().cursor.col)
    }
}

proof fn lemma_placing_keeps_text(p: Pane, hit: (int, int), offset: SearchOffset)
    ensures
        at_match(p, hit, offset).text() == p.text(),
{
    reveal(Pane::at);
    reveal(Pane::held);
}

/// Whether matches fit depends on the text alone.
pub proof fn lemma_fits_same(p: Pane, q: Pane, h: Seq<Seq<(usize, usize)>>)
    requires
        p.text() == q.text(),
        hits_fit(p, h),
    ensures
        hits_fit(q, h),
{
    reveal(hit_fits);
    reveal(Pane::start_of);
    reveal(Pane::between);
    assert forall|n: int, k: int| 0 <= n < h.len() && 0 <= k < h[n].len() implies hit_fits(
        q,
        n,
        #[trigger] h[n][k],
    ) by {
        assert(hit_fits(p, n, h[n][k]));
    }
}

impl Buffer {
    /// The screen columns to paint on so many rows from line `base` on: those of the
    /// matches on each row and, while a search is being typed, those of the match that
    /// the cursor is on the start of.
    pub fn search_highlights_in(
        &self,
        h: &Hits,
        cursor: Cursor,
        incsearch: bool,
        base: usize,
        count: usize,
    ) -> (r: (Vec<Vec<(usize, usize)>>, Vec<Option<(usize, usize)>>))
        requires
            self.settled(),
        ensures
            r.0@.len() == count,
            r.1@.len() == count,
            forall|i: int|
                0 <= i < count ==> (#[trigger] r.0@[i])@ == row_spans(
                    self@.text,
                    h@,
                    base + i,
                    tab_width(self@.options) as int,
                ),
            forall|i: int|
                0 <= i < count ==> #[trigger] r.1@[i] == if incsearch {
                    row_current(
                        self@.text,
                        h@,
                        base + i,
                        tab_width(self@.options) as int,
                        cursor,
                    )
                } else {
                    None
                },
    {
        let ts: usize = self.options.effective_tabstop();
        let total: usize = self.line_count();
        let mut matches: Vec<Vec<(usize, usize)>> = Vec::new();
        let mut current: Vec<Option<(usize, usize)>> = Vec::new();
        let mut row: usize = 0;
        while row < count
            invariant
                self.settled(),
                ts == tab_width(self@.options),
                total == edit_lines(self@.text),
                row <= count,
                matches@.len() == row,
                current@.len() == row,
                forall|i: int|
                    0 <= i < row ==> (#[trigger] matches@[i])@ == row_spans(
                        self@.text,
                        h@,
                        base + i,
                        tab_width(self@.options) as int,
                    ),
                forall|i: int|
                    0 <= i < row ==> #[trigger] current@[i] == if incsearch {
                        row_current(
                            self@.text,
                            h@,
                            base + i,
                            tab_width(self@.options) as int,
                            cursor,
                        )
                    } else {
                        None
                    },
            decreases count - row,
        {
            if base < total && row < total - base {
                let (spans, at) = self.line_spans(h, cursor, incsearch, base + row, ts);
                matches.push(spans);
                current.push(at);
            } else {
                let none: Vec<(usize, usize)> = Vec::new();
                assert(none@ =~= row_spans(self@.text, h@, base + row, ts as int));
                matches.push(none);
                current.push(None);
            }
            row += 1;
        }
        (matches, current)
    }

    fn line_spans(&self, h: &Hits, cursor: Cursor, incsearch: bool, n: usize, ts: usize) -> (r: (
        Vec<(usize, usize)>,
        Option<(usize, usize)>,
    ))
        requires
            self.settled(),
            n < edit_lines(self@.text),
            ts >= 1,
        ensures
            r.0@ == row_spans(self@.text, h@, n as int, ts as int),
            r.1 == if incsearch {
                row_current(self@.text, h@, n as int, ts as int, cursor)
            } else {
                None
            },
    {
        let mut spans: Vec<(usize, usize)> = Vec::new();
        let mut at: Option<(usize, usize)> = None;
        let s = self.line(n);
        let ghost t = encode_utf8(s@);
        let ghost all = hits_on(h@, n as int);
        if n < h.lines.len() {
            let l = &h.lines[n];
            let mut i: usize = 0;
            while i < l.len()
                invariant
                    n < h.lines@.len(),
                    *l == h.lines@[n as int],
                    all == l@,
                    t == encode_utf8(s@),
                    ts >= 1,
                    i <= l@.len(),
                    spans@ == spans_of(all, t, ts as int).take(i as int),
                    at == if incsearch && n == cursor.line {
                        match last_at(all, cursor.col as int, i as int) {
                            Some(k) => Some(spans_of(all, t, ts as int)[k]),
                            None => None,
                        }
                    } else {
                        None
                    },
                decreases l@.len() - i,
            {
                let span = (
                    virtcol(s.as_str(), l[i].0, ts),
                    virtcol(s.as_str(), l[i].1, ts),
                );
                spans.push(span);
                assert(spans@ =~= spans_of(all, t, ts as int).take(i + 1));
                if incsearch && n == cursor.line && l[i].0 == cursor.col {
                    at = Some(span);
                }
                i += 1;
            }
            assert(spans_of(all, t, ts as int).take(i as int) =~= spans_of(all, t, ts as int));
        } else {
            assert(spans@ =~= spans_of(all, t, ts as int));
        }
        (spans, at)
    }
}

proof fn lemma_first_from(l: Seq<(usize, usize)>, col: int, i: int)
    requires
        0 <= i <= l.len(),
    ensures
        match first_from(l, col, i) {
            Some(hit) => hit.0 >= col,
            None => i < l.len() ==> col > 0,
        },
    decreases l.len() - i,
{
    if i < l.len() && l[i].0 < col {
        lemma_first_from(l, col, i + 1);
    }
}

proof fn lemma_leading(l: Seq<(usize, usize)>, cap: int, i: int)
    requires
        0 <= i <= l.len(),
    ensures
        i <= leading(l, cap, i) <= l.len(),
        leading(l, cap, i) > i ==> l[leading(l, cap, i) - 1].0 < cap,
    decreases l.len() - i,
{
    if i < l.len() && l[i].0 < cap {
        lemma_leading(l, cap, i + 1);
    }
}

proof fn lemma_forward_from(p: Pane, h: Seq<Seq<(usize, usize)>>, n: int, col: int)
    requires
        buffer_text(p.text()),
        0 <= n,
        0 <= col,
    ensures
        match forward_from(p, h, n, col) {
            Some(m) => m.0 >= p.start_of(n) + col || (n + 1 < edit_lines(p.text()) && m.0
                >= p.start_of(n + 1)),
            None => true,
        },
    decreases edit_lines(p.text()) - n,
{
    reveal(Pane::start_of);
    if n < edit_lines(p.text()) {
        lemma_first_from(hits_on(h, n), col, 0);
        if first_from(hits_on(h, n), col, 0) is None {
            lemma_forward_from(p, h, n + 1, 0);
            lemma_line_start_mono(p.text(), n + 1, n + 2);
        }
    }
}

/// Every match starts on its line.
pub open spec fn hits_on_lines(p: Pane, h: Seq<Seq<(usize, usize)>>) -> bool {
    forall|n: int, k: int|
        0 <= n < h.len() && 0 <= k < h[n].len() ==> p.start_of(n) + (#[trigger] h[n][k]).0
            < p.start_of(n + 1)
}

proof fn lemma_backward_from(p: Pane, h: Seq<Seq<(usize, usize)>>, n: int, cap: Option<int>)
    requires
        hits_on_lines(p, h),
    ensures
        match backward_from(p, h, n, cap) {
            Some(m) => match cap {
                Some(c) => m.0 < p.start_of(n) + c || m.0 < p.start_of(n),
                None => m.0 < p.start_of(n + 1),
            },
            None => true,
        },
    decreases n + 1,
{
    if n >= 0 {
        let l = hits_on(h, n);
        let c = match cap {
            Some(c) => c,
            None => (line_text(p.text(), n).len() + 1) as int,
        };
        lemma_leading(l, c, 0);
        let k = leading(l, c, 0);
        if k > 0 {
            assert(l[k - 1] == h[n][k - 1]);
        } else {
            lemma_backward_from(p, h, n - 1, None);
            reveal(Pane::start_of);
            lemma_line_start_mono(p.text(), n, n + 1);
        }
    }
}

/// A match that a search comes to backward starts before where it looks from.
pub proof fn backward_match_is_behind(p: Pane, h: Seq<Seq<(usize, usize)>>, limit: int)
    requires
        buffer_text(p.text()),
        hits_on_lines(p, h),
        0 <= limit <= p.text().len(),
    ensures
        match match_backward(p, h, limit) {
            Some(m) => m.0 < limit,
            None => true,
        },
{
    reveal(Pane::start_of);
    reveal(line_at);
    let t = p.text();
    let n = line_at(p, limit);
    lemma_line_of(t, least(limit, last_idx(t)));
    lemma_backward_from(
        p,
        h,
        n,
        Some(
            if limit >= p.start_of(n) {
                limit - p.start_of(n)
            } else {
                0
            },
        ),
    );
}

/// A match that a search comes to forward starts no earlier than where it looks from.
pub proof fn forward_match_is_ahead(p: Pane, h: Seq<Seq<(usize, usize)>>, from: int)
    requires
        buffer_text(p.text()),
        0 <= from <= p.text().len(),
    ensures
        match match_forward(p, h, from) {
            Some(m) => m.0 >= from,
            None => true,
        },
{
    reveal(Pane::start_of);
    reveal(line_at);
    let t = p.text();
    let n = line_at(p, from);
    lemma_buffer_lines(t);
    lemma_line_of(t, least(from, last_idx(t)));
    lemma_forward_from(
        p,
        h,
        n,
        if from >= p.start_of(n) {
            from - p.start_of(n)
        } else {
            0
        },
    );
    lemma_line_start(t, n + 1);
}

/// A search that may go on from the other end of the text misses only where no line
/// has a match.
pub proof fn miss_means_no_match(
    p: Pane,
    h: Seq<Seq<(usize, usize)>>,
    from: int,
    n: int,
)
    requires
        buffer_text(p.text()),
        0 <= n < edit_lines(p.text()),
        search_step(p, h, SearchDir::Forward, true, from) is None,
    ensures
        hits_on(h, n).len() == 0,
{
    reveal(Pane::start_of);
    reveal(line_at);
    assert(match_forward(p, h, 0) is None);
    assert(line_of(p.text(), 0) == 0);
    lemma_line_start(p.text(), 0);
    lemma_none_forward(p, h, 0, n);
}

proof fn lemma_none_forward(p: Pane, h: Seq<Seq<(usize, usize)>>, m: int, n: int)
    requires
        0 <= m <= n < edit_lines(p.text()),
        forward_from(p, h, m, 0) is None,
    ensures
        hits_on(h, n).len() == 0,
    decreases n - m,
{
    lemma_first_from(hits_on(h, m), 0, 0);
    if m < n {
        lemma_none_forward(p, h, m + 1, n);
    }
}

} // verus!
