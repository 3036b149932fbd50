//! Screen rows: lines that take several of them, and folds that take one.

use vstd::prelude::*;

use crate::layout::WindowId;
use crate::num::less;
use crate::scroll::{margin, scroll_margin, visible_top};

verus! {

/// The rows that a line takes: those drawn above it, its own, and those drawn below it.
#[derive(Debug, Clone, Copy, PartialEq, Eq, Structural)]
pub struct LineRows {
    pub above: usize,
    pub text: usize,
    pub below: usize,
}

/// The lines of a closed fold, which take one row together. The last one belongs to it.
#[derive(Debug, Clone, Copy, PartialEq, Eq, Structural)]
pub struct Fold {
    pub start: usize,
    pub end: usize,
}

/// The rows of every line of a text, and the folds that are closed, in order.
pub struct RowMap {
    pub lines: Vec<LineRows>,
    pub folds: Vec<Fold>,
}

/// The rows and the closed folds of a text.
pub struct Rows {
    pub lines: Seq<LineRows>,
    pub folds: Seq<Fold>,
}

impl View for RowMap {
    type V = Rows;

    open spec fn view(&self) -> Rows {
        Rows { lines: self.lines@, folds: self.folds@ }
    }
}

/// All rows of a line that is not folded away.
pub open spec fn rows_of(l: LineRows) -> nat {
    (l.above + l.text + l.below) as nat
}

/// Whether a line belongs to a fold.
pub open spec fn folds_in(f: Fold, line: int) -> bool {
    f.start <= line <= f.end
}

impl Rows {
    /// Some line takes a row of its own, no fold is empty or reaches past the text, and no
    /// two folds have a line in common.
    pub open spec fn wf(self) -> bool {
        &&& self.lines.len() > 0
        &&& forall|i: int| 0 <= i < self.lines.len() ==> (#[trigger] self.lines[i]).text >= 1
        &&& forall|i: int|
            0 <= i < self.folds.len() ==> (#[trigger] self.folds[i]).start <= self.folds[i].end
                < self.lines.len()
        &&& forall|i: int, j: int|
            0 <= i < j < self.folds.len() ==> (#[trigger] self.folds[i]).end < (
            #[trigger] self.folds[j]).start
    }

    /// The closed fold that a line belongs to.
    pub open spec fn fold_at(self, line: int) -> Option<Fold> {
        if exists|i: int| 0 <= i < self.folds.len() && folds_in(#[trigger] self.folds[i], line) {
            let i = choose|i: int|
                0 <= i < self.folds.len() && folds_in(#[trigger] self.folds[i], line);
            Some(self.folds[i])
        } else {
            None
        }
    }

    /// Whether a line is hidden by a fold that begins above it.
    pub open spec fn hidden(self, line: int) -> bool {
        self.fold_at(line) matches Some(f) && f.start < line
    }

    /// The screen rows from line `a` down to line `b`, without those of `b`.
    pub open spec fn between(self, a: int, b: int) -> nat
        decreases (if a < b { b - a } else { 0 }),
    {
        if a >= b {
            0
        } else {
            match self.fold_at(a) {
                Some(f) => if f.end >= a {
                    1 + self.between(f.end + 1, b)
                } else {
                    0
                },
                None => rows_of(self.lines[a]) + self.between(a + 1, b),
            }
        }
    }

    /// The rows down to the `seg`-th row of the text of a line, from the first one of what
    /// is drawn above it.
    pub open spec fn upto(self, line: int, seg: nat) -> nat {
        self.lines[line].above as nat + seg
    }

    /// The row, counted from the top of a window that begins at line `top`, of the `seg`-th
    /// row of the text of a line.
    pub open spec fn screen_row(self, top: int, line: int, seg: nat) -> nat {
        if line < top {
            0
        } else {
            self.between(top, line) + self.upto(line, seg)
        }
    }

    /// The rows that are won by going up from line `top` to the next one that shows above
    /// it, and that line.
    pub open spec fn above(self, top: int) -> (nat, int) {
        match self.fold_at(top - 1) {
            Some(f) => (1, f.start as int),
            None => (rows_of(self.lines[top - 1]), top - 1),
        }
    }

    /// The line reached by going up from `top` while all the rows fit in `height`, where
    /// there are `rows` already.
    pub open spec fn climbed(self, top: int, rows: nat, height: nat) -> int
        decreases top,
    {
        if top <= 0 {
            top
        } else {
            let (n, up) = self.above(top);
            if rows + n > height || up >= top {
                top
            } else {
                self.climbed(up, rows + n, height)
            }
        }
    }

    /// The first line of a window whose last row is the `seg`-th row of a line.
    pub open spec fn top_for_bottom(self, line: int, seg: nat, height: nat) -> int {
        self.climbed(line, self.upto(line, seg) + 1, height)
    }

    /// The line reached by going up from `top` until there are `want` rows, where there are
    /// `rows` already.
    pub open spec fn raised(self, top: int, rows: nat, want: nat) -> int
        decreases top,
    {
        if top <= 0 || rows >= want {
            top
        } else {
            let (n, up) = self.above(top);
            if up >= top {
                top
            } else {
                self.raised(up, rows + n, want)
            }
        }
    }

    /// The first line of a window that has `want` rows above the `seg`-th row of a line.
    pub open spec fn top_for_margin(self, line: int, want: nat, seg: nat) -> int {
        self.raised(line, self.upto(line, seg), want)
    }

    /// The last line.
    pub open spec fn last(self) -> int {
        self.lines.len() - 1
    }

    /// The line that a window of a height scrolls to at most.
    pub open spec fn max_top(self, scrolloff: nat, height: nat) -> int {
        self.top_for_margin(self.last(), margin(scrolloff as int, height as int) as nat, 0)
    }

    /// The first line of a window that shows the `seg`-th row of a line with a margin, as
    /// near to the present one as can be. There is no margin below the last line.
    pub open spec fn settled(
        self,
        top: int,
        line: int,
        seg: nat,
        scrolloff: nat,
        height: nat,
    ) -> int {
        let so = margin(scrolloff as int, height as int);
        let deepest = self.top_for_bottom(self.last(), seg, height);
        let most = self.top_for_margin(line, so as nat, seg);
        let needed = self.top_for_bottom(line, seg, (height - so) as nat);
        let least = if needed < deepest {
            needed
        } else {
            deepest
        };
        if least > most || top < least {
            least
        } else if top > most {
            most
        } else {
            top
        }
    }

    /// The first line of a window that shows the lines from `start` to the `seg`-th row of
    /// `line`, or as many of the last ones as it has room for.
    pub open spec fn revealed(self, top: int, start: int, line: int, seg: nat, height: nat) -> int {
        if height == 0 || (start >= top && self.screen_row(top, line, seg) < height) {
            top
        } else if self.screen_row(start, line, seg) >= height {
            self.top_for_bottom(line, seg, height)
        } else {
            start
        }
    }
}

proof fn lemma_fold_is_the_one(m: Rows, i: int, line: int)
    requires
        m.wf(),
        0 <= i < m.folds.len(),
        folds_in(m.folds[i], line),
    ensures
        m.fold_at(line) == Some(m.folds[i]),
{
    let j = choose|j: int| 0 <= j < m.folds.len() && folds_in(#[trigger] m.folds[j], line);
    assert(0 <= j < m.folds.len() && folds_in(m.folds[j], line));
    if i < j {
        assert(m.folds[i].end < m.folds[j].start);
    } else if j < i {
        assert(m.folds[j].end < m.folds[i].start);
    }
}

proof fn lemma_fold_holds(m: Rows, line: int)
    requires
        m.wf(),
        m.fold_at(line) is Some,
    ensures
        folds_in(m.fold_at(line)->0, line),
        m.fold_at(line)->0.end < m.lines.len(),
        forall|k: int|
            m.fold_at(line)->0.start <= k <= m.fold_at(line)->0.end ==> #[trigger] m.fold_at(k)
                == m.fold_at(line),
{
    let j = choose|j: int| 0 <= j < m.folds.len() && folds_in(#[trigger] m.folds[j], line);
    assert(0 <= j < m.folds.len() && folds_in(m.folds[j], line));
    assert forall|k: int|
        m.folds[j].start <= k <= m.folds[j].end implies #[trigger] m.fold_at(k) == m.fold_at(
        line,
    ) by {
        lemma_fold_is_the_one(m, j, k);
    }
}

/// What is above a line, as seen from below.
proof fn lemma_above(m: Rows, top: int, b: int)
    requires
        m.wf(),
        0 < top <= b <= m.last(),
        !m.hidden(top),
    ensures
        0 <= m.above(top).1 < top,
        !m.hidden(m.above(top).1),
        m.above(top).0 >= 1,
        m.between(m.above(top).1, b) == m.above(top).0 + m.between(top, b),
{
    match m.fold_at(top - 1) {
        Some(f) => {
            lemma_fold_holds(m, top - 1);
            if f.end >= top {
                assert(m.fold_at(top) == m.fold_at(top - 1));
            }
            assert(f.end + 1 == top);
            assert(m.fold_at(f.start as int) == m.fold_at(top - 1));
        },
        None => {
            assert(m.lines[top - 1].text >= 1);
        },
    }
}

/// A line of its own, or the first one of a fold, parts the rows in two.
proof fn lemma_between_parts(m: Rows, a: int, b: int, c: int)
    requires
        m.wf(),
        0 <= a <= b <= c <= m.last(),
        !m.hidden(b),
    ensures
        m.between(a, c) == m.between(a, b) + m.between(b, c),
    decreases b - a,
{
    if a < b {
        match m.fold_at(a) {
            Some(f) => {
                lemma_fold_holds(m, a);
                if f.end >= b {
                    assert(m.fold_at(b) == m.fold_at(a));
                }
                lemma_between_parts(m, f.end + 1, b, c);
            },
            None => lemma_between_parts(m, a + 1, b, c),
        }
    }
}

/// Fewer rows stand above a line where the window begins further down.
proof fn lemma_between_shrinks(m: Rows, a: int, b: int, c: int)
    requires
        m.wf(),
        0 <= a <= b <= c <= m.last(),
    ensures
        m.between(b, c) <= m.between(a, c),
    decreases b - a,
{
    if a < b {
        lemma_between_shrinks(m, a + 1, b, c);
        match m.fold_at(a) {
            Some(f) => {
                lemma_fold_holds(m, a);
                if f.end > a {
                    assert(m.fold_at(a + 1) == m.fold_at(a));
                }
            },
            None => {},
        }
    }
}

/// Where a climb ends, and what it has passed.
proof fn lemma_climbed(m: Rows, top: int, rows: nat, height: nat, b: int)
    requires
        m.wf(),
        0 <= top <= b <= m.last(),
        !m.hidden(top),
    ensures
        0 <= m.climbed(top, rows, height) <= top,
        !m.hidden(m.climbed(top, rows, height)),
        ({
            let t = m.climbed(top, rows, height);
            let n = rows + m.between(t, b) - m.between(top, b);
            &&& t == top || n <= height
            &&& t == 0 || n + m.above(t).0 > height
        }),
    decreases top,
{
    if top > 0 {
        let (n, up) = m.above(top);
        lemma_above(m, top, b);
        if rows + n <= height {
            lemma_climbed(m, up, rows + n, height, b);
        }
    }
}

/// Where a rise ends, and what it has passed.
proof fn lemma_raised(m: Rows, top: int, rows: nat, want: nat, b: int)
    requires
        m.wf(),
        0 <= top <= b <= m.last(),
        !m.hidden(top),
    ensures
        0 <= m.raised(top, rows, want) <= top,
        !m.hidden(m.raised(top, rows, want)),
        ({
            let t = m.raised(top, rows, want);
            let n = rows + m.between(t, b) - m.between(top, b);
            t == 0 || n >= want
        }),
    decreases top,
{
    if top > 0 && rows < want {
        let (n, up) = m.above(top);
        lemma_above(m, top, b);
        lemma_raised(m, up, rows + n, want, b);
    }
}

proof fn lemma_above_is_above(m: Rows, top: int)
    requires
        m.wf(),
        0 < top <= m.lines.len(),
    ensures
        0 <= m.above(top).1 < top,
{
    if m.fold_at(top - 1) is Some {
        lemma_fold_holds(m, top - 1);
    }
}

impl RowMap {
    fn fold_at(&self, line: usize) -> (r: Option<Fold>)
        requires
            self@.wf(),
        ensures
            r == self@.fold_at(line as int),
    {
        let mut i: usize = 0;
        while i < self.folds.len()
            invariant
                self@.wf(),
                i <= self.folds@.len(),
                forall|j: int| 0 <= j < i ==> !folds_in(#[trigger] self.folds@[j], line as int),
            decreases self.folds@.len() - i,
        {
            let f = self.folds[i];
            if f.start <= line && line <= f.end {
                proof {
                    lemma_fold_is_the_one(self@, i as int, line as int);
                }
                return Some(f);
            }
            i += 1;
        }
        None
    }

    fn rows_of(&self, line: usize) -> (n: usize)
        requires
            line < self@.lines.len(),
        ensures
            n == if rows_of(self@.lines[line as int]) > usize::MAX {
                usize::MAX as nat
            } else {
                rows_of(self@.lines[line as int])
            },
    {
        let l = self.lines[line];
        l.above.saturating_add(l.text).saturating_add(l.below)
    }

    /// The rows of what shows above a line, as far as they can be counted, and the line it
    /// begins at.
    pub fn rows_of_line_above(&self, top: usize) -> (r: (usize, usize))
        requires
            self@.wf(),
            0 < top <= self@.lines.len(),
        ensures
            r.0 == if self@.above(top as int).0 > usize::MAX {
                usize::MAX as nat
            } else {
                self@.above(top as int).0
            },
            r.1 == self@.above(top as int).1,
            r.1 < top,
    {
        proof {
            lemma_above_is_above(self@, top as int);
        }
        match self.fold_at(top - 1) {
            Some(f) => (1, f.start),
            None => (self.rows_of(top - 1), top - 1),
        }
    }

    /// The first line of a window whose last row is the `seg`-th row of a line. Where the
    /// line alone has more rows than the window, it is that line.
    pub fn scroll_top_for_bottom(&self, line: usize, seg: usize, height: usize) -> (top: usize)
        requires
            self@.wf(),
            line < self@.lines.len(),
        ensures
            top == self@.top_for_bottom(line as int, seg as nat, height as nat),
            top <= line,
    {
        let first: usize = self.lines[line].above.saturating_add(seg);
        if first >= height {
            proof {
                if line > 0 {
                    lemma_above_is_above(self@, line as int);
                }
            }
            return line;
        }
        let mut rows: usize = first + 1;
        let mut top: usize = line;
        while top > 0
            invariant
                self@.wf(),
                top <= line < self@.lines.len(),
                1 <= rows <= height,
                self@.climbed(top as int, rows as nat, height as nat) == self@.top_for_bottom(
                    line as int,
                    seg as nat,
                    height as nat,
                ),
            decreases top,
        {
            let (n, up) = self.rows_of_line_above(top);
            if n > height - rows {
                return top;
            }
            rows += n;
            top = up;
        }
        top
    }

    /// The first line of a window that has `want` rows above the `seg`-th row of a line, or
    /// all there are.
    pub fn scroll_top_for_row_above_seg(&self, line: usize, want: usize, seg: usize) -> (top: usize)
        requires
            self@.wf(),
            line < self@.lines.len(),
        ensures
            top == self@.top_for_margin(line as int, want as nat, seg as nat),
            top <= line,
    {
        let mut rows: usize = self.lines[line].above.saturating_add(seg);
        let mut top: usize = line;
        if rows >= want {
            return top;
        }
        while top > 0
            invariant
                self@.wf(),
                top <= line < self@.lines.len(),
                rows < want,
                self@.raised(top as int, rows as nat, want as nat) == self@.top_for_margin(
                    line as int,
                    want as nat,
                    seg as nat,
                ),
            decreases top,
        {
            let (n, up) = self.rows_of_line_above(top);
            if n >= want - rows {
                assert(self@.raised(
                    up as int,
                    rows as nat + self@.above(top as int).0,
                    want as nat,
                ) == up);
                return up;
            }
            top = up;
            rows += n;
        }
        top
    }

    /// The line that a window of a height scrolls to at most: the last line keeps its margin
    /// above it.
    pub fn max_scroll_top(&self, scrolloff: usize, height: usize) -> (top: usize)
        requires
            self@.wf(),
        ensures
            top == self@.max_top(scrolloff as nat, height as nat),
            top < self@.lines.len(),
    {
        self.scroll_top_for_row_above_seg(
            self.lines.len() - 1,
            scroll_margin(scrolloff, height),
            0,
        )
    }

    /// The row of the `seg`-th row of a line in a window that begins at line `top`, as far
    /// as it can be counted.
    pub fn cursor_screen_row(&self, top: usize, line: usize, seg: usize) -> (n: usize)
        requires
            self@.wf(),
            line < self@.lines.len(),
        ensures
            n == if self@.screen_row(top as int, line as int, seg as nat) > usize::MAX {
                usize::MAX as nat
            } else {
                self@.screen_row(top as int, line as int, seg as nat)
            },
    {
        if line < top {
            return 0;
        }
        let mut rows: usize = self.lines[line].above.saturating_add(seg);
        let mut at: usize = top;
        let total: usize = self.lines.len();
        let ghost all = self@.screen_row(top as int, line as int, seg as nat);
        while at < line
            invariant
                self@.wf(),
                total == self@.lines.len(),
                at <= total,
                line < self@.lines.len(),
                rows == usize::MAX ==> all >= usize::MAX,
                rows < usize::MAX ==> rows + self@.between(at as int, line as int) == all,
            decreases self@.lines.len() - at,
        {
            match self.fold_at(at) {
                Some(f) => {
                    proof {
                        lemma_fold_holds(self@, at as int);
                    }
                    rows = rows.saturating_add(1);
                    at = f.end + 1;
                },
                None => {
                    rows = rows.saturating_add(self.rows_of(at));
                    at += 1;
                },
            }
        }
        rows
    }

    /// The first line of a window that shows the `seg`-th row of a line with a margin.
    pub fn visible_top(
        &self,
        top: usize,
        line: usize,
        seg: usize,
        scrolloff: usize,
        height: usize,
    ) -> (r: usize)
        requires
            self@.wf(),
            line < self@.lines.len(),
        ensures
            r == self@.settled(
                top as int,
                line as int,
                seg as nat,
                scrolloff as nat,
                height as nat,
            ),
            r <= line,
    {
        let so: usize = scroll_margin(scrolloff, height);
        let deepest: usize = self.scroll_top_for_bottom(self.lines.len() - 1, seg, height);
        let most: usize = self.scroll_top_for_row_above_seg(line, so, seg);
        let needed: usize = self.scroll_top_for_bottom(line, seg, height - so);
        let least: usize = if needed < deepest {
            needed
        } else {
            deepest
        };
        if least > most || top < least {
            least
        } else if top > most {
            most
        } else {
            top
        }
    }

    /// The first line of a window after it has scrolled one line down or up.
    pub fn scroll_view_line(
        &self,
        top: usize,
        down: bool,
        scrolloff: usize,
        height: usize,
    ) -> (r: usize)
        requires
            self@.wf(),
        ensures
            r == if down {
                if top >= self@.max_top(scrolloff as nat, height as nat) {
                    top as int
                } else {
                    top + 1
                }
            } else if top > 0 {
                top - 1
            } else {
                0
            },
    {
        if !down {
            return top.saturating_sub(1);
        }
        if top >= self.max_scroll_top(scrolloff, height) {
            top
        } else {
            top + 1
        }
    }

    /// The first line of a window that shows a selection from line `start` to the `seg`-th
    /// row of `line`.
    pub fn reveal_top(
        &self,
        top: usize,
        start: usize,
        line: usize,
        seg: usize,
        height: usize,
    ) -> (r: usize)
        requires
            self@.wf(),
            start <= line < self@.lines.len(),
        ensures
            r == self@.revealed(top as int, start as int, line as int, seg as nat, height as nat),
    {
        if height == 0 {
            return top;
        }
        if start >= top && self.cursor_screen_row(top, line, seg) < height {
            return top;
        }
        if self.cursor_screen_row(start, line, seg) >= height {
            self.scroll_top_for_bottom(line, seg, height)
        } else {
            start
        }
    }
}

/// Once a window has been scrolled for it, the row of the cursor is on the screen, unless the
/// line of the cursor alone, with what is drawn above it, does not fit.
pub proof fn cursor_row_shows(
    m: Rows,
    top: int,
    line: int,
    seg: nat,
    scrolloff: nat,
    height: nat,
)
    requires
        m.wf(),
        0 <= top,
        0 <= line < m.lines.len(),
        m.fold_at(line) is None ==> seg < m.lines[line].text,
        m.fold_at(line) matches Some(f) ==> f.start == line && m.upto(line, seg) == 0,
        m.upto(line, seg) < height,
    ensures
        m.settled(top, line, seg, scrolloff, height) <= line,
        m.screen_row(m.settled(top, line, seg, scrolloff, height), line, seg) < height,
{
    let so = margin(scrolloff as int, height as int);
    let last = m.last();
    let t = m.settled(top, line, seg, scrolloff, height);
    let needed = m.top_for_bottom(line, seg, (height - so) as nat);
    let deepest = m.top_for_bottom(last, seg, height);
    lemma_climbed(m, line, m.upto(line, seg) + 1, (height - so) as nat, line);
    lemma_raised(m, line, m.upto(line, seg), so as nat, line);
    // The last line that shows, from where the climb begins.
    let shown = if m.hidden(last) {
        m.fold_at(last)->0.start as int
    } else {
        last
    };
    if m.hidden(last) {
        lemma_fold_holds(m, last);
        assert(m.fold_at(shown) == m.fold_at(last));
        assert(m.fold_at(last - 1) == m.fold_at(last));
        lemma_climbed(m, shown, m.upto(last, seg) + 2, height, shown);
        if line > shown {
            assert(m.fold_at(line) == m.fold_at(last));
        }
    } else {
        lemma_climbed(m, last, m.upto(last, seg) + 1, height, last);
    }
    if t >= needed {
        lemma_between_shrinks(m, needed, t, line);
    } else {
        assert(t >= deepest);
        lemma_between_shrinks(m, deepest, t, line);
        lemma_between_parts(m, deepest, line, shown);
        if line < shown {
            assert(m.between(line, shown) >= m.upto(line, seg) + 1);
        }
    }
}

/// A window that has been scrolled begins at a line of the text.
pub proof fn settled_is_a_line(
    m: Rows,
    top: int,
    line: int,
    seg: nat,
    scrolloff: nat,
    height: nat,
)
    requires
        m.wf(),
        0 <= top,
        0 <= line < m.lines.len(),
    ensures
        0 <= m.settled(top, line, seg, scrolloff, height) <= line,
{
    let so = margin(scrolloff as int, height as int);
    lemma_climbed_inside(m, line, m.upto(line, seg) + 1, (height - so) as nat);
    lemma_climbed_inside(m, m.last(), m.upto(m.last(), seg) + 1, height);
    lemma_raised_inside(m, line, m.upto(line, seg), so as nat);
}

proof fn lemma_climbed_inside(m: Rows, top: int, rows: nat, height: nat)
    requires
        m.wf(),
        0 <= top < m.lines.len(),
    ensures
        0 <= m.climbed(top, rows, height) <= top,
    decreases top,
{
    if top > 0 {
        lemma_above_is_above(m, top);
        let (n, up) = m.above(top);
        if rows + n <= height {
            lemma_climbed_inside(m, up, rows + n, height);
        }
    }
}

proof fn lemma_raised_inside(m: Rows, top: int, rows: nat, want: nat)
    requires
        m.wf(),
        0 <= top < m.lines.len(),
    ensures
        0 <= m.raised(top, rows, want) <= top,
    decreases top,
{
    if top > 0 && rows < want {
        lemma_above_is_above(m, top);
        let (n, up) = m.above(top);
        lemma_raised_inside(m, up, rows + n, want);
    }
}

/// A window that is as far up as the margin asks has that many rows above the row of the
/// cursor, unless it begins at the first line.
pub proof fn margin_is_kept(m: Rows, line: int, want: nat, seg: nat)
    requires
        m.wf(),
        0 <= line < m.lines.len(),
        !m.hidden(line),
    ensures
        ({
            let t = m.top_for_margin(line, want, seg);
            t == 0 || m.screen_row(t, line, seg) >= want
        }),
{
    lemma_raised(m, line, m.upto(line, seg), want, line);
}

/// A window whose last row is that of the cursor cannot begin any further up: the row would
/// not be on the screen.
pub proof fn bottom_is_tight(m: Rows, line: int, seg: nat, height: nat)
    requires
        m.wf(),
        0 <= line < m.lines.len(),
        !m.hidden(line),
    ensures
        ({
            let t = m.top_for_bottom(line, seg, height);
            t == 0 || m.screen_row(m.above(t).1, line, seg) >= height
        }),
{
    lemma_climbed(m, line, m.upto(line, seg) + 1, height, line);
    let t = m.top_for_bottom(line, seg, height);
    if t > 0 {
        lemma_above(m, t, line);
    }
}

/// Every line takes one row, and no fold is closed.
pub open spec fn is_plain(m: Rows) -> bool {
    &&& m.folds.len() == 0
    &&& forall|i: int|
        0 <= i < m.lines.len() ==> #[trigger] m.lines[i] == (LineRows {
            above: 0,
            text: 1,
            below: 0,
        })
}

proof fn lemma_plain_climb(m: Rows, top: int, rows: nat, height: nat)
    requires
        is_plain(m),
        0 <= top < m.lines.len(),
    ensures
        m.climbed(top, rows, height) == if rows >= height {
            top
        } else {
            less(top, height - rows)
        },
    decreases top,
{
    if top > 0 {
        assert(m.lines[top - 1].text == 1);
        assert(m.above(top) == (1nat, top - 1));
        if rows < height {
            lemma_plain_climb(m, top - 1, rows + 1, height);
        }
    }
}

proof fn lemma_plain_rise(m: Rows, top: int, rows: nat, want: nat)
    requires
        is_plain(m),
        0 <= top < m.lines.len(),
    ensures
        m.raised(top, rows, want) == if rows >= want {
            top
        } else {
            less(top, want - rows)
        },
    decreases top,
{
    if top > 0 {
        assert(m.lines[top - 1].text == 1);
        assert(m.above(top) == (1nat, top - 1));
        if rows < want {
            lemma_plain_rise(m, top - 1, rows + 1, want);
        }
    }
}

/// Where every line takes one row, a window is scrolled by counting lines.
pub proof fn plain_rows_are_lines(
    m: Rows,
    top: int,
    line: int,
    scrolloff: nat,
    height: nat,
)
    requires
        is_plain(m),
        0 <= line < m.lines.len(),
        height >= 1,
    ensures
        m.settled(top, line, 0, scrolloff, height) == visible_top(
            top,
            line,
            m.last(),
            height as int,
            scrolloff as int,
        ),
{
    let so = margin(scrolloff as int, height as int);
    assert(m.lines[line].above == 0);
    assert(m.lines[m.last()].above == 0);
    lemma_plain_climb(m, line, 1, (height - so) as nat);
    lemma_plain_climb(m, m.last(), 1, height);
    lemma_plain_rise(m, line, 0, so as nat);
}

/// The rows of the text in a window, and where the rows of each line begin in it.
pub struct RowView {
    pub win: WindowId,
    pub map: RowMap,
    pub breaks: Vec<Vec<usize>>,
}

/// What a [`RowView`] says.
pub ghost struct RowSight {
    pub win: WindowId,
    pub rows: Rows,
    pub breaks: Seq<Seq<usize>>,
}

impl View for RowView {
    type V = RowSight;

    open spec fn view(&self) -> RowSight {
        RowSight {
            win: self.win,
            rows: self.map@,
            breaks: self.breaks@.map_values(|v: Vec<usize>| v@),
        }
    }
}

/// The last of the first `n` rows of a line that begins at a column or before it; the first
/// row where there is none.
pub open spec fn row_at(b: Seq<usize>, col: int, n: int) -> nat
    decreases n,
{
    if n <= 0 {
        0
    } else if b[n - 1] <= col {
        (n - 1) as nat
    } else {
        row_at(b, col, n - 1)
    }
}

impl RowSight {
    /// Every row of a line begins somewhere.
    pub open spec fn wf(self) -> bool {
        &&& self.rows.wf()
        &&& self.breaks.len() == self.rows.lines.len()
        &&& forall|i: int|
            0 <= i < self.breaks.len() ==> (#[trigger] self.breaks[i]).len()
                == self.rows.lines[i].text
    }

    /// The row of a line that a column is in.
    pub open spec fn seg(self, line: int, col: int) -> nat {
        row_at(self.breaks[line], col, self.breaks[line].len() as int)
    }
}

/// The row of a column is one of the rows of its line.
pub proof fn lemma_row_at(b: Seq<usize>, col: int, n: int)
    requires
        0 < n <= b.len(),
    ensures
        row_at(b, col, n) < n,
    decreases n,
{
    if n > 1 && b[n - 1] > col {
        lemma_row_at(b, col, n - 1);
    } else if n == 1 {
        assert(row_at(b, col, 0) == 0);
    }
}

impl RowMap {
    /// Whether the rows and folds can be those of a text.
    pub fn is_wf(&self) -> (b: bool)
        ensures
            b == self@.wf(),
    {
        let n: usize = self.lines.len();
        if n == 0 {
            return false;
        }
        let mut i: usize = 0;
        while i < n
            invariant
                n == self@.lines.len(),
                i <= n,
                forall|k: int| 0 <= k < i ==> (#[trigger] self@.lines[k]).text >= 1,
            decreases n - i,
        {
            if self.lines[i].text < 1 {
                assert(self@.lines[i as int].text < 1);
                return false;
            }
            i += 1;
        }
        let mut j: usize = 0;
        while j < self.folds.len()
            invariant
                n == self@.lines.len(),
                n > 0,
                j <= self@.folds.len(),
                forall|k: int| 0 <= k < n ==> (#[trigger] self@.lines[k]).text >= 1,
                forall|k: int|
                    0 <= k < j ==> (#[trigger] self@.folds[k]).start <= self@.folds[k].end < n,
                forall|k: int, m: int|
                    0 <= k < m < j ==> (#[trigger] self@.folds[k]).end < (
                    #[trigger] self@.folds[m]).start,
            decreases self@.folds.len() - j,
        {
            let f = self.folds[j];
            if f.start > f.end || f.end >= n {
                assert(!(self@.folds[j as int].start <= self@.folds[j as int].end < n));
                return false;
            }
            if j > 0 && self.folds[j - 1].end >= f.start {
                assert(!(self@.folds[j - 1].end < self@.folds[j as int].start));
                return false;
            }
            assert forall|k: int, m: int| 0 <= k < m < j + 1 implies (#[trigger] self@.folds[k]).end
                < (#[trigger] self@.folds[m]).start by {
                if m == j && k < j - 1 {
                    assert(self@.folds[k].end < self@.folds[j - 1].start);
                }
            }
            j += 1;
        }
        true
    }
}

impl RowView {
    /// Whether the rows can be those of a text.
    pub fn is_wf(&self) -> (b: bool)
        ensures
            b == self@.wf(),
    {
        let n: usize = self.breaks.len();
        assert(self@.breaks.len() == n);
        if !self.map.is_wf() || n != self.map.lines.len() {
            return false;
        }
        let mut i: usize = 0;
        while i < n
            invariant
                n == self@.breaks.len(),
                n == self.breaks@.len(),
                n == self@.rows.lines.len(),
                i <= n,
                forall|k: int|
                    0 <= k < i ==> (#[trigger] self@.breaks[k]).len() == self@.rows.lines[k].text,
            decreases n - i,
        {
            assert(self@.breaks[i as int] == self.breaks@[i as int]@);
            if self.breaks[i].len() != self.map.lines[i].text {
                return false;
            }
            i += 1;
        }
        true
    }

    /// The row of a line that a column is in.
    pub fn cursor_wrap_seg(&self, line: usize, col: usize) -> (n: usize)
        requires
            line < self@.breaks.len(),
        ensures
            n == self@.seg(line as int, col as int),
    {
        let b = &self.breaks[line];
        assert(b@ == self@.breaks[line as int]);
        let mut i: usize = b.len();
        while i > 0
            invariant
                b@ == self@.breaks[line as int],
                i <= b@.len(),
                row_at(b@, col as int, b@.len() as int) == row_at(b@, col as int, i as int),
            decreases i,
        {
            if b[i - 1] <= col {
                return i - 1;
            }
            i -= 1;
        }
        0
    }
}

} // verus!
