//! What part of the text a window shows.

use vstd::prelude::*;

use crate::desk::{Desk, Pane};
use crate::nav::{indent_len, last_line_of};
use crate::num::{least, less, min_of, within};
use crate::open::Live;
use crate::options::WindowOptions;
use crate::strings::nat_text;
use crate::text::line_text;
use crate::typing::{at_desired, moved_vertically};
use crate::window::Cursor;

verus! {

/// The text area of a window: its size and the margins to keep.
#[derive(Debug, Clone, Copy, PartialEq, Eq, Structural)]
pub struct Frame {
    pub height: usize,
    pub width: usize,
    pub scrolloff: usize,
    pub sidescroll: usize,
    pub sidescrolloff: usize,
    pub wrap: bool,
}

/// Where the cursor's line is to be shown.
#[derive(Debug, Clone, Copy, PartialEq, Eq, Structural)]
pub enum ViewPlace {
    Top,
    Center,
    Bottom,
}

/// A move of the view for the client to show as one.
#[derive(Debug, Clone, Copy, PartialEq, Eq, Structural)]
pub struct PendingScroll {
    pub from_top: usize,
    pub to_top: usize,
    pub from_cursor: usize,
    pub to_cursor: usize,
    pub duration_ms: u64,
}

/// The margin kept above and below the cursor: what is asked for, and less than half
/// of the height.
pub open spec fn margin(scrolloff: int, height: int) -> int {
    least(scrolloff, less(height, 1) / 2)
}

/// The first line to show so that `line` is the last of so many rows.
pub open spec fn top_for_bottom(line: int, rows: int) -> int {
    if rows < 1 {
        line
    } else {
        less(line + 1, rows)
    }
}

/// The first line to show so that the cursor's line shows inside the margins, as near
/// to `top` as that is. No more than the last line of the text stands below the margin.
pub open spec fn visible_top(top: int, line: int, last: int, height: int, scrolloff: int) -> int {
    let so = margin(scrolloff, height);
    let most = less(line, so);
    let fewest = least(top_for_bottom(line, height - so), top_for_bottom(last, height));
    if fewest <= most {
        within(top, fewest, most)
    } else {
        fewest
    }
}

/// The first screen column to show so that column `vc` shows inside the margins. Where lines
/// are wrapped it is the first one.
pub open spec fn visible_left(left: int, vc: int, f: Frame) -> int {
    let tw = f.width as int;
    let so = least(f.sidescrolloff as int, less(tw, 1) / 2);
    if f.wrap {
        0
    } else if tw == 0 {
        left
    } else if vc < left + so {
        if f.sidescroll == 0 {
            less(vc, tw / 2)
        } else {
            less(vc, so)
        }
    } else if vc + so + 1 > left + tw {
        if f.sidescroll == 0 {
            less(vc, tw / 2)
        } else {
            less(vc + so + 1, tw)
        }
    } else {
        left
    }
}

/// The view moved so that the cursor shows.
pub open spec fn shown(p: Pane, f: Frame) -> Pane {
    let c = p.live.cursor;
    Pane {
        live: Live {
            top: visible_top(
                p.live.top as int,
                c.line as int,
                last_line_of(p.text()) as int,
                f.height as int,
                f.scrolloff as int,
            ) as usize,
            leftcol: visible_left(
                p.live.leftcol as int,
                p.column(c.col as int),
                f,
            ) as usize,
            ..p.live
        },
        ..p
    }
}

/// The view and the cursor moved so many lines.
pub open spec fn scrolled_by(p: Pane, delta: int) -> Pane {
    let q = Pane {
        live: Live {
            scroll_from: Some((p.live.top, p.live.cursor.line)),
            top: within(p.live.top + delta, 0, last_line_of(p.text()) as int) as usize,
            ..p.live
        },
        ..p
    };
    moved_vertically(q, delta, false).held()
}

/// Half of the rows.
pub open spec fn half_page(f: Frame) -> int {
    if f.height / 2 < 1 {
        1
    } else {
        f.height as int / 2
    }
}

/// All of the rows but two.
pub open spec fn full_page(f: Frame) -> int {
    if f.height < 3 {
        1
    } else {
        least(f.height - 2, i64::MAX as int)
    }
}

/// The last line that a scroll may bring to the top.
pub open spec fn deepest_top(p: Pane, f: Frame) -> int {
    less(last_line_of(p.text()) as int, margin(f.scrolloff as int, f.height as int))
}

/// The cursor brought inside the margins of the view.
pub open spec fn inside_margins(p: Pane, f: Frame) -> Pane {
    let so = margin(f.scrolloff as int, f.height as int);
    let last = last_line_of(p.text()) as int;
    let first = p.live.top + so;
    let bottom = less(less(p.live.top + f.height, 1), so);
    let line = p.live.cursor.line as int;
    if first <= line <= bottom {
        p
    } else {
        let to = if line < first {
            least(first, last)
        } else {
            least(bottom, last)
        };
        let q = at_desired(p.with_cursor(Cursor { line: to as usize, ..p.live.cursor }), false);
        Pane { live: Live { preserve_desired: true, ..q.live }, ..q }
    }
}

/// The view moved one line, and the cursor with it where it would leave the margins. Down it
/// moves no further than `limit`.
pub open spec fn scrolled_line(p: Pane, down: bool, f: Frame, limit: int) -> Pane {
    if down {
        if p.live.top >= limit {
            p
        } else {
            inside_margins(Pane { live: Live { top: (p.live.top + 1) as usize, ..p.live }, ..p }, f)
        }
    } else if p.live.top == 0 {
        p
    } else {
        inside_margins(Pane { live: Live { top: (p.live.top - 1) as usize, ..p.live }, ..p }, f)
    }
}

/// The cursor on the line of a count, where there is one.
pub open spec fn line_counted(p: Pane, count: Option<usize>) -> Pane {
    match count {
        Some(n) => p.with_cursor(
            Cursor {
                line: least(less(n as int, 1), last_line_of(p.text())) as usize,
                ..p.live.cursor
            },
        ),
        None => p,
    }
}

/// The cursor on the first character of its line that is not blank.
pub open spec fn at_first_non_blank(p: Pane) -> Pane {
    p.with_cursor(
        Cursor {
            col: indent_len(line_text(p.text(), p.live.cursor.line as int), 0) as usize,
            ..p.live.cursor
        },
    ).held()
}

/// The cursor at the remembered column of a line that a count led to; the column
/// stays remembered.
pub open spec fn at_kept_column(p: Pane, moved: bool) -> Pane {
    let q = if moved {
        at_desired(p, false)
    } else {
        p
    };
    Pane { live: Live { preserve_desired: true, ..q.live }, ..q }
}

/// The view moved so that the cursor's line is at a place.
pub open spec fn placed(p: Pane, place: ViewPlace, f: Frame) -> Pane {
    let line = p.live.cursor.line as int;
    let top = match place {
        ViewPlace::Top => line,
        ViewPlace::Center => less(line, f.height as int / 2),
        ViewPlace::Bottom => less(line + 1, f.height as int),
    };
    Pane { live: Live { top: least(top, last_line_of(p.text())) as usize, ..p.live }, ..p }
}

/// The view moved so that the cursor's line, or the line of a count, is at a place.
pub open spec fn repositioned(
    p: Pane,
    place: ViewPlace,
    first_nonblank: bool,
    count: Option<usize>,
    f: Frame,
) -> Pane {
    let a = line_counted(p, count);
    placed(
        if first_nonblank {
            at_first_non_blank(a)
        } else {
            at_kept_column(a, count is Some)
        },
        place,
        f,
    )
}

/// The view moved so that as much of the selection as possible shows.
pub open spec fn selection_revealed(p: Pane, f: Frame) -> Pane {
    let c = p.live.cursor.line as int;
    let start = least(p.live.visual_anchor.line as int, c);
    if f.height == 0 || (start >= p.live.top && c - p.live.top < f.height) {
        p
    } else {
        Pane {
            live: Live {
                top: if c - start < f.height {
                    start as usize
                } else {
                    top_for_bottom(c, f.height as int) as usize
                },
                ..p.live
            },
            ..p
        }
    }
}

/// The remembered column after a key: the cursor's, unless the key kept it.
pub open spec fn column_kept(p: Pane) -> Pane {
    if p.live.preserve_desired {
        p
    } else {
        Pane {
            live: Live {
                desired_col: p.column(p.live.cursor.col as int) as usize,
                desired_eol: p.live.eol_request,
                ..p.live
            },
            ..p
        }
    }
}

/// How far apart two numbers are.
pub open spec fn distance(a: int, b: int) -> int {
    if a >= b {
        a - b
    } else {
        b - a
    }
}

/// `from` brought no further from `to` than `cap`.
pub open spec fn near(from: int, to: int, cap: int) -> int {
    if from > to {
        least(from, to + cap)
    } else if from < less(to, cap) {
        less(to, cap)
    } else {
        from
    }
}

/// The move that the client is to show, where the view moved more than a line: two
/// screens of it at most.
pub open spec fn gesture(live: Live, height: int) -> Option<PendingScroll> {
    match live.scroll_from {
        None => None,
        Some((from_top, from_cursor)) => if distance(from_top as int, live.top as int) <= 1 {
            None
        } else {
            let cap = within(2 * height, 1, usize::MAX as int);
            let start = near(from_top as int, live.top as int, cap);
            Some(
                PendingScroll {
                    from_top: start as usize,
                    to_top: live.top,
                    from_cursor: near(from_cursor as int, live.cursor.line as int, cap) as usize,
                    to_cursor: live.cursor.line,
                    duration_ms: within(distance(start, live.top as int) * 8, 80, 160) as u64,
                },
            )
        },
    }
}

/// The width of the line numbers and the blank after them: none where numbers are not
/// shown, else four columns or as many as the largest number takes.
pub open spec fn gutter(o: WindowOptions, lines: nat) -> nat {
    if !o.number && !o.relativenumber {
        0
    } else if nat_text(lines).len() < 3 {
        4
    } else {
        nat_text(lines).len() + 1
    }
}

/// How many decimal digits a number has.
pub fn digit_count(n: usize) -> (digits: usize)
    ensures
        digits == nat_text(n as nat).len(),
        1 <= digits <= 20,
{
    let mut m: usize = n;
    let mut digits: usize = 1;
    let ghost mut unit: nat = 1;
    while m >= 10
        invariant
            nat_text(n as nat).len() == nat_text(m as nat).len() + digits - 1,
            1 <= digits <= 20,
            unit * m <= n,
            unit >= 1,
            digits >= 2 ==> unit >= 10,
            digits >= 3 ==> unit >= 100,
            digits >= 4 ==> unit >= 1000,
            digits >= 5 ==> unit >= 10000,
            digits >= 6 ==> unit >= 100000,
            digits >= 7 ==> unit >= 1000000,
            digits >= 8 ==> unit >= 10000000,
            digits >= 9 ==> unit >= 100000000,
            digits >= 10 ==> unit >= 1000000000,
            digits >= 11 ==> unit >= 10000000000,
            digits >= 12 ==> unit >= 100000000000,
            digits >= 13 ==> unit >= 1000000000000,
            digits >= 14 ==> unit >= 10000000000000,
            digits >= 15 ==> unit >= 100000000000000,
            digits >= 16 ==> unit >= 1000000000000000,
            digits >= 17 ==> unit >= 10000000000000000,
            digits >= 18 ==> unit >= 100000000000000000,
            digits >= 19 ==> unit >= 1000000000000000000,
            digits >= 20 ==> unit >= 10000000000000000000,
        decreases m,
    {
        proof {
            let u = unit as int;
            let k = m as int;
            assert(u * 10 * (k / 10) <= u * k) by (nonlinear_arith)
                requires
                    u >= 1,
                    k >= 10,
            ;
            assert(u * 10 <= u * k) by (nonlinear_arith)
                requires
                    u >= 1,
                    k >= 10,
            ;
            unit = unit * 10;
            assert(nat_text(m as nat) == nat_text((m / 10) as nat).push(
                crate::strings::digit_char((m % 10) as int),
            ));
        }
        m = m / 10;
        digits = digits + 1;
    }
    digits
}

/// The width of the line numbers of a window.
pub fn number_width_for(o: WindowOptions, lines: usize) -> (n: usize)
    ensures
        n == gutter(o, lines as nat),
{
    if !o.number && !o.relativenumber {
        return 0;
    }
    let n: usize = digit_count(lines) + 1;
    if n < 4 {
        4
    } else {
        n
    }
}

/// The margin kept above and below the cursor.
pub fn scroll_margin(scrolloff: usize, height: usize) -> (n: usize)
    ensures
        n == margin(scrolloff as int, height as int),
{
    min_of(scrolloff, height.saturating_sub(1) / 2)
}

fn bottom_top(line: usize, rows: usize) -> (n: usize)
    ensures
        n == top_for_bottom(line as int, rows as int),
        n <= line,
{
    if rows < 1 {
        line
    } else if line >= rows - 1 {
        line - (rows - 1)
    } else {
        0
    }
}

fn top_shown(top: usize, line: usize, last: usize, f: Frame) -> (n: usize)
    ensures
        n == visible_top(
            top as int,
            line as int,
            last as int,
            f.height as int,
            f.scrolloff as int,
        ),
{
    let so: usize = scroll_margin(f.scrolloff, f.height);
    let most: usize = line.saturating_sub(so);
    let fewest: usize = min_of(bottom_top(line, f.height - so), bottom_top(last, f.height));
    if fewest <= most {
        if top < fewest {
            fewest
        } else if top > most {
            most
        } else {
            top
        }
    } else {
        fewest
    }
}

fn left_shown(left: usize, vc: usize, f: Frame) -> (n: usize)
    ensures
        n == visible_left(left as int, vc as int, f),
{
    let tw: usize = f.width;
    if f.wrap {
        return 0;
    }
    if tw == 0 {
        return left;
    }
    let so: usize = min_of(f.sidescrolloff, (tw - 1) / 2);
    let at: u128 = vc as u128;
    if at < left as u128 + so as u128 {
        if f.sidescroll == 0 {
            vc.saturating_sub(tw / 2)
        } else {
            vc.saturating_sub(so)
        }
    } else if at + so as u128 + 1 > left as u128 + tw as u128 {
        if f.sidescroll == 0 {
            vc.saturating_sub(tw / 2)
        } else {
            vc.saturating_sub(tw - so - 1)
        }
    } else {
        left
    }
}

fn gap(a: usize, b: usize) -> (n: usize)
    ensures
        n == distance(a as int, b as int),
{
    if a >= b {
        a - b
    } else {
        b - a
    }
}

fn brought_near(from: usize, to: usize, cap: usize) -> (n: usize)
    ensures
        n == near(from as int, to as int, cap as int),
{
    if from > to {
        if from - to > cap {
            to + cap
        } else {
            from
        }
    } else if from < to.saturating_sub(cap) {
        to.saturating_sub(cap)
    } else {
        from
    }
}

/// The move that the client is to show.
pub fn pending_scroll(live: &Live, height: usize) -> (r: Option<PendingScroll>)
    ensures
        r == gesture(*live, height as int),
{
    match live.scroll_from {
        None => None,
        Some((from_top, from_cursor)) => {
            if gap(from_top, live.top) <= 1 {
                return None;
            }
            let cap: usize = if height == 0 {
                1
            } else if height > usize::MAX / 2 {
                usize::MAX
            } else {
                height * 2
            };
            let start: usize = brought_near(from_top, live.top, cap);
            let dist: usize = gap(start, live.top);
            let duration_ms: u64 = if dist >= 20 {
                160
            } else if dist <= 10 {
                80
            } else {
                dist as u64 * 8
            };
            Some(
                PendingScroll {
                    from_top: start,
                    to_top: live.top,
                    from_cursor: brought_near(from_cursor, live.cursor.line, cap),
                    to_cursor: live.cursor.line,
                    duration_ms,
                },
            )
        },
    }
}

impl Desk {
    /// Move the view so that the cursor shows.
    pub fn ensure_visible(&mut self, f: Frame)
        requires
            old(self).wf(),
        ensures
            final(self).wf(),
            final(self)@ == shown(old(self)@, f),
    {
        let mut live = self.live();
        let last: usize = self.buffer().last_line();
        let vc: usize = self.column(live.cursor.col);
        live.top = top_shown(live.top, live.cursor.line, last, f);
        live.leftcol = left_shown(live.leftcol, vc, f);
        self.set_live(live);
    }

    /// Move the view and the cursor so many lines.
    pub fn scroll_by(&mut self, delta: i64)
        requires
            old(self).wf(),
        ensures
            final(self).wf(),
            final(self)@ == scrolled_by(old(self)@, delta as int),
    {
        let mut live = self.live();
        let last: usize = self.buffer().last_line();
        live.scroll_from = Some((live.top, live.cursor.line));
        let n: i128 = live.top as i128 + delta as i128;
        live.top = if n < 0 {
            0
        } else if n > last as i128 {
            last
        } else {
            n as usize
        };
        self.set_live(live);
        self.move_vertical(delta, false);
        self.clamp_cursor();
    }

    /// Scroll half a page.
    pub fn scroll_half(&mut self, down: bool, f: Frame)
        requires
            old(self).wf(),
        ensures
            final(self).wf(),
            final(self)@ == scrolled_by(
                old(self)@,
                if down {
                    half_page(f)
                } else {
                    -half_page(f)
                },
            ),
    {
        let half: usize = if f.height / 2 < 1 {
            1
        } else {
            f.height / 2
        };
        let n: i64 = half as i64;
        self.scroll_by(
            if down {
                n
            } else {
                -n
            },
        );
    }

    /// Scroll a page.
    pub fn scroll_page(&mut self, down: bool, f: Frame)
        requires
            old(self).wf(),
        ensures
            final(self).wf(),
            final(self)@ == scrolled_by(
                old(self)@,
                if down {
                    full_page(f)
                } else {
                    -full_page(f)
                },
            ),
    {
        let page: usize = if f.height < 3 {
            1
        } else {
            f.height - 2
        };
        let n: i64 = if page as u64 > i64::MAX as u64 {
            i64::MAX
        } else {
            page as i64
        };
        self.scroll_by(
            if down {
                n
            } else {
                -n
            },
        );
    }

    fn keep_cursor_in_scroll_margin(&mut self, f: Frame)
        requires
            old(self).wf(),
        ensures
            final(self).wf(),
            final(self)@ == inside_margins(old(self)@, f),
    {
        let mut live = self.live();
        let so: usize = scroll_margin(f.scrolloff, f.height);
        let last: usize = self.buffer().last_line();
        let first: u128 = live.top as u128 + so as u128;
        let end: u128 = live.top as u128 + f.height as u128;
        let bottom: u128 = if end > 1 + so as u128 {
            end - 1 - so as u128
        } else {
            0
        };
        let line: u128 = live.cursor.line as u128;
        let to: u128 = if line < first {
            first
        } else if line > bottom {
            bottom
        } else {
            return;
        };
        live.cursor.line = if to < last as u128 {
            to as usize
        } else {
            last
        };
        self.set_live(live);
        self.settle_desired_col(false);
        let mut after = self.live();
        after.preserve_desired = true;
        self.set_live(after);
    }

    /// The last line that a scroll may bring to the top.
    pub fn deepest_top(&self, f: Frame) -> (n: usize)
        requires
            self.wf(),
        ensures
            n == deepest_top(self@, f),
    {
        self.buffer().last_line().saturating_sub(scroll_margin(f.scrolloff, f.height))
    }

    /// Move the view one line, and down no further than `limit`.
    pub fn scroll_line(&mut self, down: bool, f: Frame, limit: usize)
        requires
            old(self).wf(),
        ensures
            final(self).wf(),
            final(self)@ == scrolled_line(old(self)@, down, f, limit as int),
    {
        let mut live = self.live();
        if down {
            if live.top >= limit {
                return;
            }
            live.top = live.top + 1;
        } else {
            if live.top == 0 {
                return;
            }
            live.top = live.top - 1;
        }
        self.set_live(live);
        self.keep_cursor_in_scroll_margin(f);
    }

    fn go_to_counted(&mut self, count: Option<usize>)
        requires
            old(self).wf(),
        ensures
            final(self).wf(),
            final(self)@ == line_counted(old(self)@, count),
    {
        if let Some(n) = count {
            let last: usize = self.buffer().last_line();
            let c = self.live().cursor;
            self.set_cursor(Cursor { line: min_of(n.saturating_sub(1), last), col: c.col });
        }
    }

    fn go_to_first_non_blank(&mut self)
        requires
            old(self).wf(),
        ensures
            final(self).wf(),
            final(self)@ == at_first_non_blank(old(self)@),
    {
        let c = self.live().cursor;
        let col: usize = self.buffer().first_non_blank(c.line);
        self.set_cursor(Cursor { line: c.line, col });
        self.clamp_cursor();
    }

    fn go_to_kept_column(&mut self, moved: bool)
        requires
            old(self).wf(),
        ensures
            final(self).wf(),
            final(self)@ == at_kept_column(old(self)@, moved),
    {
        if moved {
            self.settle_desired_col(false);
        }
        let mut live = self.live();
        live.preserve_desired = true;
        self.set_live(live);
    }

    fn place_view(&mut self, place: ViewPlace, f: Frame)
        requires
            old(self).wf(),
        ensures
            final(self).wf(),
            final(self)@ == placed(old(self)@, place, f),
    {
        let last: usize = self.buffer().last_line();
        let mut live = self.live();
        let line: usize = live.cursor.line;
        let top: usize = match place {
            ViewPlace::Top => line,
            ViewPlace::Center => line.saturating_sub(f.height / 2),
            ViewPlace::Bottom => if f.height == 0 {
                line.saturating_add(1)
            } else {
                line.saturating_sub(f.height - 1)
            },
        };
        live.top = min_of(top, last);
        self.set_live(live);
    }

    /// Move the view so that the cursor's line, or the line of a count, is at a place.
    pub fn view_reposition(
        &mut self,
        place: ViewPlace,
        first_nonblank: bool,
        count: Option<usize>,
        f: Frame,
    )
        requires
            old(self).wf(),
        ensures
            final(self).wf(),
            final(self)@ == repositioned(old(self)@, place, first_nonblank, count, f),
    {
        self.go_to_counted(count);
        if first_nonblank {
            self.go_to_first_non_blank();
        } else {
            self.go_to_kept_column(count.is_some());
        }
        self.place_view(place, f);
    }

    /// Move the view so that as much of the selection as possible shows.
    pub fn reveal_selection(&mut self, f: Frame)
        requires
            old(self).wf(),
        ensures
            final(self).wf(),
            final(self)@ == selection_revealed(old(self)@, f),
    {
        let mut live = self.live();
        let c: usize = live.cursor.line;
        let start: usize = min_of(live.visual_anchor.line, c);
        if f.height == 0 || (start >= live.top && c - live.top < f.height) {
            return;
        }
        live.top = if c - start < f.height {
            start
        } else {
            bottom_top(c, f.height)
        };
        self.set_live(live);
    }

    /// Remember the cursor's column, unless the key at hand kept the one before.
    pub fn keep_column(&mut self)
        requires
            old(self).wf(),
        ensures
            final(self).wf(),
            final(self)@ == column_kept(old(self)@),
    {
        let mut live = self.live();
        if !live.preserve_desired {
            live.desired_col = self.column(live.cursor.col);
            live.desired_eol = live.eol_request;
            self.set_live(live);
        }
    }
}

/// After the view has moved, the cursor's line is one of the rows that show.
pub proof fn cursor_line_shows(p: Pane, f: Frame)
    requires
        f.height >= 1,
        p.live.cursor.line <= last_line_of(p.text()) < usize::MAX,
    ensures
        shown(p, f).live.top <= p.live.cursor.line < shown(p, f).live.top + f.height,
{
}

/// After the view has moved, the cursor's screen column is one of those that show, where lines
/// are not wrapped.
pub proof fn cursor_column_shows(left: int, vc: int, f: Frame)
    requires
        !f.wrap,
        f.width >= 1,
        0 <= left,
        0 <= vc,
    ensures
        0 <= visible_left(left, vc, f) <= vc < visible_left(left, vc, f) + f.width,
{
}

/// A view that shows the cursor stays where it is.
pub proof fn view_is_stable(p: Pane, f: Frame)
    requires
        f.height >= 1,
        p.live.cursor.line <= last_line_of(p.text()) < usize::MAX,
    ensures
        shown(shown(p, f), f).live.top == shown(p, f).live.top,
{
}

} // verus!
