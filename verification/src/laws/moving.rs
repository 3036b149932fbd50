//! Where the cursor goes.

use vstd::prelude::*;
use vstd::utf8::*;

use crate::command::{
    jump_motion, FindKind, MarkJumpKind, Motion, PendingCommand, ResolvedCommand, Stage,
};
use crate::desk::Pane;
use crate::editor::files::context_marked;
use crate::editor::normal::{
    command_made, mark_place, marked, motion_done, motion_made, normal_keyed, reset,
};
use crate::editor::{MarkAt, World};
use crate::find::{find_column, found_back, found_on, stands_at};
use crate::laws::{
    adds, counted, cursor_line, key_of, leads, lemma_added, lemma_at, lemma_held, lemma_led,
    lemma_line_is, lemma_line_within, lemma_motion_made, lemma_own, lemma_times, offset, on_text,
    ready, times,
};
use crate::mode::Mode;
use crate::motion::{MotionKind, MoveAxis};
use crate::motions::{
    columns_back, columns_on, line_at, motion_landing, movement, total_count, word_ends,
    words_backward, words_forward, Landing,
};
use crate::nav::{
    back_off, back_over, char_or_blank, class_of, indent_len, last_idx, lemma_line_text, lemma_next_idx, lemma_prev_idx,
    next_idx, of_class, past, prev_idx, word_backward_of, word_end_of, word_forward_of, CharClass,
};
use crate::open::Live;
use crate::operate::{pending_reset, with_pending};
use crate::points::Point;
use crate::strings::letter;
use crate::text::{
    buffer_text, edit_lines, lemma_buffer_lines, lemma_line_start, line_start, line_text, unbroken,
};
use crate::unicode::{
    bound, bound_upto, lemma_bound_ends, lemma_bound_from, lemma_bound_upto, next_bound, prev_bound,
};
use crate::window::Cursor;

verus! {

/// Normal mode, with no operator and no register named.
pub open spec fn idle(w: World) -> bool {
    &&& w.live.mode == Mode::Normal
    &&& w.live.pending.operator is None
    &&& w.live.pending.register is None
    &&& w.buffers.contains_key(w.cur().0)
}

/// A motion goes by the text and by where the cursor is, and by nothing else of what is shown.
proof fn lemma_movement_same(p: Pane, q: Pane, l: Landing)
    requires
        p.text() == q.text(),
        p.open.buffer.options == q.open.buffer.options,
        p.live.cursor == q.live.cursor,
        p.live.mode == q.live.mode,
        p.live.desired_col == q.live.desired_col,
        p.live.desired_eol == q.live.desired_eol,
    ensures
        movement(p, l).live.cursor == movement(q, l).live.cursor,
        movement(p, l).text() == p.text(),
        movement(p, l).live.mode == p.live.mode,
{
    reveal(Pane::at);
    reveal(Pane::held);
    reveal(Pane::line);
    reveal(Pane::line_no);
    reveal(line_at);
    reveal(crate::typing::desired);
}

/// The keys of the motions.
proof fn lemma_motion_keys(n: Option<usize>)
    ensures
        leads(counted(n), 'j', ResolvedCommand::Motion(Motion::Down)),
        leads(counted(n), 'k', ResolvedCommand::Motion(Motion::Up)),
        leads(counted(n), 'h', ResolvedCommand::Motion(Motion::Left)),
        leads(counted(n), 'l', ResolvedCommand::Motion(Motion::Right)),
        leads(counted(n), 'G', ResolvedCommand::Motion(Motion::GotoLine)),
        leads(counted(n), '$', ResolvedCommand::Motion(Motion::LineEnd)),
        leads(counted(n), '^', ResolvedCommand::Motion(Motion::FirstNonBlank)),
        leads(counted(n), 'w', ResolvedCommand::Motion(Motion::Word)),
        leads(counted(n), 'b', ResolvedCommand::Motion(Motion::BackWord)),
        leads(counted(n), 'e', ResolvedCommand::Motion(Motion::EndWord)),
        n is None ==> leads(counted(n), '0', ResolvedCommand::Motion(Motion::LineStart)),
        adds(counted(n), 'g', PendingCommand { stage: Stage::GPending, ..counted(n) }),
        leads(
            PendingCommand { stage: Stage::GPending, ..counted(n) },
            'g',
            ResolvedCommand::Motion(Motion::GotoTop),
        ),
{
    reveal(leads);
    reveal(adds);
}

/// The keys of the marks.
proof fn lemma_mark_keys(name: char)
    requires
        letter(name),
    ensures
        adds(counted(None), 'm', PendingCommand { stage: Stage::MarkSetPending, ..counted(None) }),
        leads(
            PendingCommand { stage: Stage::MarkSetPending, ..counted(None) },
            name,
            ResolvedCommand::SetMark(name),
        ),
        adds(
            counted(None),
            '`',
            PendingCommand {
                stage: Stage::MarkJumpPending(MarkJumpKind::Exact),
                ..counted(None)
            },
        ),
        leads(
            PendingCommand {
                stage: Stage::MarkJumpPending(MarkJumpKind::Exact),
                ..counted(None)
            },
            name,
            ResolvedCommand::Motion(Motion::MarkJumpExact(name)),
        ),
{
    reveal(leads);
    reveal(adds);
}

proof fn lemma_motion_keyed(w: World, c: char, m: Motion)
    requires
        idle(w),
        leads(w.live.pending, c, ResolvedCommand::Motion(m)),
    ensures
        normal_keyed(w, key_of(c)) == motion_done(w.hushed(), m),
        w.hushed().pane() == w.pane(),
{
    lemma_led(w, c, ResolvedCommand::Motion(m));
    lemma_motion_made(w.hushed(), m);
}

/// A motion without an operator moves the cursor to where it lands.
proof fn lemma_moved(w: World, c: char, m: Motion)
    requires
        idle(w),
        leads(w.live.pending, c, ResolvedCommand::Motion(m)),
        !(m is Find || m is MarkJumpExact || m is MarkJumpLine),
        motion_landing(w.pane(), m, None) is Some,
    ensures
        ({
            let q = normal_keyed(w, key_of(c)).pane();
            let l = motion_landing(w.pane(), m, None)->0;
            &&& q.text() == w.pane().text()
            &&& q.live.cursor == movement(w.pane(), l).live.cursor
            &&& q.live.mode == w.live.mode
            &&& q.live.pending == counted(None)
        }),
{
    lemma_motion_keyed(w, c, m);
    let h = w.hushed();
    assert(motion_done(h, m) == motion_made(h, m, None)) by {
        reveal(motion_done);
    }
    lemma_made(h, m, None);
}

/// A motion that lands moves the cursor there.
proof fn lemma_made(w: World, m: Motion, mark: Option<Point>)
    requires
        w.buffers.contains_key(w.cur().0),
        w.live.pending.operator is None,
        motion_landing(w.pane(), m, mark) is Some,
    ensures
        ({
            let q = motion_made(w, m, mark).pane();
            let l = motion_landing(w.pane(), m, mark)->0;
            &&& q.text() == w.pane().text()
            &&& q.live.cursor == movement(w.pane(), l).live.cursor
            &&& q.live.mode == w.live.mode
            &&& q.live.pending == counted(None)
        }),
{
    reveal(motion_made);
    let l = motion_landing(w.pane(), m, mark)->0;
    let a = if jump_motion(m) {
        context_marked(w)
    } else {
        w
    };
    let p = a.pane();
    let q = with_pending(p, PendingCommand { operator: None, ..p.live.pending });
    let r = Pane {
        live: Live { scroll_from: Some((p.live.top, p.live.cursor.line)), ..q.live },
        ..q
    };
    assert(p.text() == w.pane().text());
    lemma_movement_same(r, w.pane(), l);
    assert(motion_made(w, m, mark) == a.with_pane(pending_reset(movement(r, l))));
}

proof fn lemma_line_at(p: Pane, n: int)
    requires
        buffer_text(p.text()),
        0 <= n < edit_lines(p.text()),
    ensures
        line_at(p, p.start_of(n)) == n,
{
    reveal(line_at);
    reveal(Pane::start_of);
    let t = p.text();
    lemma_line_start(t, n);
    lemma_line_start(t, n + 1);
    lemma_line_is(t, n, line_start(t, n));
}

/// `j` goes as many lines down as its count says, or to the last line where there are fewer;
/// `k` goes as many lines up, or to the first.
pub proof fn lines_are_counted(w: World, n: Option<usize>)
    requires
        ready(w, n),
        on_text(w.pane()),
    ensures
        ({
            let p = w.pane();
            let line = p.live.cursor.line;
            let last = edit_lines(p.text()) - 1;
            let down = normal_keyed(w, key_of('j')).pane();
            let up = normal_keyed(w, key_of('k')).pane();
            &&& down.text() == p.text()
            &&& up.text() == p.text()
            &&& line + times(n) <= last ==> down.live.cursor.line == line + times(n)
            &&& line + times(n) > last ==> down.live.cursor.line == last
            &&& line >= times(n) ==> up.live.cursor.line == line - times(n)
            &&& line < times(n) ==> up.live.cursor.line == 0
        }),
{
    let p = w.pane();
    lemma_times(n);
    lemma_motion_keys(n);
    lemma_own(p);
    lemma_buffer_lines(p.text());
    crate::text::lemma_line_of_bounds(p.text(), p.text().len() as int);
    lemma_moved(w, 'j', Motion::Down);
    lemma_moved(w, 'k', Motion::Up);
    let line = p.live.cursor.line as int;
    let last = edit_lines(p.text()) - 1;
    lemma_line_at(
        p,
        if line + times(n) <= last {
            line + times(n)
        } else {
            last
        },
    );
    lemma_line_at(
        p,
        if line >= times(n) {
            line - times(n)
        } else {
            0
        },
    );
}

/// As many lines up as down lead back to the same line, where the text has as many below.
pub proof fn up_undoes_down(w: World, v: World, n: Option<usize>)
    requires
        ready(w, n),
        on_text(w.pane()),
        w.live.cursor.line + times(n) < edit_lines(w.pane().text()),
        ready(v, n),
        on_text(v.pane()),
        v.pane().text() == normal_keyed(w, key_of('j')).pane().text(),
        v.live.cursor == normal_keyed(w, key_of('j')).live.cursor,
    ensures
        normal_keyed(v, key_of('k')).pane().live.cursor.line == w.live.cursor.line,
{
    lines_are_counted(w, n);
    lines_are_counted(v, n);
}

/// `gg` and `G` go to the line that their count numbers, from one on, or to the last line where
/// there are fewer; without a count `gg` goes to the first line and `G` to the last.
pub proof fn lines_are_numbered(w: World, n: Option<usize>)
    requires
        ready(w, n),
        on_text(w.pane()),
        n != Some(0usize),
    ensures
        ({
            let p = w.pane();
            let total = edit_lines(p.text());
            let top = normal_keyed(normal_keyed(w, key_of('g')), key_of('g')).pane();
            let to = normal_keyed(w, key_of('G')).pane();
            &&& top.text() == p.text()
            &&& to.text() == p.text()
            &&& n is None ==> top.live.cursor.line == 0
            &&& n is None ==> to.live.cursor.line == total - 1
            &&& n is Some && n->0 <= total ==> top.live.cursor.line == n->0 - 1
            &&& n is Some && n->0 <= total ==> to.live.cursor.line == n->0 - 1
            &&& n is Some && n->0 > total ==> top.live.cursor.line == total - 1
            &&& n is Some && n->0 > total ==> to.live.cursor.line == total - 1
        }),
{
    let p = w.pane();
    lemma_motion_keys(n);
    lemma_own(p);
    lemma_buffer_lines(p.text());
    crate::text::lemma_line_of_bounds(p.text(), p.text().len() as int);
    let total = edit_lines(p.text()) as int;
    let v = normal_keyed(w, key_of('g'));
    lemma_added(w, 'g', PendingCommand { stage: Stage::GPending, ..counted(n) });
    let vp = v.pane();
    assert(vp.start_of(0) == p.start_of(0)) by {
        reveal(Pane::start_of);
    }
    let to = match n {
        Some(k) => if k <= total {
            k - 1
        } else {
            total - 1
        },
        None => total - 1,
    };
    lemma_line_at(p, to);
    lemma_line_at(vp, to);
    lemma_line_at(vp, 0);
    lemma_moved(v, 'g', Motion::GotoTop);
    lemma_moved(w, 'G', Motion::GotoLine);
    lemma_held_line(p, to);
    lemma_held_line(vp, to);
    lemma_held_line(vp, 0);
}

/// Holding a cursor to the text leaves it on its line.
proof fn lemma_held_line(p: Pane, n: int)
    requires
        buffer_text(p.text()),
        0 <= n < edit_lines(p.text()),
    ensures
        forall|c: Cursor|
            c.line == n ==> (#[trigger] p.with_cursor(c)).held().live.cursor.line == n,
{
    reveal(Pane::held);
    lemma_buffer_lines(p.text());
}

/// `0` goes to the first column of the line.
pub proof fn zero_goes_to_the_start(w: World)
    requires
        ready(w, None),
        on_text(w.pane()),
    ensures
        ({
            let q = normal_keyed(w, key_of('0')).pane();
            &&& q.text() == w.pane().text()
            &&& q.live.cursor == (Cursor { line: w.live.cursor.line, col: 0 })
        }),
{
    let p = w.pane();
    lemma_motion_keys(None);
    lemma_own(p);
    lemma_moved(w, '0', Motion::LineStart);
    let n = p.live.cursor.line as int;
    lemma_line_text(p.text(), n);
    lemma_bound_ends(cursor_line(p));
    lemma_line_start(p.text(), n);
    lemma_at(p, n, 0);
    lemma_held(p.with_cursor(Cursor { line: p.live.cursor.line, col: 0 }));
}

/// `^` goes to the first character of the line that is not blank, wherever that is.
pub proof fn caret_skips_the_indent(w: World, k: int)
    requires
        ready(w, None),
        on_text(w.pane()),
        0 <= k < cursor_line(w.pane()).len(),
        forall|i: int| 0 <= i < k ==> #[trigger] is_space(cursor_line(w.pane())[i]),
        !is_space(cursor_line(w.pane())[k]),
        bound(cursor_line(w.pane()), k),
    ensures
        ({
            let q = normal_keyed(w, key_of('^')).pane();
            &&& q.text() == w.pane().text()
            &&& q.live.cursor.line == w.live.cursor.line
            &&& q.live.cursor.col == k
        }),
{
    let p = w.pane();
    lemma_motion_keys(None);
    lemma_own(p);
    lemma_indent(cursor_line(p), 0, k);
    lemma_moved(w, '^', Motion::FirstNonBlank);
    let n = p.live.cursor.line as int;
    lemma_line_text(p.text(), n);
    lemma_line_start(p.text(), n);
    lemma_at(p, n, k);
    lemma_held(p.with_cursor(Cursor { line: p.live.cursor.line, col: k as usize }));
}

/// A blank or a tab.
pub open spec fn is_space(b: u8) -> bool {
    b == 32 || b == 9
}

proof fn lemma_indent(l: Seq<u8>, i: int, k: int)
    requires
        0 <= i <= k < l.len(),
        forall|j: int| 0 <= j < k ==> #[trigger] is_space(l[j]),
        !is_space(l[k]),
    ensures
        indent_len(l, i) == k,
    decreases k - i,
{
    if i < k {
        assert(is_space(l[i]));
        lemma_indent(l, i + 1, k);
    }
}

/// `$` goes to the last grapheme of the line; with a count, of so many lines less one further
/// down, or of the last.
pub proof fn dollar_goes_to_the_end(w: World, n: Option<usize>)
    requires
        ready(w, n),
        n != Some(0usize),
        on_text(w.pane()),
    ensures
        ({
            let p = w.pane();
            let q = normal_keyed(w, key_of('$')).pane();
            let c = q.live.cursor;
            let line = p.live.cursor.line + times(n) - 1;
            let last = edit_lines(p.text()) - 1;
            let l = cursor_line(q);
            &&& q.text() == p.text()
            &&& c.line == if line <= last {
                line
            } else {
                last
            }
            &&& l.len() == 0 ==> c.col == 0
            &&& l.len() > 0 ==> c.col < l.len() && bound(l, c.col as int)
            &&& forall|i: int| c.col < i < l.len() ==> !bound(l, i)
        }),
{
    let p = w.pane();
    let t = p.text();
    lemma_times(n);
    lemma_motion_keys(n);
    lemma_own(p);
    lemma_buffer_lines(t);
    crate::text::lemma_line_of_bounds(t, t.len() as int);
    lemma_moved(w, '$', Motion::LineEnd);
    reveal(crate::motions::line_last);
    reveal(Pane::start_of);
    let line = p.live.cursor.line + times(n) - 1;
    let last = edit_lines(t) - 1;
    let to = if line <= last {
        line
    } else {
        last
    };
    let l = line_text(t, to);
    lemma_line_text(t, to);
    lemma_line_start(t, to);
    lemma_bound_upto(l, l.len() - 1);
    let col = prev_bound(l, l.len() as int);
    lemma_at(p, to, col);
    lemma_held(p.with_cursor(Cursor { line: to as usize, col: col as usize }));
}

/// How many graphemes of a line begin after `a` and not after `b`; its end counts as one.
pub open spec fn bounds_in(l: Seq<u8>, a: int, b: int) -> nat
    decreases b - a,
{
    if b <= a {
        0
    } else {
        bounds_in(l, a, b - 1) + if bound(l, b) {
            1nat
        } else {
            0nat
        }
    }
}

pub proof fn lemma_bounds_add(l: Seq<u8>, a: int, b: int, c: int)
    requires
        a <= b <= c,
    ensures
        bounds_in(l, a, c) == bounds_in(l, a, b) + bounds_in(l, b, c),
    decreases c - b,
{
    if b < c {
        lemma_bounds_add(l, a, b, c - 1);
    }
}

pub proof fn lemma_no_bounds(l: Seq<u8>, a: int, b: int)
    requires
        forall|i: int| a < i <= b ==> !bound(l, i),
    ensures
        bounds_in(l, a, b) == 0,
    decreases b - a,
{
    if a < b {
        lemma_no_bounds(l, a, b - 1);
    }
}

pub proof fn lemma_one_bound(l: Seq<u8>, a: int)
    requires
        valid_utf8(l),
        0 <= a < l.len(),
    ensures
        a < next_bound(l, a) <= l.len(),
        bound(l, next_bound(l, a)),
        bounds_in(l, a, next_bound(l, a)) == 1,
{
    lemma_bound_from(l, a + 1);
    lemma_no_bounds(l, a, next_bound(l, a) - 1);
}

pub proof fn lemma_columns_on(l: Seq<u8>, col: int, n: nat)
    requires
        valid_utf8(l),
        0 <= col <= l.len(),
        bound(l, col),
    ensures
        ({
            let r = columns_on(l, col, n);
            &&& col <= r <= l.len()
            &&& bound(l, r)
            &&& bounds_in(l, col, r) <= n
            &&& r < l.len() ==> bounds_in(l, col, r) == n
        }),
    decreases n,
{
    if n > 0 {
        if col < l.len() {
            lemma_one_bound(l, col);
            let c = next_bound(l, col);
            lemma_columns_on(l, c, (n - 1) as nat);
            lemma_bounds_add(l, col, c, columns_on(l, c, (n - 1) as nat));
        } else {
            lemma_bound_from(l, col + 1);
            lemma_columns_on(l, col, (n - 1) as nat);
        }
    }
}

proof fn lemma_columns_back(l: Seq<u8>, col: int, n: nat)
    requires
        valid_utf8(l),
        0 <= col <= l.len(),
        bound(l, col),
    ensures
        ({
            let r = columns_back(l, col, n);
            &&& 0 <= r <= col
            &&& bound(l, r)
            &&& bounds_in(l, r, col) <= n
            &&& r > 0 ==> bounds_in(l, r, col) == n
        }),
    decreases n,
{
    if n > 0 {
        lemma_bound_upto(l, col - 1);
        let c = prev_bound(l, col);
        lemma_columns_back(l, c, (n - 1) as nat);
        if col > 0 {
            let r = columns_back(l, c, (n - 1) as nat);
            lemma_bounds_add(l, r, c, col);
            lemma_no_bounds(l, c, col - 1);
        }
    }
}

/// `l` goes as many graphemes on as its count says, or to the last of the line where there are
/// fewer; `h` goes as many back, or to the first. Neither leaves the line.
pub proof fn graphemes_are_counted(w: World, n: Option<usize>)
    requires
        ready(w, n),
        on_text(w.pane()),
        unbroken(cursor_line(w.pane())),
        w.live.cursor.col < cursor_line(w.pane()).len(),
    ensures
        ({
            let p = w.pane();
            let l = cursor_line(p);
            let col = p.live.cursor.col as int;
            let on = normal_keyed(w, key_of('l')).pane();
            let back = normal_keyed(w, key_of('h')).pane();
            let left = bounds_in(l, 0, col);
            let right = bounds_in(l, col, l.len() as int) - 1;
            &&& on.text() == p.text()
            &&& back.text() == p.text()
            &&& on.live.cursor.line == p.live.cursor.line
            &&& back.live.cursor.line == p.live.cursor.line
            &&& bound(l, on.live.cursor.col as int)
            &&& bound(l, back.live.cursor.col as int)
            &&& col <= on.live.cursor.col < l.len()
            &&& back.live.cursor.col <= col
            &&& bounds_in(l, col, on.live.cursor.col as int) == if times(n) <= right {
                times(n) as int
            } else {
                right
            }
            &&& bounds_in(l, back.live.cursor.col as int, col) == if times(n) <= left {
                times(n)
            } else {
                left
            }
        }),
{
    let p = w.pane();
    let t = p.text();
    let l = cursor_line(p);
    let col = p.live.cursor.col as int;
    let k = p.live.cursor.line as int;
    lemma_times(n);
    lemma_motion_keys(n);
    lemma_own(p);
    lemma_line_text(t, k);
    lemma_line_within(t, k);
    lemma_moved(w, 'l', Motion::Right);
    lemma_moved(w, 'h', Motion::Left);
    lemma_columns_on(l, col, times(n));
    lemma_columns_back(l, col, times(n));
    let a = columns_on(l, col, times(n));
    let z = columns_back(l, col, times(n));
    lemma_at(p, k, a);
    lemma_at(p, k, z);
    lemma_bounds_add(l, col, a, l.len() as int);
    lemma_bounds_add(l, 0, z, col);
    lemma_held(p.with_cursor(Cursor { line: k as usize, col: z as usize }));
    if a < l.len() {
        lemma_held(p.with_cursor(Cursor { line: k as usize, col: a as usize }));
        lemma_bound_ends(l);
        assert(bounds_in(l, a, l.len() as int) >= 1);
    } else {
        reveal(Pane::held);
        lemma_bound_upto(l, l.len() - 1);
        let e = bound_upto(l, l.len() - 1);
        lemma_buffer_lines(t);
        lemma_bounds_add(l, col, e, l.len() as int);
        lemma_no_bounds(l, e, l.len() - 1);
        lemma_bound_ends(l);
        assert(bounds_in(l, e, l.len() as int) == 1);
    }
}

/// The class of the character at an offset.
pub open spec fn class_at(t: Seq<u8>, i: int) -> CharClass {
    class_of(char_or_blank(t, i))
}

/// The first word that begins after `i`, or the end of the text.
pub open spec fn next_start(t: Seq<u8>, i: int) -> int
    decreases last_idx(t) - i,
{
    let n = next_idx(t, i);
    if i >= last_idx(t) || n <= i {
        i
    } else if n >= last_idx(t) || (class_at(t, n) != CharClass::Blank && class_at(t, n)
        != class_at(t, i)) {
        n
    } else {
        next_start(t, n)
    }
}

/// The last word that begins before `i`, or the start of the text.
pub open spec fn prev_start(t: Seq<u8>, i: int) -> int
    decreases i,
{
    let j = prev_idx(t, i);
    if i <= 0 || j <= 0 || j >= i {
        0
    } else if class_at(t, j) != CharClass::Blank && class_at(t, prev_idx(t, j)) != class_at(t, j) {
        j
    } else {
        prev_start(t, j)
    }
}

/// The last grapheme of the first word that ends after `i`, or the end of the text.
pub open spec fn next_end(t: Seq<u8>, i: int) -> int
    decreases last_idx(t) - i,
{
    let n = next_idx(t, i);
    if i >= last_idx(t) || n <= i {
        i
    } else if n >= last_idx(t) || (class_at(t, n) != CharClass::Blank && class_at(t, next_idx(t, n))
        != class_at(t, n)) {
        n
    } else {
        next_end(t, n)
    }
}

proof fn lemma_next_start(t: Seq<u8>, i: int)
    requires
        buffer_text(t),
        0 <= i <= t.len(),
    ensures
        word_forward_of(t, i) == next_start(t, i),
        0 <= next_start(t, i) <= t.len(),
    decreases t.len() - i,
{
    reveal_with_fuel(past, 3);
    lemma_next_idx(t, i);
    let n = next_idx(t, i);
    if i < last_idx(t) {
        lemma_next_start(t, n);
        if n < last_idx(t) {
            lemma_next_idx(t, n);
        }
    }
}

proof fn lemma_prev_start(t: Seq<u8>, i: int)
    requires
        buffer_text(t),
        0 <= i <= t.len(),
    ensures
        word_backward_of(t, i) == prev_start(t, i),
        0 <= prev_start(t, i) <= i,
    decreases i,
{
    reveal_with_fuel(back_off, 3);
    reveal_with_fuel(back_over, 3);
    lemma_prev_idx(t, i);
    let j = prev_idx(t, i);
    if i > 0 && j > 0 {
        lemma_prev_start(t, j);
        lemma_prev_idx(t, j);
        lemma_prev_idx(t, prev_idx(t, j));
        if class_at(t, j) != CharClass::Blank && class_at(t, prev_idx(t, j)) == class_at(t, j) {
            assert(back_over(t, j, of_class(class_at(t, j))) == back_over(
                t,
                prev_idx(t, j),
                of_class(class_at(t, j)),
            ));
        }
    }
}

proof fn lemma_next_end(t: Seq<u8>, i: int)
    requires
        buffer_text(t),
        0 <= i <= t.len(),
    ensures
        word_end_of(t, i) == next_end(t, i),
        0 <= next_end(t, i) <= t.len(),
    decreases t.len() - i,
{
    lemma_next_idx(t, i);
    let n = next_idx(t, i);
    let last = last_idx(t);
    crate::buffer::lemma_ascii_char(t, last, '\n', crate::text::LF);
    if i < last {
        lemma_next_end(t, n);
        if n < last {
            lemma_next_idx(t, n);
            let m = next_idx(t, n);
            if m < last {
                lemma_next_idx(t, m);
            }
        }
    }
}

/// So many steps.
pub open spec fn stepped(t: Seq<u8>, i: int, n: nat, f: spec_fn(Seq<u8>, int) -> int) -> int
    decreases n,
{
    if n == 0 {
        i
    } else {
        stepped(t, f(t, i), (n - 1) as nat, f)
    }
}

proof fn lemma_word_steps(t: Seq<u8>, i: int, n: nat)
    requires
        buffer_text(t),
        0 <= i <= t.len(),
    ensures
        words_forward(t, i, n) == stepped(t, i, n, |t: Seq<u8>, i: int| next_start(t, i)),
        words_backward(t, i, n) == stepped(t, i, n, |t: Seq<u8>, i: int| prev_start(t, i)),
        word_ends(t, i, n) == stepped(t, i, n, |t: Seq<u8>, i: int| next_end(t, i)),
    decreases n,
{
    if n > 0 {
        lemma_next_start(t, i);
        lemma_prev_start(t, i);
        lemma_next_end(t, i);
        lemma_word_steps(t, next_start(t, i), (n - 1) as nat);
        lemma_word_steps(t, prev_start(t, i), (n - 1) as nat);
        lemma_word_steps(t, next_end(t, i), (n - 1) as nat);
    }
}

/// `w` goes to the next start of a word, `b` to the one before, and `e` to the next end of a
/// word, as often as the count says. A word is a run of characters of one class that is not
/// blank. The first two stop before their target, the last one takes it in. To change, `w` goes
/// where `e` does from a character that is not blank.
pub proof fn words_are_counted(p: Pane, n: Option<usize>)
    requires
        buffer_text(p.text()),
        on_text(p),
        p.live.pending.count == n,
        p.live.pending.op_count is None,
    ensures
        ({
            let t = p.text();
            let at = offset(p);
            let w = motion_landing(p, Motion::Word, None);
            let b = motion_landing(p, Motion::BackWord, None);
            let e = motion_landing(p, Motion::EndWord, None);
            let change = p.live.pending.operator == Some('c') && class_at(t, at)
                != CharClass::Blank;
            &&& w is Some && b is Some && e is Some
            &&& !change ==> w->0.target == stepped(
                t,
                at,
                times(n),
                |t: Seq<u8>, i: int| next_start(t, i),
            ) && w->0.kind == MotionKind::Exclusive
            &&& change ==> w == e
            &&& b->0.target == stepped(t, at, times(n), |t: Seq<u8>, i: int| prev_start(t, i))
            &&& b->0.kind == MotionKind::Exclusive
            &&& e->0.target == stepped(t, at, times(n), |t: Seq<u8>, i: int| next_end(t, i))
            &&& e->0.kind == MotionKind::Inclusive
        }),
{
    lemma_times(n);
    assert(total_count(p.live.pending) == total_count(counted(n)));
    lemma_own(p);
    reveal(crate::motions::word_landing);
    lemma_line_text(p.text(), p.live.cursor.line as int);
    lemma_word_steps(p.text(), offset(p), times(n));
}

/// How often a character begins a grapheme of a line after `a` and not after `b`.
pub open spec fn occurs(l: Seq<u8>, c: char, a: int, b: int) -> nat
    decreases b - a,
{
    if b <= a {
        0
    } else {
        occurs(l, c, a, b - 1) + if bound(l, b) && stands_at(l, b, c) {
            1nat
        } else {
            0nat
        }
    }
}

proof fn lemma_occurs_add(l: Seq<u8>, c: char, a: int, b: int, d: int)
    requires
        a <= b <= d,
    ensures
        occurs(l, c, a, d) == occurs(l, c, a, b) + occurs(l, c, b, d),
    decreases d - b,
{
    if b < d {
        lemma_occurs_add(l, c, a, b, d - 1);
    }
}

proof fn lemma_occurs_none(l: Seq<u8>, c: char, a: int, b: int)
    requires
        forall|i: int| a < i <= b ==> !bound(l, i),
    ensures
        occurs(l, c, a, b) == 0,
    decreases b - a,
{
    if a < b {
        lemma_occurs_none(l, c, a, b - 1);
    }
}

proof fn lemma_found_on(l: Seq<u8>, col: int, c: char, found: nat, count: nat)
    requires
        valid_utf8(l),
        0 <= col <= l.len(),
        bound(l, col),
        found < count,
    ensures
        match found_on(l, col, c, found, count) {
            Some(r) => col <= r < l.len() && bound(l, r) && stands_at(l, r, c) && found + occurs(
                l,
                c,
                col - 1,
                r,
            ) == count,
            None => found + occurs(l, c, col - 1, l.len() as int) < count,
        },
    decreases l.len() - col,
{
    lemma_bound_from(l, col + 1);
    lemma_occurs_none(l, c, col - 1, col - 1);
    if col < l.len() {
        let n = next_bound(l, col);
        let here = if stands_at(l, col, c) {
            1nat
        } else {
            0nat
        };
        assert(occurs(l, c, col - 1, col) == here);
        if !(stands_at(l, col, c) && found + 1 == count) {
            lemma_found_on(l, n, c, found + here, count);
            lemma_occurs_none(l, c, col, n - 1);
            lemma_occurs_add(l, c, col - 1, col, n - 1);
            match found_on(l, n, c, found + here, count) {
                Some(r) => lemma_occurs_add(l, c, col - 1, n - 1, r),
                None => lemma_occurs_add(l, c, col - 1, n - 1, l.len() as int),
            }
        }
    } else {
        assert(occurs(l, c, col - 1, col) == 0);
    }
}

proof fn lemma_found_back(l: Seq<u8>, col: int, c: char, found: nat, count: nat)
    requires
        valid_utf8(l),
        0 <= col <= l.len(),
        bound(l, col),
        found < count,
    ensures
        match found_back(l, col, c, found, count) {
            Some(r) => 0 <= r <= col && bound(l, r) && stands_at(l, r, c) && found + occurs(
                l,
                c,
                r - 1,
                col,
            ) == count,
            None => found + occurs(l, c, -1, col) < count,
        },
    decreases col,
{
    let here = if stands_at(l, col, c) {
        1nat
    } else {
        0nat
    };
    lemma_occurs_none(l, c, col - 1, col - 1);
    assert(occurs(l, c, col - 1, col) == here);
    if !(stands_at(l, col, c) && found + 1 == count) && col > 0 {
        lemma_bound_upto(l, col - 1);
        let n = prev_bound(l, col);
        lemma_found_back(l, n, c, found + here, count);
        lemma_occurs_none(l, c, n, col - 1);
        match found_back(l, n, c, found + here, count) {
            Some(r) => {
                lemma_occurs_add(l, c, r - 1, n, col - 1);
                lemma_occurs_add(l, c, r - 1, col - 1, col);
            },
            None => {
                lemma_occurs_add(l, c, -1, n, col - 1);
                lemma_occurs_add(l, c, -1, col - 1, col);
            },
        }
    }
}

/// `f` goes to the next place of a character on the line, and `F` to the one before: to the
/// first, the second and so on, as the count says. Where there are fewer, neither goes anywhere.
/// `t` stops one grapheme before where `f` goes, and `T` one after where `F` goes.
pub proof fn finds_are_counted(l: Seq<u8>, cur: int, c: char, n: nat)
    requires
        valid_utf8(l),
        bound(l, cur),
        cur < l.len(),
        n >= 1,
    ensures
        ({
            let f = find_column(l, cur, FindKind::Find, c, n, false);
            let b = find_column(l, cur, FindKind::FindBack, c, n, false);
            let t = find_column(l, cur, FindKind::Till, c, n, false);
            let tb = find_column(l, cur, FindKind::TillBack, c, n, false);
            &&& f matches Some(r) ==> cur < r < l.len() && stands_at(l, r, c) && occurs(l, c, cur, r)
                == n
            &&& f is None ==> occurs(l, c, cur, l.len() as int) < n
            &&& b matches Some(r) ==> 0 <= r < cur && stands_at(l, r, c) && occurs(
                l,
                c,
                r - 1,
                cur - 1,
            ) == n
            &&& b is None ==> occurs(l, c, -1, cur - 1) < n
            &&& t is Some == f is Some
            &&& f matches Some(r) ==> cur <= t->0 < r && bound(l, t->0) && bounds_in(l, t->0, r) == 1
            &&& tb is Some == b is Some
            &&& b matches Some(r) ==> r < tb->0 <= cur && bound(l, tb->0) && bounds_in(l, r, tb->0)
                == 1
        }),
{
    lemma_bound_from(l, cur + 1);
    let a = next_bound(l, cur);
    lemma_found_on(l, a, c, 0, n);
    lemma_occurs_none(l, c, cur, a - 1);
    match found_on(l, a, c, 0, n) {
        Some(r) => {
            lemma_occurs_add(l, c, cur, a - 1, r);
            lemma_bound_upto(l, r - 1);
            lemma_no_bounds(l, prev_bound(l, r), r - 1);
        },
        None => lemma_occurs_add(l, c, cur, a - 1, l.len() as int),
    }
    if cur > 0 {
        lemma_bound_upto(l, cur - 1);
        let z = prev_bound(l, cur);
        lemma_found_back(l, z, c, 0, n);
        lemma_occurs_none(l, c, z, cur - 1);
        match found_back(l, z, c, 0, n) {
            Some(r) => {
                lemma_occurs_add(l, c, r - 1, z, cur - 1);
                lemma_one_bound(l, r);
                lemma_bound_from(l, r + 1);
                if next_bound(l, r) > cur {
                    assert(!bound(l, cur));
                }
            },
            None => lemma_occurs_add(l, c, -1, z, cur - 1),
        }
    }
}

/// `;` goes where the last find would go once more, and `,` where it would go in the other
/// direction.
pub proof fn finds_are_repeated(p: Pane, c: char)
    ensures
        p.live.last_find == Some((FindKind::Find, c)) ==> {
            &&& motion_landing(p, Motion::FindRepeat { reverse: false }, None) == motion_landing(
                p,
                Motion::Find(FindKind::Find, c),
                None,
            )
            &&& motion_landing(p, Motion::FindRepeat { reverse: true }, None) == motion_landing(
                p,
                Motion::Find(FindKind::FindBack, c),
                None,
            )
        },
        p.live.last_find == Some((FindKind::FindBack, c)) ==> {
            &&& motion_landing(p, Motion::FindRepeat { reverse: false }, None) == motion_landing(
                p,
                Motion::Find(FindKind::FindBack, c),
                None,
            )
            &&& motion_landing(p, Motion::FindRepeat { reverse: true }, None) == motion_landing(
                p,
                Motion::Find(FindKind::Find, c),
                None,
            )
        },
{
    reveal(crate::motions::find_landing);
}

/// A find moves to the column that it finds, on the line of the cursor. One forward takes its
/// target in, one backward does not.
pub proof fn finds_stay_on_the_line(p: Pane, kind: FindKind, c: char, n: Option<usize>)
    requires
        buffer_text(p.text()),
        on_text(p),
        p.live.pending.count == n,
        p.live.pending.op_count is None,
    ensures
        match find_column(cursor_line(p), p.live.cursor.col as int, kind, c, times(n), false) {
            Some(col) => motion_landing(p, Motion::Find(kind, c), None) == Some(
                Landing {
                    target: line_start(p.text(), p.live.cursor.line as int) + col,
                    kind: if kind == FindKind::Find || kind == FindKind::Till {
                        MotionKind::Inclusive
                    } else {
                        MotionKind::Exclusive
                    },
                    axis: MoveAxis::Horizontal,
                },
            ),
            None => motion_landing(p, Motion::Find(kind, c), None) is None,
        },
{
    lemma_times(n);
    assert(total_count(p.live.pending) == total_count(counted(n)));
    lemma_own(p);
    reveal(crate::motions::find_landing);
}

/// `m` sets a mark at the cursor.
proof fn lemma_mark_set(w: World, name: char)
    requires
        ready(w, None),
        letter(name),
    ensures
        ({
            let set = normal_keyed(normal_keyed(w, key_of('m')), key_of(name));
            &&& set == reset(marked(w.hushed(), name))
            &&& set.pane().text() == w.pane().text()
            &&& set.live.cursor == w.live.cursor
        }),
{
    lemma_mark_keys(name);
    lemma_added(w, 'm', PendingCommand { stage: Stage::MarkSetPending, ..counted(None) });
    let v = normal_keyed(w, key_of('m'));
    lemma_led(v, name, ResolvedCommand::SetMark(name));
    lemma_mark_made(v.hushed(), name);
}

proof fn lemma_mark_made(w: World, name: char)
    requires
        letter(name),
    ensures
        command_made(w, ResolvedCommand::SetMark(name)) == reset(marked(w, name)),
{
    reveal(command_made);
}

/// `` ` `` goes to a mark of the current buffer.
proof fn lemma_mark_jumped(w: World, name: char, to: Cursor)
    requires
        ready(w, None),
        letter(name),
        mark_place(w, name) == Some(MarkAt { buf: w.cur(), line: to.line, col: to.col }),
        on_text(w.pane().with_cursor(to)),
        to.col < line_text(w.pane().text(), to.line as int).len() || to.col == 0,
    ensures
        ({
            let back = normal_keyed(normal_keyed(w, key_of('`')), key_of(name));
            &&& back.pane().text() == w.pane().text()
            &&& back.live.cursor == to
        }),
{
    lemma_mark_keys(name);
    lemma_added(
        w,
        '`',
        PendingCommand { stage: Stage::MarkJumpPending(MarkJumpKind::Exact), ..counted(None) },
    );
    let u = normal_keyed(w, key_of('`'));
    let m = Motion::MarkJumpExact(name);
    lemma_motion_keyed(u, name, m);
    let h = u.hushed();
    assert(motion_done(h, m) == motion_made(h, m, Some((to.line, to.col)))) by {
        reveal(motion_done);
    }
    lemma_made(h, m, Some((to.line, to.col)));
    let p = h.pane();
    let q = p.with_cursor(to);
    lemma_own(q);
    lemma_line_text(p.text(), to.line as int);
    lemma_line_start(p.text(), to.line as int);
    lemma_at(p, to.line as int, to.col as int);
    lemma_held(q);
}

/// A mark that was set at the cursor leads back there: `` ` `` to the very place, from wherever
/// the cursor has gone since, as long as the text has not changed.
pub proof fn marks_lead_back(w: World, name: char, c: Cursor)
    requires
        ready(w, None),
        on_text(w.pane()),
        w.live.cursor.col < cursor_line(w.pane()).len() || w.live.cursor.col == 0,
        letter(name),
    ensures
        ({
            let set = normal_keyed(normal_keyed(w, key_of('m')), key_of(name));
            let away = World { live: Live { cursor: c, ..set.live }, ..set };
            let back = normal_keyed(normal_keyed(away, key_of('`')), key_of(name));
            &&& set.pane().text() == w.pane().text()
            &&& set.live.cursor == w.live.cursor
            &&& back.pane().text() == w.pane().text()
            &&& back.live.cursor == w.live.cursor
        }),
{
    lemma_mark_set(w, name);
    let set = normal_keyed(normal_keyed(w, key_of('m')), key_of(name));
    let away = World { live: Live { cursor: c, ..set.live }, ..set };
    let to = w.live.cursor;
    assert(away.cur() == w.cur());
    assert(mark_place(away, name) == Some(MarkAt { buf: w.cur(), line: to.line, col: to.col }));
    lemma_mark_jumped(away, name, to);
}

} // verus!
