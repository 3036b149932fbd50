//! What commands are for, said of the keys that give them and of the text and the cursor that
//! they leave.

use vstd::prelude::*;

use crate::batch::is_fixed;
use crate::command::{
    clean_command, step, Motion, NormalCmd, ParseStep, PendingCommand, ResolvedCommand,
};
use crate::desk::Pane;
use crate::editor::normal::{
    command_made, motion_done, normal_done, normal_keyed, would_change,
};
use crate::editor::World;
use crate::input::{plain_key, Key, KeyCode};
use crate::mode::Mode;
use crate::motions::total_count;
use crate::nav::{lemma_line_offset, lemma_line_text};
use crate::open::Live;
use crate::text::{
    break_ends_at, buffer_text, edit_lines, full_line, lemma_buffer_lines, lemma_line_of,
    lemma_line_of_mono, lemma_line_start, line_of, line_start, line_text, unbroken, CR,
};
use crate::unicode::bound;
use crate::window::Cursor;

pub mod changing;
pub mod commanding;
pub mod finding;
pub mod moving;
pub mod objects;
pub mod operating;
pub mod pasting;

verus! {

/// The key of a character.
pub open spec fn key_of(c: char) -> Key {
    plain_key(KeyCode::Char(c))
}

/// A command of which nothing but a count has been typed.
pub open spec fn counted(n: Option<usize>) -> PendingCommand {
    PendingCommand { count: n, ..clean_command() }
}

/// How often a count says.
pub open spec fn times(n: Option<usize>) -> nat {
    match n {
        Some(k) => k as nat,
        None => 1,
    }
}

/// Normal mode, with nothing but a count typed.
pub open spec fn ready(w: World, n: Option<usize>) -> bool {
    &&& w.live.mode == Mode::Normal
    &&& w.live.pending == counted(n)
    &&& w.buffers.contains_key(w.cur().0)
    &&& buffer_text(w.pane().text())
}

/// The cursor is on a line of the text, at a grapheme of it or past the last one.
pub open spec fn on_text(p: Pane) -> bool {
    let c = p.live.cursor;
    c.line < edit_lines(p.text()) && bound(line_text(p.text(), c.line as int), c.col as int)
}

/// The line of the cursor.
pub open spec fn cursor_line(p: Pane) -> Seq<u8> {
    line_text(p.text(), p.live.cursor.line as int)
}

/// The offset of the cursor.
pub open spec fn offset(p: Pane) -> int {
    line_start(p.text(), p.live.cursor.line as int) + p.live.cursor.col
}

/// In normal mode, a character completes a pending command.
#[verifier::opaque]
pub open spec fn leads(p: PendingCommand, c: char, cmd: ResolvedCommand) -> bool {
    step(Mode::Normal, p, key_of(c)) == ParseStep::Complete(cmd)
}

/// In normal mode, a character adds to a pending command.
#[verifier::opaque]
pub open spec fn adds(p: PendingCommand, c: char, q: PendingCommand) -> bool {
    step(Mode::Normal, p, key_of(c)) == ParseStep::Prefix(q)
}

/// What a character does that completes a command that is not refused.
pub proof fn lemma_led(w: World, c: char, cmd: ResolvedCommand)
    requires
        w.live.mode == Mode::Normal,
        w.live.pending.register is None,
        leads(w.live.pending, c, cmd),
        !(is_fixed(w.buffers[w.cur().0].buffer) && would_change(w.live.pending, cmd)),
    ensures
        normal_keyed(w, key_of(c)) == command_made(w.hushed(), cmd),
        w.hushed().pane() == w.pane(),
{
    reveal(normal_keyed);
    reveal(leads);
}

/// What a character does that adds to a command.
pub proof fn lemma_added(w: World, c: char, q: PendingCommand)
    requires
        w.live.mode == Mode::Normal,
        adds(w.live.pending, c, q),
    ensures
        normal_keyed(w, key_of(c)) == (World {
            live: Live { pending: q, ..w.live },
            ..w.hushed()
        }),
{
    reveal(normal_keyed);
    reveal(adds);
}

/// A motion is made as such.
pub proof fn lemma_motion_made(w: World, m: Motion)
    ensures
        command_made(w, ResolvedCommand::Motion(m)) == motion_done(w, m),
{
    reveal(command_made);
}

/// A command of a single key is made as such.
pub proof fn lemma_normal_made(w: World, cmd: NormalCmd)
    ensures
        command_made(w, ResolvedCommand::Normal(cmd)) == normal_done(w, cmd),
{
    reveal(command_made);
}

pub proof fn lemma_times(n: Option<usize>)
    ensures
        total_count(counted(n)) as nat == times(n),
{
    assert(1 * times(n) == times(n)) by (nonlinear_arith);
    assert(total_count(counted(n)) == crate::layout::clip((1int) * (times(n) as int)));
}

/// Where a line that holds no line break ends, its line break begins.
pub proof fn lemma_line_within(t: Seq<u8>, n: int)
    requires
        buffer_text(t),
        0 <= n < edit_lines(t),
        unbroken(line_text(t, n)),
    ensures
        line_start(t, n) + line_text(t, n).len() < line_start(t, n + 1),
{
    lemma_line_text(t, n);
    lemma_line_start(t, n);
    lemma_line_start(t, n + 1);
    lemma_buffer_lines(t);
    let (a, z) = (line_start(t, n), line_start(t, n + 1));
    let f = full_line(t, n);
    let l = line_text(t, n);
    assert(break_ends_at(t, z));
    assert(f.last() == t[z - 1]);
    if l.len() == f.len() {
        assert(l == f);
        assert(l[l.len() - 1] == CR);
    }
}

/// The line of an offset between the starts of two lines.
pub proof fn lemma_line_is(t: Seq<u8>, n: int, i: int)
    requires
        buffer_text(t),
        0 <= n < edit_lines(t),
        line_start(t, n) <= i < line_start(t, n + 1),
    ensures
        line_of(t, i) == n,
        i < t.len(),
{
    lemma_line_start(t, n);
    lemma_line_start(t, n + 1);
    lemma_line_of_mono(t, line_start(t, n), i);
    if line_of(t, i) > n {
        lemma_line_of(t, i);
        crate::text::lemma_line_start_mono(t, n + 1, line_of(t, i) as int);
    }
}

/// A cursor on a column of a line is where its offset puts it.
pub proof fn lemma_at(p: Pane, n: int, col: int)
    requires
        buffer_text(p.text()),
        0 <= n < edit_lines(p.text()),
        bound(line_text(p.text(), n), col),
        line_start(p.text(), n) + col < line_start(p.text(), n + 1),
    ensures
        p.at(line_start(p.text(), n) + col) == p.with_cursor(
            Cursor { line: n as usize, col: col as usize },
        ),
        p.at(line_start(p.text(), n) + col).live.cursor.line == n,
        p.at(line_start(p.text(), n) + col).live.cursor.col == col,
{
    reveal(Pane::at);
    let t = p.text();
    let i = line_start(t, n) + col;
    lemma_line_text(t, n);
    lemma_line_is(t, n, i);
    lemma_line_offset(t, n, col);
    crate::text::lemma_line_of_bounds(t, i);
    assert(crate::rope::floor_char(t, i) == i);
}

/// A cursor on a grapheme of a line stays there.
pub proof fn lemma_held(p: Pane)
    requires
        buffer_text(p.text()),
        on_text(p),
        p.live.cursor.col < cursor_line(p).len() || p.live.cursor.col == 0 || crate::mode::typing(
            p.live.mode,
        ),
    ensures
        p.held() == p,
{
    reveal(Pane::held);
    let t = p.text();
    let c = p.live.cursor;
    lemma_buffer_lines(t);
    lemma_line_text(t, c.line as int);
    crate::unicode::lemma_bound_upto(cursor_line(p), c.col as int);
}

/// What the cursor's line is.
pub proof fn lemma_own(p: Pane)
    requires
        buffer_text(p.text()),
        p.live.cursor.line < edit_lines(p.text()),
    ensures
        p.line_no() == p.live.cursor.line,
        p.line() == cursor_line(p),
        p.start_of(p.line_no()) == line_start(p.text(), p.live.cursor.line as int),
        on_text(p) ==> p.col() == p.live.cursor.col && p.spot() == offset(p),
{
    reveal(Pane::line_no);
    reveal(Pane::line);
    reveal(Pane::start_of);
    reveal(Pane::col);
    reveal(Pane::spot);
    lemma_buffer_lines(p.text());
}

} // verus!
