//! Insert mode: what keys do while text is typed.

use vstd::prelude::*;
use vstd::utf8::*;

use crate::buffer::{
    inserted, lemma_inserted, lemma_line_feed, lemma_removed, normalized, removed,
};
use crate::desk::{byte_len, dirty, Desk, Pane};
use crate::input::{plain_key, Key, KeyCode};
use crate::layout::clip;
use crate::mode::Mode;
use crate::nav::last_line_of;
use crate::open::Live;
use crate::options::{tab_unit, tab_width};
use crate::rope::floor_char;
use crate::text::{
    buffer_text, cut_out, edit_lines, lemma_buffer_lines, lemma_line_spliced,
    lemma_line_start, line_start, line_text, on_char, spliced_in, CR,
};
use crate::unicode::{
    bound, bound_upto, byte_at_column, byte_at_virtcol, floor_grapheme, lemma_virtcol_from,
    next_bound, next_grapheme, prev_bound, prev_grapheme, virtcol_of,
};
use crate::window::Cursor;

verus! {

/// `n` blanks.
pub open spec fn blanks(n: nat) -> Seq<char> {
    Seq::new(n, |i: int| ' ')
}

/// The white space that leads from one screen column to another: tabs as far as they
/// reach, then blanks; blanks alone where `expand` says so.
pub open spec fn fill(start: nat, target: nat, ts: nat, expand: bool) -> Seq<char>
    decreases target - start,
{
    if start > target {
        Seq::empty()
    } else if expand || ts == 0 || start - start % ts + ts > target {
        blanks((target - start) as nat)
    } else {
        seq!['\t'] + fill((start - start % ts + ts) as nat, target, ts, expand)
    }
}

/// The last multiple of `unit` not after `col`.
fn tab_base(col: usize, unit: usize) -> (r: usize)
    requires
        unit >= 1,
    ensures
        r == col - col % unit,
        r <= col < r + unit,
{
    proof {
        let a = col as int;
        let b = unit as int;
        assert(0 <= a % b <= a && a % b < b) by (nonlinear_arith)
            requires
                0 <= a,
                1 <= b,
        ;
    }
    col - col % unit
}

/// White space that advances from screen column `start` to `target`.
pub fn fill_indent(start: usize, target: usize, tabstop: usize, expandtab: bool) -> (s: String)
    requires
        start <= target,
        tabstop >= 1,
    ensures
        s@ == fill(start as nat, target as nat, tabstop as nat, expandtab),
{
    let mut s = String::new();
    let mut col: usize = start;
    assert(s@ + fill(start as nat, target as nat, tabstop as nat, expandtab) =~= fill(
        start as nat,
        target as nat,
        tabstop as nat,
        expandtab,
    ));
    if !expandtab {
        while target - tab_base(col, tabstop) >= tabstop
            invariant
                start <= col <= target,
                tabstop >= 1,
                !expandtab,
                s@ + fill(col as nat, target as nat, tabstop as nat, expandtab) == fill(
                    start as nat,
                    target as nat,
                    tabstop as nat,
                    expandtab,
                ),
            decreases target - col,
        {
            let ghost before = s@;
            let next: usize = tab_base(col, tabstop) + tabstop;
            s.push('\t');
            assert(s@ + fill(next as nat, target as nat, tabstop as nat, expandtab) =~= before + (
            seq!['\t'] + fill(next as nat, target as nat, tabstop as nat, expandtab)));
            col = next;
        }
    }
    let ghost before = s@;
    let n: usize = target - col;
    let mut i: usize = 0;
    assert(s@ =~= before + blanks(0));
    while i < n
        invariant
            i <= n,
            s@ == before + blanks(i as nat),
        decreases n - i,
    {
        s.push(' ');
        assert(s@ =~= before + blanks((i + 1) as nat));
        i += 1;
    }
    s
}

/// The bytes of a line from `a` to `z` are there and blank.
pub open spec fn all_blank(l: Seq<u8>, a: int, z: int) -> bool {
    0 <= a <= z <= l.len() && forall|i: int| a <= i < z ==> #[trigger] l[i] == 32
}

/// The column of the cursor's line that vertical motions keep to: the remembered
/// screen column, or the end, as far as the line reaches. Past the last grapheme only
/// where `past_end` says so.
#[verifier::opaque]
pub open spec fn desired(p: Pane, past_end: bool) -> int {
    let l = p.line();
    let most = if past_end {
        l.len() as int
    } else {
        prev_bound(l, l.len() as int)
    };
    let want = byte_at_column(
        l,
        p.live.desired_col as int,
        tab_width(p.open.buffer.options) as int,
    );
    bound_upto(
        l,
        if p.live.desired_eol || want > most {
            most
        } else {
            want
        },
    )
}

/// The cursor at the remembered column of its line.
pub open spec fn at_desired(p: Pane, past_end: bool) -> Pane {
    p.with_cursor(Cursor { col: desired(p, past_end) as usize, ..p.live.cursor })
}

/// The cursor so many lines down, or up, at the remembered column.
pub open spec fn moved_vertically(p: Pane, delta: int, past_end: bool) -> Pane {
    let n = p.live.cursor.line + delta;
    let last = last_line_of(p.text());
    let line = if n < 0 {
        0
    } else if n > last {
        last
    } else {
        n
    };
    let q = at_desired(p.with_cursor(Cursor { line: line as usize, ..p.live.cursor }), past_end);
    Pane { live: Live { preserve_desired: true, ..q.live }, ..q }
}

/// The escape key: back to normal mode, one grapheme to the left.
pub open spec fn typing_ended(p: Pane) -> Pane {
    let c = p.live.cursor;
    let q = p.with_mode(Mode::Normal).with_cursor(
        Cursor {
            col: if c.col > 0 {
                prev_bound(p.line(), c.col as int) as usize
            } else {
                0
            },
            ..c
        },
    ).held();
    Pane { live: Live { snapshot_taken: false, ..q.live }, ..q }
}

/// The enter key: a line break at the cursor.
pub open spec fn line_broken(p: Pane) -> Pane {
    p.with_buffer(dirty(inserted(p.open.buffer, p.spot(), seq!['\n']))).with_cursor(
        Cursor { line: clip(p.live.cursor.line + 1), col: 0 },
    )
}

/// The end of the grapheme under the cursor.
pub open spec fn grapheme_end(p: Pane) -> int {
    p.start_of(p.line_no()) + next_bound(p.line(), p.live.cursor.col as int)
}

/// The delete key: the grapheme under the cursor goes.
pub open spec fn typed_delete(p: Pane) -> Pane {
    if p.live.cursor.col < p.line().len() {
        p.with_buffer(dirty(removed(p.open.buffer, p.spot(), grapheme_end(p))))
    } else {
        p
    }
}

/// A character at the cursor, in place of the grapheme there in replace mode.
pub open spec fn typed_char(p: Pane, c: char) -> Pane {
    let at = p.spot();
    let b = if p.live.mode == Mode::Replace && p.live.cursor.col < p.line().len() {
        dirty(removed(p.open.buffer, at, grapheme_end(p)))
    } else {
        p.open.buffer
    };
    p.with_buffer(dirty(inserted(b, at, seq![c]))).with_cursor(
        Cursor { col: clip(p.live.cursor.col + encode_utf8(seq![c]).len()), ..p.live.cursor },
    )
}

/// Where the blanks began that a tab adds to: at `prev`, where that is a run of
/// blanks on the cursor's line up to column `begin`, else at `begin`.
pub open spec fn run_anchor(p: Pane, prev: Option<(usize, usize)>, begin: usize) -> usize {
    match prev {
        Some((l, a)) => if l == p.live.cursor.line && a <= begin && all_blank(
            p.line(),
            a as int,
            begin as int,
        ) {
            a
        } else {
            begin
        },
        None => begin,
    }
}

/// The white space that a tab at the cursor puts in: up to the next multiple of the
/// tab unit.
pub open spec fn tab_fill(p: Pane) -> Seq<char> {
    let o = p.open.buffer.options;
    let start = p.column(p.live.cursor.col as int);
    let unit = tab_unit(o) as int;
    fill(
        start as nat,
        clip(start - start % unit + unit) as nat,
        tab_width(o) as nat,
        o.expandtab,
    )
}

/// The tab key. Where it puts in blanks alone, it remembers where their run began.
pub open spec fn typed_tab(p: Pane, prev: Option<(usize, usize)>) -> Pane {
    let ws = tab_fill(p);
    let c = p.live.cursor;
    let q = p.with_buffer(dirty(inserted(p.open.buffer, p.spot(), ws))).with_cursor(
        Cursor { col: clip(c.col + ws.len()), ..c },
    );
    Pane {
        live: Live {
            soft_tab: if ws.len() > 0 && forall|i: int| 0 <= i < ws.len() ==> ws[i] == ' ' {
                Some((c.line, run_anchor(q, prev, c.col)))
            } else {
                None
            },
            ..q.live
        },
        ..q
    }
}

/// How many blanks of a run from `anchor` one backspace takes: those back to the
/// tab unit before, and no more than the run.
#[verifier::opaque]
pub open spec fn soft_width(p: Pane, anchor: usize) -> int {
    let col = p.live.cursor.col;
    let unit = tab_unit(p.open.buffer.options) as int;
    let v = p.column(col as int);
    let stop = if v >= 1 {
        (v - 1) / unit * unit
    } else {
        0
    };
    let a = p.column(anchor as int);
    let target = if stop < a {
        a
    } else {
        stop
    };
    if v <= target {
        0
    } else if v - target < col - anchor {
        v - target
    } else {
        col - anchor
    }
}

/// Backspace over the blanks of a tab, where the last key put them in.
pub open spec fn soft_backspaced(p: Pane, soft: Option<(usize, usize)>) -> Option<Pane> {
    let c = p.live.cursor;
    match soft {
        None => None,
        Some((line, anchor)) => {
            let n = soft_width(p, anchor);
            if line != c.line || anchor >= c.col || tab_unit(p.open.buffer.options) <= 1
                || !all_blank(p.line(), anchor as int, c.col as int) || n == 0 {
                None
            } else {
                let start = p.start_of(p.line_no());
                let col = c.col - n;
                let q = p.with_buffer(
                    dirty(removed(p.open.buffer, start + col, start + c.col)),
                ).with_cursor(Cursor { col: col as usize, ..c });
                Some(
                    Pane {
                        live: Live {
                            soft_tab: if col > anchor {
                                Some((line, anchor))
                            } else {
                                p.live.soft_tab
                            },
                            ..q.live
                        },
                        ..q
                    },
                )
            }
        },
    }
}

/// The backspace key: a tab's blanks, the grapheme before the cursor, or the line
/// break before it.
pub open spec fn backspaced(p: Pane, soft: Option<(usize, usize)>) -> Pane {
    let c = p.live.cursor;
    if c.col > 0 {
        match soft_backspaced(p, soft) {
            Some(q) => q,
            None => {
                let col = prev_bound(p.line(), c.col as int);
                p.with_buffer(
                    dirty(removed(p.open.buffer, p.start_of(p.line_no()) + col, p.spot())),
                ).with_cursor(Cursor { col: col as usize, ..c })
            },
        }
    } else if c.line > 0 {
        let above = Cursor { line: (c.line - 1) as usize, col: 0 };
        let (a, z) = p.break_before();
        p.with_buffer(dirty(normalized(removed(p.open.buffer, a, z)))).with_cursor(
            Cursor { col: p.with_cursor(above).line().len() as usize, ..above },
        )
    } else {
        p
    }
}

/// What a key does while text is typed.
pub open spec fn typed_key(p0: Pane, key: Key) -> Pane {
    let soft = p0.live.soft_tab;
    let p = Pane { live: Live { soft_tab: None, ..p0.live }, ..p0 };
    let c = p.live.cursor;
    match key.code {
        KeyCode::Esc => typing_ended(p),
        KeyCode::Enter => line_broken(p),
        KeyCode::Backspace => backspaced(p, soft),
        KeyCode::Tab => typed_tab(p, soft),
        KeyCode::Left => p.with_cursor(
            Cursor { col: prev_bound(p.line(), c.col as int) as usize, ..c },
        ),
        KeyCode::Right => p.with_cursor(
            Cursor { col: next_bound(p.line(), c.col as int) as usize, ..c },
        ),
        KeyCode::Up => moved_vertically(p, -1, true),
        KeyCode::Down => moved_vertically(p, 1, true),
        KeyCode::Delete => typed_delete(p),
        KeyCode::Char(ch) => typed_char(p, ch),
        _ => p,
    }
}

impl Desk {
    /// Put the cursor at the remembered column of its line.
    pub fn settle_desired_col(&mut self, past_end: bool)
        requires
            old(self).wf(),
        ensures
            final(self).wf(),
            final(self)@ == at_desired(old(self)@, past_end),
    {
        proof {
            reveal(desired);
        }
        let s = self.line();
        let len: usize = s.as_str().as_bytes().len();
        let most: usize = if past_end {
            len
        } else {
            prev_grapheme(s.as_str(), len)
        };
        let live = self.live();
        let ts: usize = self.buffer().options.effective_tabstop();
        let want: usize = byte_at_virtcol(s.as_str(), live.desired_col, ts);
        let to: usize = if live.desired_eol || want > most {
            most
        } else {
            want
        };
        let col: usize = floor_grapheme(s.as_str(), to);
        self.set_cursor(Cursor { line: live.cursor.line, col });
    }

    /// Move the cursor so many lines down, or up, at the remembered column.
    pub fn move_vertical(&mut self, delta: i64, past_end: bool)
        requires
            old(self).wf(),
        ensures
            final(self).wf(),
            final(self)@ == moved_vertically(old(self)@, delta as int, past_end),
    {
        let mut live = self.live();
        let n: i128 = live.cursor.line as i128 + delta as i128;
        let last: usize = self.buffer().last_line();
        live.cursor.line = if n < 0 {
            0
        } else if n > last as i128 {
            last
        } else {
            n as usize
        };
        self.set_live(live);
        self.settle_desired_col(past_end);
        let mut after = self.live();
        after.preserve_desired = true;
        self.set_live(after);
    }

    fn end_typing(&mut self)
        requires
            old(self).wf(),
        ensures
            final(self).wf(),
            final(self)@ == typing_ended(old(self)@),
    {
        let mut live = self.live();
        if live.cursor.col > 0 {
            let s = self.line();
            live.cursor.col = prev_grapheme(s.as_str(), live.cursor.col);
        }
        live.mode = Mode::Normal;
        self.set_live(live);
        self.clamp_cursor();
        let mut after = self.live();
        after.snapshot_taken = false;
        self.set_live(after);
    }

    fn break_line(&mut self)
        requires
            old(self).wf(),
        ensures
            final(self).wf(),
            final(self)@ == line_broken(old(self)@),
    {
        proof {
            lemma_line_feed();
        }
        let at: usize = self.spot();
        self.put(at, "\n");
        let line: usize = self.live().cursor.line;
        self.set_cursor(Cursor { line: line.saturating_add(1), col: 0 });
    }

    /// The end of the grapheme under the cursor.
    fn grapheme_end(&self) -> (r: usize)
        requires
            self.wf(),
        ensures
            r == grapheme_end(self@),
            r < self@.text().len(),
            self@.between(r as int),
    {
        let s = self.line();
        let n: usize = next_grapheme(s.as_str(), self.live().cursor.col);
        let start: usize = self.start_of(self.line_no());
        proof {
            self.column_is_between(n as int);
        }
        start + n
    }

    fn type_delete(&mut self)
        requires
            old(self).wf(),
        ensures
            final(self).wf(),
            final(self)@ == typed_delete(old(self)@),
    {
        if self.live().cursor.col < self.line_len() {
            let at: usize = self.spot();
            let end: usize = self.grapheme_end();
            self.cut(at, end);
        }
    }

    fn type_char(&mut self, c: char)
        requires
            old(self).wf(),
        ensures
            final(self).wf(),
            final(self)@ == typed_char(old(self)@, c),
    {
        let live = self.live();
        let at: usize = self.spot();
        if live.mode == Mode::Replace && live.cursor.col < self.line_len() {
            let end: usize = self.grapheme_end();
            self.cut(at, end);
            proof {
                old(self).text_is_settled();
                self.spot_survives_cut(old(self)@, at as int, end as int);
            }
        }
        let mut s = String::new();
        s.push(c);
        assert(s@ =~= seq![c]);
        self.put(at, s.as_str());
        let n: usize = byte_len(c);
        self.set_cursor(
            Cursor { line: live.cursor.line, col: live.cursor.col.saturating_add(n) },
        );
    }

    /// Whether the bytes of the cursor's line from `a` to `z` are there and blank.
    fn is_spaces(&self, a: usize, z: usize) -> (r: bool)
        requires
            self.wf(),
        ensures
            r == all_blank(self@.line(), a as int, z as int),
    {
        let s = self.line();
        let b = s.as_str().as_bytes();
        if a > z || z > b.len() {
            return false;
        }
        let mut i: usize = a;
        while i < z
            invariant
                a <= i <= z <= b@.len(),
                b@ == self@.line(),
                forall|k: int| a <= k < i ==> #[trigger] b@[k] == 32,
            decreases z - i,
        {
            if b[i] != 32 {
                assert(self@.line()[i as int] != 32);
                return false;
            }
            i += 1;
        }
        true
    }

    fn insert_tab(&mut self, prev: Option<(usize, usize)>)
        requires
            old(self).wf(),
        ensures
            final(self).wf(),
            final(self)@ == typed_tab(old(self)@, prev),
    {
        let opts = self.buffer().options;
        let unit: usize = opts.effective_softtabstop();
        let live = self.live();
        let begin: usize = live.cursor.col;
        let start: usize = self.column(begin);
        let target: usize = tab_base(start, unit).saturating_add(unit);
        let ws = fill_indent(start, target, opts.effective_tabstop(), opts.expandtab);
        let at: usize = self.spot();
        let n: usize = count_chars(ws.as_str());
        self.put(at, ws.as_str());
        let mut after = live;
        after.cursor.col = begin.saturating_add(n);
        self.set_live(after);
        let soft: Option<(usize, usize)> = if n > 0 && only_blanks(ws.as_str()) {
            let anchor: usize = match prev {
                Some((l, a)) => if l == live.cursor.line && a <= begin && self.is_spaces(
                    a,
                    begin,
                ) {
                    a
                } else {
                    begin
                },
                None => begin,
            };
            Some((live.cursor.line, anchor))
        } else {
            None
        };
        after.soft_tab = soft;
        self.set_live(after);
    }

    /// How many blanks of a run from `anchor` one backspace takes.
    fn soft_span(&self, anchor: usize) -> (n: usize)
        requires
            self.wf(),
            anchor < self@.live.cursor.col,
        ensures
            n == soft_width(self@, anchor),
            n <= self@.live.cursor.col - anchor,
    {
        proof {
            reveal(soft_width);
        }
        let col: usize = self.live().cursor.col;
        let unit: usize = self.buffer().options.effective_softtabstop();
        let v: usize = self.column(col);
        let a: usize = self.column(anchor);
        let stop: usize = if v >= 1 {
            proof {
                let x = v as int - 1;
                let y = unit as int;
                assert(0 <= x / y * y <= x) by (nonlinear_arith)
                    requires
                        x >= 0,
                        y >= 1,
                ;
            }
            (v - 1) / unit * unit
        } else {
            0
        };
        let target: usize = if stop < a {
            a
        } else {
            stop
        };
        if v <= target {
            0
        } else if v - target < col - anchor {
            v - target
        } else {
            col - anchor
        }
    }

    fn softtab_backspace(&mut self, soft: Option<(usize, usize)>) -> (r: bool)
        requires
            old(self).wf(),
        ensures
            final(self).wf(),
            r == soft_backspaced(old(self)@, soft) is Some,
            final(self)@ == match soft_backspaced(old(self)@, soft) {
                Some(q) => q,
                None => old(self)@,
            },
    {
        let live = self.live();
        let c = live.cursor;
        let (line, anchor) = match soft {
            Some(p) => p,
            None => {
                return false;
            },
        };
        if line != c.line || anchor >= c.col {
            return false;
        }
        let unit: usize = self.buffer().options.effective_softtabstop();
        if unit <= 1 || !self.is_spaces(anchor, c.col) {
            return false;
        }
        let n: usize = self.soft_span(anchor);
        if n == 0 {
            return false;
        }
        let col: usize = c.col - n;
        let start: usize = self.start_of(self.line_no());
        proof {
            self.line_is_utf8();
            lemma_blank_columns(self@.line(), anchor as int, c.col as int, col as int);
            self.column_is_between(col as int);
            self.column_is_between(c.col as int);
        }
        self.cut(start + col, start + c.col);
        let mut after = live;
        after.cursor.col = col;
        if col > anchor {
            after.soft_tab = Some((line, anchor));
        }
        self.set_live(after);
        true
    }

    fn insert_backspace(&mut self, soft: Option<(usize, usize)>)
        requires
            old(self).wf(),
        ensures
            final(self).wf(),
            final(self)@ == backspaced(old(self)@, soft),
    {
        let c = self.live().cursor;
        if c.col > 0 {
            if self.softtab_backspace(soft) {
                return;
            }
            let at: usize = self.spot();
            let start: usize = self.start_of(self.line_no());
            let s = self.line();
            let col: usize = prev_grapheme(s.as_str(), c.col);
            proof {
                self.column_is_between(col as int);
            }
            self.cut(start + col, at);
            self.set_cursor(Cursor { line: c.line, col });
        } else if c.line > 0 {
            let above = Cursor { line: c.line - 1, col: 0 };
            let (a, z) = self.break_above();
            self.set_cursor(above);
            let len: usize = self.line_len();
            self.set_cursor(c);
            assert(self@ == old(self)@);
            self.remove_and_settle(a, z);
            self.set_cursor(Cursor { line: c.line - 1, col: len });
        }
    }

    /// A key while text is typed.
    pub fn handle_insert(&mut self, key: Key)
        requires
            old(self).wf(),
        ensures
            final(self).wf(),
            final(self)@ == typed_key(old(self)@, key),
    {
        let mut live = self.live();
        let soft = live.soft_tab;
        live.soft_tab = None;
        self.set_live(live);
        let c = live.cursor;
        match key.code {
            KeyCode::Esc => self.end_typing(),
            KeyCode::Enter => self.break_line(),
            KeyCode::Backspace => self.insert_backspace(soft),
            KeyCode::Tab => self.insert_tab(soft),
            KeyCode::Left => {
                let s = self.line();
                let col: usize = prev_grapheme(s.as_str(), c.col);
                self.set_cursor(Cursor { line: c.line, col });
            },
            KeyCode::Right => {
                let s = self.line();
                let col: usize = next_grapheme(s.as_str(), c.col);
                self.set_cursor(Cursor { line: c.line, col });
            },
            KeyCode::Up => self.move_vertical(-1, true),
            KeyCode::Down => self.move_vertical(1, true),
            KeyCode::Delete => self.type_delete(),
            KeyCode::Char(ch) => self.type_char(ch),
            _ => {},
        }
    }
}

fn count_chars(s: &str) -> (n: usize)
    ensures
        n == s@.len(),
{
    crate::strings::chars_of(s).len()
}

fn only_blanks(s: &str) -> (r: bool)
    ensures
        r == forall|i: int| 0 <= i < s@.len() ==> s@[i] == ' ',
{
    let v = crate::strings::chars_of(s);
    let mut i: usize = 0;
    while i < v.len()
        invariant
            i <= v@.len(),
            v@ == s@,
            forall|k: int| 0 <= k < i ==> s@[k] == ' ',
        decreases v@.len() - i,
    {
        if v[i] != ' ' {
            assert(s@[i as int] != ' ');
            return false;
        }
        i += 1;
    }
    true
}

/// Between blanks, every column lies between characters.
proof fn lemma_blank_columns(l: Seq<u8>, a: int, z: int, col: int)
    requires
        valid_utf8(l),
        all_blank(l, a, z),
        a < z,
        a <= col <= z,
    ensures
        on_char(l, col),
        on_char(l, z),
{
    assert(l[z - 1] == 32);
    crate::text::lemma_after_ascii_on_char(l, z - 1);
    if col < z {
        assert(l[col] == 32);
        crate::text::lemma_after_ascii_on_char(l, col);
    }
}

/// The blanks of a line from `a` to `z` are graphemes of their own, of one cell each.
pub open spec fn stand_alone(l: Seq<u8>, a: int, z: int, ts: int) -> bool {
    forall|i: int|
        a <= i <= z ==> #[trigger] bound(l, i) && virtcol_of(l, i, ts) == virtcol_of(l, a, ts) + (i
            - a)
}

/// Where the run of blanks begins that the tab key remembers.
pub open spec fn tab_anchor(p: Pane) -> int {
    match typed_key(p, plain_key(KeyCode::Tab)).live.soft_tab {
        Some((_, a)) => a as int,
        None => p.live.cursor.col as int,
    }
}

/// The cursor rests between the characters of its line, and not behind a carriage return that
/// ends it.
pub open spec fn rests_on_line(p: Pane) -> bool {
    let c = p.live.cursor;
    &&& buffer_text(p.text())
    &&& c.line < edit_lines(p.text())
    &&& on_char(line_text(p.text(), c.line as int), c.col as int)
    &&& c.col > 0 ==> line_text(p.text(), c.line as int)[c.col - 1] != CR
}

proof fn lemma_tab_text(p: Pane, k: nat)
    requires
        rests_on_line(p),
        k > 0,
    ensures
        ({
            let c = p.live.cursor;
            let b = dirty(inserted(p.open.buffer, p.spot(), blanks(k)));
            let q = p.with_buffer(b).with_cursor(Cursor { col: (c.col + k) as usize, ..c });
            let s = encode_utf8(blanks(k));
            let l = line_text(p.text(), c.line as int);
            &&& s.len() == k
            &&& forall|i: int| 0 <= i < k ==> s[i] == 32
            &&& p.spot() == line_start(p.text(), c.line as int) + c.col
            &&& q.text() == spliced_in(p.text(), p.spot(), s)
            &&& p.line() == l
            &&& p.line_no() == c.line
            &&& q.line_no() == c.line
            &&& q.line() == spliced_in(l, c.col as int, s)
            &&& q.start_of(c.line as int) == line_start(p.text(), c.line as int)
        }),
{
    reveal(Pane::spot);
    reveal(Pane::line);
    reveal(Pane::line_no);
    reveal(Pane::start_of);
    let t = p.text();
    let c = p.live.cursor;
    let n = c.line as int;
    let s = encode_utf8(blanks(k));
    lemma_buffer_lines(t);
    is_ascii_chars_encode_utf8(blanks(k));
    assert(s.len() == k);
    assert forall|i: int| 0 <= i < k implies s[i] == 32 by {
        assert(blanks(k)[i] == ' ');
    }
    lemma_inserted(p.open.buffer, p.spot(), blanks(k));
    lemma_line_spliced(t, n, c.col as int, s);
}

proof fn lemma_stop(start: int, unit: int)
    requires
        start >= 0,
        unit >= 1,
    ensures
        0 <= start % unit < unit,
        start - start % unit >= 0,
        (start - start % unit + unit - 1) / unit * unit == start - start % unit,
{
    let q = start / unit;
    let r = start % unit;
    assert(start == q * unit + r && 0 <= r < unit && q >= 0) by (nonlinear_arith)
        requires
            q == start / unit,
            r == start % unit,
            start >= 0,
            unit >= 1,
    ;
    let m = q * unit + unit - 1;
    assert(m / unit == q) by (nonlinear_arith)
        requires
            m == q * unit + unit - 1,
            unit >= 1,
            q >= 0,
    ;
    assert(q * unit >= 0) by (nonlinear_arith)
        requires
            q >= 0,
            unit >= 1,
    ;
}

/// The screen columns of blanks that stand alone.
proof fn lemma_columns(q: Pane, a: int, col: int, k: int)
    requires
        a <= col,
        k >= 0,
        stand_alone(q.line(), a, col + k, tab_width(q.open.buffer.options) as int),
    ensures
        q.column(col + k) == q.column(col) + k,
        q.column(a) == q.column(col) - (col - a),
        bound(q.line(), col),
{
    reveal(Pane::column);
    assert(bound(q.line(), col));
    assert(bound(q.line(), col + k));
    assert(bound(q.line(), a));
}

/// A backspace takes the blanks back to the tab stop before, where the run does not begin
/// after it.
proof fn lemma_soft_width(q: Pane, a: usize, k: int, start: int)
    requires
        start >= 0,
        tab_unit(q.open.buffer.options) >= 1,
        k == tab_unit(q.open.buffer.options) - start % (tab_unit(q.open.buffer.options) as int),
        a + k <= q.live.cursor.col,
        q.column(q.live.cursor.col as int) == start + k,
        q.column(a as int) == start - (q.live.cursor.col - k - a),
        a + k < q.live.cursor.col ==> start % (tab_unit(q.open.buffer.options) as int) == 0,
    ensures
        soft_width(q, a) == k,
{
    reveal(soft_width);
    lemma_stop(start, tab_unit(q.open.buffer.options) as int);
}

/// A backspace right after a tab that puts in blanks takes exactly these away: text and
/// cursor are as they were before. This is so where the blanks stand alone on the screen, and
/// where a run of blanks that the tab adds to ends at a tab stop.
#[verifier::rlimit(60)]
pub proof fn backspace_undoes_soft_tab(p: Pane)
    requires
        rests_on_line(p),
        p.open.buffer.options.expandtab,
        p.column(p.live.cursor.col as int) + tab_unit(p.open.buffer.options) <= usize::MAX,
        p.live.cursor.col + tab_unit(p.open.buffer.options) <= usize::MAX,
        tab_anchor(p) < p.live.cursor.col ==> p.column(p.live.cursor.col as int) % (tab_unit(
            p.open.buffer.options,
        ) as int) == 0,
        ({
            let c = p.live.cursor.col as int;
            let q = typed_key(p, plain_key(KeyCode::Tab));
            &&& q.column(c) == p.column(c)
            &&& stand_alone(
                q.line(),
                tab_anchor(p),
                q.live.cursor.col as int,
                tab_width(p.open.buffer.options) as int,
            )
        }),
    ensures
        ({
            let r = typed_key(
                typed_key(p, plain_key(KeyCode::Tab)),
                plain_key(KeyCode::Backspace),
            );
            r.text() == p.text() && r.live.cursor == p.live.cursor
        }),
{
    let o = p.open.buffer.options;
    let c = p.live.cursor;
    let col = c.col as int;
    let unit = tab_unit(o) as int;
    let start = p.column(col);
    reveal(Pane::column);
    lemma_virtcol_from(p.line(), 0, 0, col, tab_width(o) as int);
    lemma_stop(start, unit);
    let k = (unit - start % unit) as nat;
    let p1 = Pane { live: Live { soft_tab: None, ..p.live }, ..p };
    reveal(Pane::line);
    reveal(Pane::line_no);
    assert(p1.column(col) == start);
    assert(tab_fill(p1) == blanks(k));
    lemma_tab_text(p1, k);
    let q = typed_key(p, plain_key(KeyCode::Tab));
    let s = encode_utf8(blanks(k));
    assert(blanks(k).len() == k);
    lemma_inserted(p.open.buffer, p1.spot(), blanks(k));
    let a = tab_anchor(p);
    assert(q.live.soft_tab == Some((c.line, a as usize)));
    assert(a <= col);
    let q1 = Pane { live: Live { soft_tab: None, ..q.live }, ..q };
    let l = q1.line();
    assert(q1.line() == q.line());
    assert(all_blank(l, a, col + k)) by {
        assert forall|i: int| a <= i < col + k implies #[trigger] l[i] == 32 by {
            if i >= col {
                assert(l[i] == s[i - col]);
            }
        }
    }
    lemma_columns(q, a, col, k as int);
    lemma_soft_width(q1, a as usize, k as int, start);
    reveal(Pane::start_of);
    let at = line_start(p.text(), c.line as int) + col;
    lemma_line_start(p.text(), c.line as int);
    lemma_line_start(p.text(), c.line + 1);
    assert(0 <= at <= p.text().len());
    lemma_removed(q1.open.buffer, at, at + k);
    assert(cut_out(q1.text(), at, at + k) =~= p.text());
    if unit <= 1 {
        assert(k == 1);
        assert(prev_bound(l, col + 1) == col);
        reveal(Pane::spot);
        assert(bound(l, col + 1));
        assert(floor_char(l, col + 1) == col + 1);
    }
}

} // verus!
