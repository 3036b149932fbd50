//! Changes to the current buffer: deleting, replacing, joining, opening and pasting.
//!
//! What each function does is a function from a [`Pane`] to a [`Pane`].

use vstd::prelude::*;
use vstd::utf8::*;

use crate::buffer::{inserted, lemma_line_feed, normalized, removed, BufferModel};
use crate::desk::{
    advanced, blanks_end, byte_len, deleted, dirty, held_line, other_case, yanked, Desk, Pane,
};
use crate::layout::clip;
use crate::nav::{char_or_blank, indent_len, last_idx};
use crate::open::spot;
use crate::registers::{Reg, Register};
use crate::text::{edit_lines, line_start, line_text};
use crate::unicode::{next_bound, prev_bound, prev_grapheme};
use crate::window::Cursor;

verus! {

/// `x`: the graphemes under and after the cursor, on its line.
pub open spec fn deleted_under(p: Pane, count: nat) -> Pane {
    if p.line().len() == 0 {
        p
    } else {
        let lo = p.spot();
        let hi = advanced(p.text(), lo, count, p.line_end()).0;
        deleted(yanked(p, lo, hi, false), lo, hi).held()
    }
}

/// `X`: so many bytes before the cursor, on its line.
pub open spec fn deleted_before(p: Pane, count: nat) -> Pane {
    let c = p.live.cursor;
    if c.col == 0 {
        p
    } else {
        let to = Cursor {
            col: if count <= c.col {
                (c.col - count) as usize
            } else {
                0
            },
            ..c
        };
        let lo = p.with_cursor(to).spot();
        let hi = p.spot();
        deleted(yanked(p, lo, hi, false), lo, hi).with_cursor(to).held()
    }
}

/// `D`: the rest of the cursor's line.
pub open spec fn deleted_to_eol(p: Pane) -> Pane {
    let lo = p.spot();
    let hi = p.line_end();
    if lo < hi {
        deleted(yanked(p, lo, hi, false), lo, hi).held()
    } else {
        p.held()
    }
}

/// `c`, `n` times.
pub open spec fn repeated(c: char, n: nat) -> Seq<char> {
    Seq::new(n, |i: int| c)
}

/// `r`: `count` graphemes of the line give way to as many of `c`, and the cursor
/// goes to the last of them. Nothing happens where the line has fewer left.
pub open spec fn replaced(p: Pane, c: char, count: nat) -> Pane {
    let lo = p.spot();
    let (hi, crossed) = advanced(p.text(), lo, count, p.line_end());
    if count == 0 || crossed < count {
        p
    } else {
        let q = p.pushed();
        let s = repeated(c, count);
        let b = dirty(inserted(removed(q.open.buffer, lo, hi), lo, s));
        let q2 = q.with_buffer(b);
        let start = q2.start_of(p.line_no());
        let before = if lo >= start {
            lo - start
        } else {
            0
        };
        let col = before + encode_utf8(s).len() - encode_utf8(seq![c]).len();
        q2.with_cursor(Cursor { col: clip(col), ..p.live.cursor }).held()
    }
}

/// The case of so many characters on the cursor's line toggled, with the cursor
/// moving along.
pub open spec fn toggled(b: BufferModel, c: Cursor, count: nat) -> (BufferModel, Cursor)
    decreases count,
{
    if count == 0 || c.col >= line_text(b.text, held_line(b.text, c.line)).len() {
        (b, c)
    } else {
        let i = spot(b.text, c);
        let ch = char_or_blank(b.text, i);
        let b2 = inserted(removed(b, i, i + encode_utf8(seq![ch]).len()), i, other_case(ch));
        let col = next_bound(line_text(b2.text, held_line(b2.text, c.line)), c.col as int);
        toggled(b2, Cursor { col: col as usize, ..c }, (count - 1) as nat)
    }
}

/// `~`.
pub open spec fn case_toggled(p: Pane, count: nat) -> Pane {
    if p.live.cursor.col >= p.line().len() {
        p
    } else {
        let q = p.pushed();
        let (b, c) = toggled(q.open.buffer, q.live.cursor, count);
        q.with_buffer(dirty(b)).with_cursor(c).held()
    }
}

/// Line `line` with so many of the next joined to it: each without its indent, and
/// after a blank unless there was nothing before it. Also the column of the last
/// join, or `col` where there was none.
pub open spec fn joined(b: BufferModel, line: int, col: int, n: nat) -> (BufferModel, int)
    decreases n,
{
    let t = b.text;
    if n == 0 || line + 1 >= edit_lines(t) {
        (b, col)
    } else {
        let len = line_text(t, line).len() as int;
        let eol = line_start(t, line) + len;
        let to = blanks_end(t, line_start(t, line + 1), last_idx(t));
        let b1 = removed(b, eol, to);
        let b2 = if len > 0 {
            inserted(b1, eol, seq![' '])
        } else {
            b1
        };
        joined(b2, line, len, (n - 1) as nat)
    }
}

/// `J`: `count` lines become one.
pub open spec fn lines_joined(p: Pane, count: nat) -> Pane {
    let n = if count <= 2 {
        1nat
    } else {
        (count - 1) as nat
    };
    let q = p.pushed();
    let c = p.live.cursor;
    let (b, col) = joined(q.open.buffer, c.line as int, c.col as int, n);
    q.with_buffer(dirty(normalized(b))).with_cursor(Cursor { col: col as usize, ..c }).held()
}

/// `o` and `O`: an empty line below or above the cursor's, to type in.
pub open spec fn line_opened(p: Pane, below: bool) -> Pane {
    let q = p.pushed();
    let line = p.live.cursor.line;
    let at = if below {
        p.line_end()
    } else {
        p.start_of(p.line_no())
    };
    let b = dirty(normalized(inserted(q.open.buffer, at, seq!['\n'])));
    q.with_buffer(b).with_cursor(
        Cursor {
            line: if below {
                clip(line + 1)
            } else {
                line
            },
            col: 0,
        },
    ).typing()
}

/// `s`, `n` times.
pub open spec fn copies(s: Seq<char>, n: nat) -> Seq<char>
    decreases n,
{
    if n == 0 {
        Seq::empty()
    } else {
        copies(s, (n - 1) as nat) + s
    }
}

/// Whole lines below the cursor's line or above it, with the cursor on the first of
/// them.
#[verifier::opaque]
pub open spec fn lines_pasted(q: Pane, chunk: Seq<char>, after: bool) -> Pane {
    let t = q.text();
    let line = q.live.cursor.line;
    let at = q.start_of(
        if !after {
            line as int
        } else if line + 1 < edit_lines(t) {
            line + 1
        } else {
            edit_lines(t) as int
        },
    );
    let b = dirty(normalized(inserted(q.open.buffer, at, chunk)));
    let to = if after {
        clip(line + 1)
    } else {
        line
    };
    q.with_buffer(b).with_cursor(
        Cursor { line: to, col: indent_len(line_text(b.text, to as int), 0) as usize },
    ).held()
}

/// Text in the cursor's line, after the grapheme under the cursor or before it, with
/// the cursor on the last grapheme of it.
#[verifier::opaque]
pub open spec fn inline_pasted(q: Pane, chunk: Seq<char>, after: bool) -> Pane {
    let n = q.next(q.spot());
    let at = if after && q.line().len() > 0 {
        if n < q.line_end() {
            n
        } else {
            q.line_end()
        }
    } else {
        q.spot()
    };
    let s = encode_utf8(chunk);
    let b = dirty(normalized(inserted(q.open.buffer, at, chunk)));
    q.with_buffer(b).at(at + prev_bound(s, s.len() as int)).held()
}

/// `p` and `P`: a register's text `count` times, after the cursor or before it.
/// Whole lines go below the cursor's line or above it, other text into the line.
pub open spec fn pasted(p: Pane, what: Reg, after: bool, count: nat) -> Pane {
    let chunk = copies(what.text, count);
    if what.text.len() == 0 {
        p
    } else if what.linewise {
        lines_pasted(p.pushed(), chunk, after)
    } else {
        inline_pasted(p.pushed(), chunk, after)
    }
}

/// Typing begins at a column of the cursor's line.
pub open spec fn insert_entered(p: Pane, col: int) -> Pane {
    let q = p.pushed();
    let len = p.line().len() as int;
    q.with_cursor(
        Cursor {
            col: (if col < len {
                col
            } else {
                len
            }) as usize,
            ..p.live.cursor
        },
    ).typing()
}

fn repeat_char(c: char, n: usize) -> (s: String)
    ensures
        s@ == repeated(c, n as nat),
{
    let mut s = String::new();
    let mut i: usize = 0;
    while i < n
        invariant
            i <= n,
            s@ =~= repeated(c, i as nat),
        decreases n - i,
    {
        s.push(c);
        i += 1;
    }
    s
}

/// A string so many times over.
pub fn repeat_str(t: &str, n: usize) -> (s: String)
    ensures
        s@ == copies(t@, n as nat),
{
    let mut s = String::new();
    let mut i: usize = 0;
    assert(s@ =~= copies(t@, 0));
    while i < n
        invariant
            i <= n,
            s@ == copies(t@, i as nat),
        decreases n - i,
    {
        s.append(t);
        i += 1;
    }
    s
}

impl Desk {
    /// `x`.
    pub fn delete_under_cursor(&mut self, count: usize)
        requires
            old(self).wf(),
        ensures
            final(self).wf(),
            final(self)@ == deleted_under(old(self)@, count as nat),
    {
        if self.line_len() == 0 {
            return;
        }
        let lo: usize = self.spot();
        let line_end: usize = self.line_end();
        let (hi, _) = self.advance(lo, count, line_end);
        self.yank_range(lo, hi, false);
        self.delete_range(lo, hi);
        self.clamp_cursor();
    }

    /// `X`.
    pub fn delete_before_cursor(&mut self, count: usize)
        requires
            old(self).wf(),
        ensures
            final(self).wf(),
            final(self)@ == deleted_before(old(self)@, count as nat),
    {
        let c = self.live().cursor;
        if c.col == 0 {
            return;
        }
        let to = Cursor { line: c.line, col: c.col.saturating_sub(count) };
        let lo: usize = self.spot_of(to);
        let hi: usize = self.spot();
        self.yank_range(lo, hi, false);
        self.delete_range(lo, hi);
        self.set_cursor(to);
        self.clamp_cursor();
    }

    /// `D`.
    pub fn delete_to_eol(&mut self)
        requires
            old(self).wf(),
        ensures
            final(self).wf(),
            final(self)@ == deleted_to_eol(old(self)@),
    {
        let lo: usize = self.spot();
        let hi: usize = self.line_end();
        if lo < hi {
            self.yank_range(lo, hi, false);
            self.delete_range(lo, hi);
        }
        self.clamp_cursor();
    }

    /// `r`.
    pub fn replace_char(&mut self, c: char, count: usize)
        requires
            old(self).wf(),
        ensures
            final(self).wf(),
            final(self)@ == replaced(old(self)@, c, count as nat),
    {
        let lo: usize = self.spot();
        let line_end: usize = self.line_end();
        let (hi, crossed) = self.advance(lo, count, line_end);
        if count == 0 || crossed < count {
            return;
        }
        let line: usize = self.line_no();
        let cursor = self.live().cursor;
        let repl = repeat_char(c, count);
        let total: usize = repl.as_str().as_bytes().len();
        proof {
            assert(repl@[0] == c);
            lemma_encode_part(repl@);
        }
        self.push_undo();
        proof {
            crate::desk::lemma_between_same(old(self)@, self@);
        }
        self.swap_in(lo, hi, repl.as_str());
        self.set_modified();
        let start: usize = self.start_of(line);
        let before: usize = lo.saturating_sub(start);
        self.set_cursor(
            Cursor { line: cursor.line, col: before.saturating_add(total - byte_len(c)) },
        );
        self.clamp_cursor();
    }

    /// `~`.
    pub fn toggle_case(&mut self, count: usize)
        requires
            old(self).wf(),
        ensures
            final(self).wf(),
            final(self)@ == case_toggled(old(self)@, count as nat),
    {
        if self.live().cursor.col >= self.line_len() {
            return;
        }
        self.push_undo();
        let ghost q = self@;
        let mut left: usize = count;
        while left > 0 && self.live().cursor.col < self.line_len()
            invariant
                self.wf(),
                self@ == q.with_buffer(self@.open.buffer).with_cursor(self@.live.cursor),
                toggled(q.open.buffer, q.live.cursor, count as nat) == toggled(
                    self@.open.buffer,
                    self@.live.cursor,
                    left as nat,
                ),
            decreases left,
        {
            proof {
                reveal(Pane::line);
                reveal(Pane::line_no);
                reveal(Pane::spot);
            }
            self.toggle_one();
            left -= 1;
        }
        proof {
            reveal(Pane::line);
            reveal(Pane::line_no);
        }
        self.set_modified();
        self.clamp_cursor();
    }

    /// `J`.
    pub fn join_lines(&mut self, count: usize)
        requires
            old(self).wf(),
        ensures
            final(self).wf(),
            final(self)@ == lines_joined(old(self)@, count as nat),
    {
        let joins: usize = if count <= 2 {
            1
        } else {
            count - 1
        };
        self.push_undo();
        let ghost q = self@;
        let line: usize = self.live().cursor.line;
        let mut left: usize = joins;
        while left > 0 && line < self.buffer().last_line()
            invariant
                self.wf(),
                line == q.live.cursor.line,
                self@ == q.with_buffer(self@.open.buffer).with_cursor(
                    Cursor { col: self@.live.cursor.col, ..q.live.cursor },
                ),
                joined(
                    q.open.buffer,
                    line as int,
                    q.live.cursor.col as int,
                    joins as nat,
                ) == joined(
                    self@.open.buffer,
                    line as int,
                    self@.live.cursor.col as int,
                    left as nat,
                ),
            decreases left,
        {
            self.join_one();
            left -= 1;
        }
        self.settle();
        self.clamp_cursor();
    }

    /// `o` and `O`.
    pub fn open_line(&mut self, below: bool)
        requires
            old(self).wf(),
        ensures
            final(self).wf(),
            final(self)@ == line_opened(old(self)@, below),
    {
        let line: usize = self.live().cursor.line;
        let at: usize = if below {
            self.line_end()
        } else {
            self.start_of(self.line_no())
        };
        proof {
            lemma_line_feed();
        }
        self.push_undo();
        proof {
            crate::desk::lemma_between_same(old(self)@, self@);
        }
        self.insert_and_settle(at, "\n");
        let to: usize = if below {
            line.saturating_add(1)
        } else {
            line
        };
        self.set_cursor(Cursor { line: to, col: 0 });
        self.begin_typing();
    }

    fn paste_lines(&mut self, chunk: &str, after: bool)
        requires
            old(self).wf(),
        ensures
            final(self).wf(),
            final(self)@ == lines_pasted(old(self)@, chunk@, after),
    {
        proof {
            reveal(lines_pasted);
        }
        let line: usize = self.live().cursor.line;
        let total: usize = self.buffer().line_count();
        let to: usize = if !after {
            line
        } else if line < total && line + 1 < total {
            line + 1
        } else {
            total
        };
        let at: usize = self.start_of(to);
        self.insert_and_settle(at, chunk);
        let l: usize = if after {
            line.saturating_add(1)
        } else {
            line
        };
        let col: usize = self.buffer().first_non_blank(l);
        self.set_cursor(Cursor { line: l, col });
        self.clamp_cursor();
    }

    fn paste_inline(&mut self, chunk: &str, after: bool)
        requires
            old(self).wf(),
        ensures
            final(self).wf(),
            final(self)@ == inline_pasted(old(self)@, chunk@, after),
    {
        proof {
            reveal(inline_pasted);
        }
        let len: usize = self.line_len();
        let cur: usize = self.spot();
        let at: usize = if after && len > 0 {
            let n: usize = self.next(cur);
            let line_end: usize = self.line_end();
            if n < line_end {
                n
            } else {
                line_end
            }
        } else {
            cur
        };
        let n: usize = chunk.as_bytes().len();
        let to_last: usize = prev_grapheme(chunk, n);
        self.insert_and_settle(at, chunk);
        self.set_cursor_char(at + to_last);
        self.clamp_cursor();
    }

    /// `p` and `P`.
    pub fn paste(&mut self, what: &Register, after: bool, count: usize)
        requires
            old(self).wf(),
        ensures
            final(self).wf(),
            final(self)@ == pasted(old(self)@, what@, after, count as nat),
    {
        if what.text.as_str().is_empty() {
            return;
        }
        let chunk = repeat_str(what.text.as_str(), count);
        self.push_undo();
        if what.linewise {
            self.paste_lines(chunk.as_str(), after);
        } else {
            self.paste_inline(chunk.as_str(), after);
        }
    }

    /// Typing begins at a column of the cursor's line.
    pub fn enter_insert_at(&mut self, col: usize)
        requires
            old(self).wf(),
        ensures
            final(self).wf(),
            final(self)@ == insert_entered(old(self)@, col as int),
    {
        let len: usize = self.line_len();
        self.push_undo();
        let c = self.live().cursor;
        self.set_cursor(
            Cursor {
                line: c.line,
                col: if col < len {
                    col
                } else {
                    len
                },
            },
        );
        self.begin_typing();
    }
}

/// A string's bytes are no fewer than those of its first character.
proof fn lemma_encode_part(s: Seq<char>)
    requires
        s.len() > 0,
    ensures
        encode_utf8(seq![s[0]]).len() <= encode_utf8(s).len(),
{
    let one = seq![s[0]];
    assert(one.drop_first() =~= Seq::<char>::empty());
    assert(encode_utf8(one.drop_first()) =~= Seq::<u8>::empty());
    assert(encode_utf8(one) =~= encode_scalar(s[0] as u32));
}

} // verus!
