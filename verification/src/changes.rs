//! The change list: going back and forth between the places of changes.

use vstd::prelude::*;
use vstd::utf8::*;

use crate::buffer::{Buffer, BufferModel};
use crate::desk::{Desk, Pane};
use crate::layout::clip;
use crate::nav::last_line_of;
use crate::num::{least, less};
use crate::open::Live;
use crate::scroll::distance;
use crate::strings::{
    chars_of, fmt_usize, is_whitespace, nat_text, string_of, texts, trim_end,
};
use crate::text::line_text;

verus! {

/// Why a step through the change list fails.
#[derive(Debug, Clone, Copy, PartialEq, Eq, Structural)]
pub enum ChangeMiss {
    Empty,
    AtStart,
    AtEnd,
}

/// The cursor at a line and a column as far as the text reaches, with the column
/// remembered.
pub open spec fn settled_at(p: Pane, line: int, col: int) -> Pane {
    let n = least(line, last_line_of(p.text()));
    let c = least(col, line_text(p.text(), n).len() as int);
    let q = p.at(p.start_of(n) + c);
    Pane {
        live: Live {
            desired_col: q.column(q.live.cursor.col as int) as usize,
            desired_eol: false,
            ..q.live
        },
        ..q
    }
}

/// The cursor at an entry of the change list.
pub open spec fn at_change(p: Pane, i: int) -> Pane {
    let (line, col) = p.open.buffer.changelist[i];
    settled_at(
        p.with_buffer(BufferModel { changelistidx: i as usize, ..p.open.buffer }),
        line as int,
        col as int,
    )
}

/// The entry that lies `count` changes back. The first step from the present passes
/// over the newest change where the cursor is on its line and there is an older one.
pub open spec fn older_change(p: Pane, count: int) -> Result<int, ChangeMiss> {
    let b = p.open.buffer;
    let n = b.changelist.len() as int;
    let idx = b.changelistidx as int;
    if n == 0 {
        Err(ChangeMiss::Empty)
    } else if idx == 0 && idx != n {
        Err(ChangeMiss::AtStart)
    } else {
        let first = if idx >= n {
            if b.changelist[n - 1].0 == p.live.cursor.line && n > 1 {
                n - 2
            } else {
                n - 1
            }
        } else {
            idx - 1
        };
        Ok(less(first, less(count, 1)))
    }
}

/// The entry that lies `count` changes on.
pub open spec fn newer_change(p: Pane, count: int) -> Result<int, ChangeMiss> {
    let b = p.open.buffer;
    let n = b.changelist.len() as int;
    let idx = b.changelistidx as int;
    if n == 0 {
        Err(ChangeMiss::Empty)
    } else if idx >= n - 1 {
        Err(ChangeMiss::AtEnd)
    } else {
        Ok(
            least(
                idx + if count < 1 {
                    1
                } else {
                    count
                },
                n - 1,
            ),
        )
    }
}

/// The state after a step, or as it was where there is no such entry.
pub open spec fn change_visited(p: Pane, to: Result<int, ChangeMiss>) -> Pane {
    match to {
        Ok(i) => at_change(p, i),
        Err(_) => p,
    }
}

/// A text with blanks before it, to a width.
pub open spec fn right_aligned(s: Seq<char>, width: nat) -> Seq<char>
    decreases width,
{
    if s.len() >= width {
        s
    } else {
        seq![' '] + right_aligned(s, (width - 1) as nat)
    }
}

/// The line of the list for entry `i`.
pub open spec fn change_row(b: BufferModel, i: int) -> Seq<char> {
    let (line, col) = b.changelist[i];
    let idx = b.changelistidx as int;
    (if i == idx {
        seq!['>']
    } else {
        seq![' ']
    }) + right_aligned(
        if i == idx {
            Seq::empty()
        } else {
            nat_text(distance(idx, i) as nat)
        },
        3,
    ) + seq![' '] + right_aligned(nat_text(clip(line + 1) as nat), 4) + seq![' '] + right_aligned(
        nat_text(col as nat),
        4,
    ) + seq![' '] + trim_end(
        decode_utf8(line_text(b.text, least(line as int, last_line_of(b.text)))),
    )
}

/// The list of the changes: a heading, the entries, and the mark of the present where
/// no entry has it.
pub open spec fn change_rows(b: BufferModel, n: int) -> Seq<Seq<char>>
    decreases n,
{
    if n <= 0 {
        seq![" change line  col text"@]
    } else {
        change_rows(b, n - 1).push(change_row(b, n - 1))
    }
}

/// The whole list.
pub open spec fn change_table(b: BufferModel) -> Seq<Seq<char>> {
    let n = b.changelist.len() as int;
    if b.changelistidx >= n {
        change_rows(b, n).push(seq!['>'])
    } else {
        change_rows(b, n)
    }
}

/// A text with blanks before it, to a width.
pub fn align_right(s: &str, width: usize) -> (r: String)
    ensures
        r@ == right_aligned(s@, width as nat),
{
    let n: usize = chars_of(s).len();
    let mut r = String::new();
    let mut w: usize = width;
    assert(r@ + right_aligned(s@, width as nat) =~= right_aligned(s@, width as nat));
    while n < w
        invariant
            n == s@.len(),
            r@ + right_aligned(s@, w as nat) == right_aligned(s@, width as nat),
        decreases w,
    {
        let ghost before = r@;
        r.push(' ');
        w -= 1;
        assert(r@ + right_aligned(s@, w as nat) =~= before + (seq![' '] + right_aligned(
            s@,
            w as nat,
        )));
    }
    r.append(s);
    r
}

fn without_end_blanks(s: &str) -> (r: String)
    ensures
        r@ == trim_end(s@),
{
    let v = chars_of(s);
    let mut j: usize = v.len();
    assert(v@.take(j as int) =~= v@);
    while 0 < j && is_whitespace(v[j - 1])
        invariant
            j <= v@.len(),
            trim_end(v@.take(j as int)) == trim_end(v@),
        decreases j,
    {
        assert(v@.take(j as int).drop_last() =~= v@.take(j - 1));
        j -= 1;
    }
    assert(v@.subrange(0, j as int) =~= v@.take(j as int));
    string_of(&v, 0, j)
}

impl Buffer {
    fn change_line(&self, i: usize) -> (s: String)
        requires
            self.settled(),
            i < self@.changelist.len(),
        ensures
            s@ == change_row(self@, i as int),
    {
        let idx: usize = self.changelistidx;
        let (line, col) = self.changelist[i];
        let mut s = String::new();
        let count = if i == idx {
            s.push('>');
            String::new()
        } else {
            s.push(' ');
            fmt_usize(
                if idx >= i {
                    idx - i
                } else {
                    i - idx
                },
            )
        };
        s.append(align_right(count.as_str(), 3).as_str());
        s.push(' ');
        s.append(align_right(fmt_usize(line.saturating_add(1)).as_str(), 4).as_str());
        s.push(' ');
        s.append(align_right(fmt_usize(col).as_str(), 4).as_str());
        s.push(' ');
        let last: usize = self.last_line();
        let text = self.line(
            if line <= last {
                line
            } else {
                last
            },
        );
        proof {
            encode_utf8_decode_utf8(text@);
        }
        s.append(without_end_blanks(text.as_str()).as_str());
        assert(s@ =~= change_row(self@, i as int));
        s
    }

    /// The list of the changes, oldest first, with the steps to each and a mark where
    /// the cursor was last taken.
    pub fn change_lines(&self) -> (v: Vec<String>)
        requires
            self.settled(),
        ensures
            texts(v@) == change_table(self@),
    {
        let mut v: Vec<String> = Vec::new();
        v.push(" change line  col text".to_owned());
        assert(texts(v@) =~= change_rows(self@, 0));
        let mut i: usize = 0;
        while i < self.changelist.len()
            invariant
                self.settled(),
                i <= self.changelist@.len(),
                self.changelist@ == self@.changelist,
                texts(v@) == change_rows(self@, i as int),
            decreases self.changelist@.len() - i,
        {
            let ghost before = texts(v@);
            v.push(self.change_line(i));
            assert(texts(v@) =~= before.push(change_row(self@, i as int)));
            i += 1;
        }
        if self.changelistidx >= self.changelist.len() {
            let ghost before = texts(v@);
            let mut s = String::new();
            s.push('>');
            assert(s@ =~= seq!['>']);
            v.push(s);
            assert(texts(v@) =~= before.push(seq!['>']));
        }
        v
    }
}

impl Desk {
    /// Put the cursor at a line and a column as far as the text reaches, and remember
    /// the column.
    pub fn settle_cursor_at(&mut self, line: usize, col: usize)
        requires
            old(self).wf(),
        ensures
            final(self).wf(),
            final(self)@ == settled_at(old(self)@, line as int, col as int),
    {
        let last: usize = self.buffer().last_line();
        let n: usize = if line <= last {
            line
        } else {
            last
        };
        let len: usize = self.buffer().line_len(n);
        let c: usize = if col <= len {
            col
        } else {
            len
        };
        proof {
            self.any_line_fits(n as int);
        }
        let at: usize = self.start_of(n) + c;
        self.set_cursor_char(at);
        let mut live = self.live();
        live.desired_col = self.column(live.cursor.col);
        live.desired_eol = false;
        self.set_live(live);
    }

    fn goto_change(&mut self, i: usize)
        requires
            old(self).wf(),
            i < old(self)@.open.buffer.changelist.len(),
        ensures
            final(self).wf(),
            final(self)@ == at_change(old(self)@, i as int),
    {
        let (line, col) = self.buffer().changelist[i];
        let o = self.open_mut();
        o.buffer.changelistidx = i;
        self.settle_cursor_at(line, col);
    }

    /// Go back through the change list.
    pub fn change_older(&mut self, count: usize) -> (r: Result<(), ChangeMiss>)
        requires
            old(self).wf(),
        ensures
            final(self).wf(),
            final(self)@ == change_visited(old(self)@, older_change(old(self)@, count as int)),
            match older_change(old(self)@, count as int) {
                Ok(_) => r is Ok,
                Err(e) => r is Err && r->Err_0 == e,
            },
    {
        let b = self.buffer();
        let n: usize = b.changelist.len();
        let idx: usize = b.changelistidx;
        if n == 0 {
            return Err(ChangeMiss::Empty);
        }
        if idx == 0 {
            return Err(ChangeMiss::AtStart);
        }
        let first: usize = if idx >= n {
            if b.changelist[n - 1].0 == self.live().cursor.line && n > 1 {
                n - 2
            } else {
                n - 1
            }
        } else {
            idx - 1
        };
        self.goto_change(first.saturating_sub(count.saturating_sub(1)));
        Ok(())
    }

    /// Go on through the change list.
    pub fn change_newer(&mut self, count: usize) -> (r: Result<(), ChangeMiss>)
        requires
            old(self).wf(),
        ensures
            final(self).wf(),
            final(self)@ == change_visited(old(self)@, newer_change(old(self)@, count as int)),
            match newer_change(old(self)@, count as int) {
                Ok(_) => r is Ok,
                Err(e) => r is Err && r->Err_0 == e,
            },
    {
        let b = self.buffer();
        let n: usize = b.changelist.len();
        let idx: usize = b.changelistidx;
        if n == 0 {
            return Err(ChangeMiss::Empty);
        }
        if idx >= n - 1 {
            return Err(ChangeMiss::AtEnd);
        }
        let step: usize = if count < 1 {
            1
        } else {
            count
        };
        let to: usize = if step <= n - 1 - idx {
            idx + step
        } else {
            n - 1
        };
        self.goto_change(to);
        Ok(())
    }
}

/// What a failed step says.
pub open spec fn miss_text(m: ChangeMiss) -> Seq<char> {
    match m {
        ChangeMiss::Empty => "E664: changelist is empty"@,
        ChangeMiss::AtStart => "E662: At start of changelist"@,
        ChangeMiss::AtEnd => "E663: At end of changelist"@,
    }
}

impl ChangeMiss {
    /// What a failed step says.
    pub fn text(self) -> (s: String)
        ensures
            s@ == miss_text(self),
    {
        match self {
            ChangeMiss::Empty => "E664: changelist is empty".to_owned(),
            ChangeMiss::AtStart => "E662: At start of changelist".to_owned(),
            ChangeMiss::AtEnd => "E663: At end of changelist".to_owned(),
        }
    }
}

/// One step back from an entry and one step on lead to that entry again.
pub proof fn newer_undoes_older(p: Pane)
    requires
        0 < p.open.buffer.changelistidx < p.open.buffer.changelist.len(),
    ensures
        older_change(p, 1) is Ok,
        newer_change(change_visited(p, older_change(p, 1)), 1) == Ok::<int, ChangeMiss>(
            p.open.buffer.changelistidx as int,
        ),
{
    reveal(Pane::at);
}

} // verus!
