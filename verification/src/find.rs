//! The find-char motions: `f`, `t`, `F` and `T` on the cursor's line.

use vstd::prelude::*;
use vstd::utf8::*;

use crate::buffer::Buffer;
use crate::command::{find_forward, find_till, FindKind};
use crate::nav::lemma_line_text;
use crate::rope::get_char;
use crate::text::{edit_lines, line_start, line_text};
use crate::unicode::{next_bound, next_grapheme, prev_bound, prev_grapheme};
use crate::window::Cursor;

verus! {

/// `c` stands at byte column `col` of a line.
pub open spec fn stands_at(l: Seq<u8>, col: int, c: char) -> bool {
    0 <= col < l.len() && get_char(l, col) == Some(c)
}

/// From `col` on, the column of the `count`th `c`, of which `found` are behind.
pub open spec fn found_on(l: Seq<u8>, col: int, c: char, found: nat, count: nat) -> Option<int>
    decreases l.len() - col,
{
    if col < 0 || col >= l.len() {
        None
    } else if stands_at(l, col, c) && found + 1 == count {
        Some(col)
    } else if col < next_bound(l, col) <= l.len() {
        found_on(
            l,
            next_bound(l, col),
            c,
            if stands_at(l, col, c) {
                found + 1
            } else {
                found
            },
            count,
        )
    } else {
        None
    }
}

/// From `col` back, the column of the `count`th `c`, of which `found` are behind.
pub open spec fn found_back(l: Seq<u8>, col: int, c: char, found: nat, count: nat) -> Option<int>
    decreases col,
{
    if stands_at(l, col, c) && found + 1 == count {
        Some(col)
    } else if col > 0 && 0 <= prev_bound(l, col) < col {
        found_back(
            l,
            prev_bound(l, col),
            c,
            if stands_at(l, col, c) {
                found + 1
            } else {
                found
            },
            count,
        )
    } else {
        None
    }
}

/// Where a find lands on a line, from column `cur`: on the `count`th target, or
/// one short of it. A repeated find that stops short does not count a target right
/// next to it, which it would stick at.
pub open spec fn find_column(
    l: Seq<u8>,
    cur: int,
    kind: FindKind,
    target: char,
    count: nat,
    repeat: bool,
) -> Option<int> {
    if find_forward(kind) {
        let a = next_bound(l, cur);
        let from = if find_till(kind) && repeat && stands_at(l, a, target) {
            next_bound(l, a)
        } else {
            a
        };
        match found_on(l, from, target, 0, count) {
            Some(c) => Some(
                if find_till(kind) {
                    prev_bound(l, c)
                } else {
                    c
                },
            ),
            None => None,
        }
    } else if cur == 0 {
        None
    } else {
        let a = prev_bound(l, cur);
        let hops = find_till(kind) && repeat && stands_at(l, a, target);
        let from = if hops {
            prev_bound(l, a)
        } else {
            a
        };
        if hops && a == 0 {
            None
        } else {
            match found_back(l, from, target, 0, count) {
                Some(c) => Some(
                    if find_till(kind) {
                        next_bound(l, c)
                    } else {
                        c
                    },
                ),
                None => None,
            }
        }
    }
}

/// The character at a byte column of a string.
fn column_is(s: &str, col: usize, c: char) -> (r: bool)
    requires
        col < encode_utf8(s@).len() ==> is_char_boundary(encode_utf8(s@), col as int),
    ensures
        r == stands_at(encode_utf8(s@), col as int, c),
{
    let ghost l = encode_utf8(s@);
    if col >= s.as_bytes().len() {
        return false;
    }
    proof {
        encode_utf8_valid_utf8(s@);
    }
    let (_, rest) = s.split_at(col);
    proof {
        assert(encode_utf8(rest@) =~= l.subrange(col as int, l.len() as int));
        if rest@.len() == 0 {
            assert(encode_utf8(rest@).len() == 0);
            assert(false);
        }
        encode_utf8_first_scalar(rest@);
        char_u32_cast(rest@[0], decode_first_scalar(l.subrange(col as int, l.len() as int)));
    }
    rest.get_char(0) == c
}

impl Buffer {
    /// The offset that a find lands on, if there is such a target.
    pub fn find_char_target(
        &self,
        at: Cursor,
        kind: FindKind,
        target: char,
        count: usize,
        repeat: bool,
    ) -> (r: Option<usize>)
        requires
            self.settled(),
            at.line < edit_lines(self@.text),
            at.col <= line_text(self@.text, at.line as int).len(),
        ensures
            match find_column(
                line_text(self@.text, at.line as int),
                at.col as int,
                kind,
                target,
                count as nat,
                repeat,
            ) {
                Some(col) => {
                    &&& r is Some
                    &&& r->0 == line_start(self@.text, at.line as int) + col
                    &&& r->0 <= self@.text.len()
                },
                None => r is None,
            },
    {
        let ghost t = self@.text;
        proof {
            lemma_line_text(t, at.line as int);
        }
        let line = self.line(at.line);
        let s = line.as_str();
        let base: usize = self.line_start(at.line);
        let len: usize = s.as_bytes().len();
        let ghost l = encode_utf8(s@);
        let cur: usize = at.col;
        let till = kind.till();
        proof {
            encode_utf8_valid_utf8(s@);
        }
        if kind.forward() {
            let mut col: usize = next_grapheme(s, cur);
            if till && repeat && column_is(s, col, target) {
                col = next_grapheme(s, col);
            }
            let ghost from = col as int;
            let mut found: usize = 0;
            while col < len
                invariant
                    l == encode_utf8(s@),
                    valid_utf8(l),
                    len == l.len(),
                    base + len <= t.len() <= usize::MAX,
                    col <= len,
                    crate::unicode::bound(l, col as int),
                    found <= col,
                    found_on(l, from, target, 0, count as nat) == found_on(
                        l,
                        col as int,
                        target,
                        found as nat,
                        count as nat,
                    ),
                    find_forward(kind),
                    till == find_till(kind),
                    base == line_start(t, at.line as int),
                    l == line_text(t, at.line as int),
                    t == self@.text,
                    find_column(l, at.col as int, kind, target, count as nat, repeat)
                        == match found_on(l, from, target, 0, count as nat) {
                        Some(c) => Some(
                            if till {
                                prev_bound(l, c)
                            } else {
                                c
                            },
                        ),
                        None => None,
                    },
                decreases len - col,
            {
                let hit = column_is(s, col, target);
                if hit {
                    found += 1;
                    if found == count {
                        let landed: usize = if till {
                            prev_grapheme(s, col)
                        } else {
                            col
                        };
                        return Some(base + landed);
                    }
                }
                col = next_grapheme(s, col);
            }
            None
        } else {
            if cur == 0 {
                return None;
            }
            let mut col: usize = prev_grapheme(s, cur);
            if till && repeat && column_is(s, col, target) {
                if col == 0 {
                    return None;
                }
                col = prev_grapheme(s, col);
            }
            let ghost from = col as int;
            let mut found: usize = 0;
            loop
                invariant
                    l == encode_utf8(s@),
                    valid_utf8(l),
                    len == l.len(),
                    base + len <= t.len() <= usize::MAX,
                    col <= from < len,
                    crate::unicode::bound(l, col as int),
                    found <= from - col,
                    found_back(l, from, target, 0, count as nat) == found_back(
                        l,
                        col as int,
                        target,
                        found as nat,
                        count as nat,
                    ),
                    !find_forward(kind),
                    till == find_till(kind),
                    base == line_start(t, at.line as int),
                    l == line_text(t, at.line as int),
                    t == self@.text,
                    find_column(l, at.col as int, kind, target, count as nat, repeat)
                        == match found_back(l, from, target, 0, count as nat) {
                        Some(c) => Some(
                            if till {
                                next_bound(l, c)
                            } else {
                                c
                            },
                        ),
                        None => None,
                    },
                decreases col,
            {
                let hit = column_is(s, col, target);
                if hit {
                    if found + 1 == count {
                        let landed: usize = if till {
                            next_grapheme(s, col)
                        } else {
                            col
                        };
                        return Some(base + landed);
                    }
                }
                if col == 0 {
                    return None;
                }
                if hit {
                    found += 1;
                }
                col = prev_grapheme(s, col);
            }
        }
    }
}

} // verus!
