//! Text broken into rows of a width.

use vstd::prelude::*;
use vstd::utf8::*;

use crate::strings::{chars_of, is_whitespace, string_of, texts, trim_end};
use crate::text::{lemma_after_ascii_on_char, on_char};
use crate::unicode::{
    byte_at_column, byte_at_virtcol, lemma_bound_ends, next_bound, next_grapheme, TABSTOP,
};

verus! {

/// The offset of the last blank before `n`, or -1.
pub open spec fn last_blank(t: Seq<u8>, n: int) -> int
    decreases n,
{
    if n <= 0 {
        -1
    } else if t[n - 1] == 32 {
        n - 1
    } else {
        last_blank(t, n - 1)
    }
}

/// How many bytes of `t` fit in a row: one grapheme at least.
pub open spec fn row_len(t: Seq<u8>, width: int) -> int {
    let n = byte_at_column(t, width, TABSTOP as int);
    if n == 0 {
        next_bound(t, 0)
    } else {
        n
    }
}

/// The first blank at or after `i`, or the end.
pub open spec fn word_end(t: Seq<u8>, i: int) -> int
    decreases t.len() - i,
{
    if i < 0 || i >= t.len() || t[i] == 32 {
        i
    } else {
        word_end(t, i + 1)
    }
}

/// Whether the word at the start of `t` fits in a row.
pub open spec fn word_fits(t: Seq<u8>, width: int) -> bool {
    word_end(t, 0) <= row_len(t, width)
}

/// The blank at which a row of a text ends that has no room for all of it: the last one that
/// fits, else the one right after what fits. A blank at the very start counts last, and only
/// where the word after it fits in a row of its own.
pub open spec fn row_blank(t: Seq<u8>, width: int) -> Option<int> {
    let n = row_len(t, width);
    let sp = last_blank(t, n);
    if sp > 0 {
        Some(sp)
    } else if t[n] == 32 {
        Some(n)
    } else if sp == 0 && word_fits(t.skip(1), width) {
        Some(sp)
    } else {
        None
    }
}

/// The rows of a text that is not empty. A row ends at a blank, which is dropped, or where
/// the width ends in a word that is too long for a row.
pub open spec fn wrapped(t: Seq<u8>, width: int) -> Seq<Seq<char>>
    decreases t.len(),
{
    let n = row_len(t, width);
    if t.len() == 0 {
        Seq::empty()
    } else if n <= 0 || n >= t.len() {
        seq![decode_utf8(t)]
    } else {
        match row_blank(t, width) {
            Some(sp) => if 0 <= sp < t.len() {
                seq![trim_end(decode_utf8(t.take(sp)))] + wrapped(t.skip(sp + 1), width)
            } else {
                seq![decode_utf8(t)]
            },
            None => seq![decode_utf8(t.take(n))] + wrapped(t.skip(n), width),
        }
    }
}

/// The rows of a line; an empty line takes one row.
pub open spec fn rows_of(s: Seq<char>, width: int) -> Seq<Seq<char>> {
    if s.len() == 0 {
        seq![Seq::empty()]
    } else {
        wrapped(
            encode_utf8(s),
            if width < 1 {
                1
            } else {
                width
            },
        )
    }
}

pub proof fn lemma_last_blank(t: Seq<u8>, n: int)
    requires
        0 <= n <= t.len(),
    ensures
        -1 <= last_blank(t, n) < n || (n == 0 && last_blank(t, n) == -1),
        last_blank(t, n) >= 0 ==> t[last_blank(t, n)] == 32,
    decreases n,
{
    if n > 0 && t[n - 1] != 32 {
        lemma_last_blank(t, n - 1);
    }
}

/// No line takes no row.
pub proof fn every_line_takes_a_row(s: Seq<char>, width: int)
    ensures
        rows_of(s, width).len() >= 1,
{
    if s.len() > 0 {
        assert(encode_utf8(s).len() > 0) by {
            encode_utf8_first_scalar(s);
            encode_utf8_valid_utf8(s);
        }
    }
}

proof fn lemma_word_end(t: Seq<u8>, i: int)
    requires
        0 <= i <= t.len(),
    ensures
        i <= word_end(t, i) <= t.len(),
        forall|k: int| i <= k < word_end(t, i) ==> t[k] != 32,
        word_end(t, i) < t.len() ==> t[word_end(t, i)] == 32,
    decreases t.len() - i,
{
    if i < t.len() && t[i] != 32 {
        lemma_word_end(t, i + 1);
    }
}

/// A run of bytes that is not empty, holds no blank and has blanks or the ends around it.
pub open spec fn is_word(t: Seq<u8>, a: int, b: int) -> bool {
    &&& 0 <= a < b <= t.len()
    &&& a == 0 || t[a - 1] == 32
    &&& b == word_end(t, a)
}

/// Whether a part of a text comes whole into one of its rows.
pub open spec fn in_one_row(t: Seq<u8>, width: int, a: int, b: int) -> bool
    decreases t.len(),
{
    let n = row_len(t, width);
    if n <= 0 || n >= t.len() {
        true
    } else {
        let (end, next) = match row_blank(t, width) {
            Some(sp) => (sp, sp + 1),
            None => (n, n),
        };
        b <= end || (0 < next <= a && next <= t.len() && in_one_row(
            t.skip(next),
            width,
            a - next,
            b - next,
        ))
    }
}

proof fn lemma_word_skipped(t: Seq<u8>, k: int, i: int)
    requires
        0 <= k <= i <= t.len(),
    ensures
        word_end(t.skip(k), i - k) == word_end(t, i) - k,
    decreases t.len() - i,
{
    if i < t.len() && t[i] != 32 {
        assert(t.skip(k)[i - k] == t[i]);
        lemma_word_skipped(t, k, i + 1);
    } else if i < t.len() {
        assert(t.skip(k)[i - k] == t[i]);
    }
}

/// A word that is no wider than a row stays whole: it comes into one row. The width is that
/// of the word at the start of a row.
pub proof fn short_words_stay_whole(t: Seq<u8>, width: int, a: int, b: int)
    requires
        is_word(t, a, b),
        word_fits(t.skip(a), width),
    ensures
        in_one_row(t, width, a, b),
    decreases t.len(),
{
    let n = row_len(t, width);
    if 0 < n < t.len() {
        lemma_word_end(t, a);
        lemma_last_blank(t, n);
        lemma_word_skipped(t, a, a);
        let (end, next) = match row_blank(t, width) {
            Some(sp) => (sp, sp + 1),
            None => (n, n),
        };
        if b > end {
            if a < next {
                // The row would end inside the word.
                if a == 0 {
                    assert(t.skip(0) =~= t);
                } else {
                    lemma_last_before(t, n, a);
                }
                assert(false);
            }
            assert(t.skip(next).skip(a - next) =~= t.skip(a));
            lemma_word_skipped(t, next, a);
            assert(a == next || t.skip(next)[a - next - 1] == t[a - 1]);
            short_words_stay_whole(t.skip(next), width, a - next, b - next);
        }
    }
}

/// Where no blank stands from `a` on, the last one before `n` is the one before `a`.
proof fn lemma_last_before(t: Seq<u8>, n: int, a: int)
    requires
        0 < a <= n <= t.len(),
        t[a - 1] == 32,
        forall|k: int| a <= k < n ==> t[k] != 32,
    ensures
        last_blank(t, n) == a - 1,
    decreases n,
{
    if n > a {
        lemma_last_before(t, n - 1, a);
    }
}

fn without_blanks(s: &str) -> (r: String)
    ensures
        r@ == trim_end(s@),
{
    let v = chars_of(s);
    let mut j: usize = v.len();
    assert(v@.take(j as int) =~= v@);
    while 0 < j && is_whitespace(v[j - 1])
        invariant
            j <= v@.len(),
            trim_end(v@.take(j as int)) == trim_end(v@),
        decreases j,
    {
        assert(v@.take(j as int).drop_last() =~= v@.take(j - 1));
        j -= 1;
    }
    assert(v@.subrange(0, j as int) =~= v@.take(j as int));
    string_of(&v, 0, j)
}

fn fitting(rest: &str, width: usize) -> (n: usize)
    requires
        encode_utf8(rest@).len() > 0,
    ensures
        n == row_len(encode_utf8(rest@), width as int),
        0 < n <= encode_utf8(rest@).len(),
        on_char(encode_utf8(rest@), n as int),
{
    let n: usize = byte_at_virtcol(rest, width, TABSTOP);
    if n == 0 {
        proof {
            encode_utf8_valid_utf8(rest@);
            lemma_bound_ends(encode_utf8(rest@));
        }
        next_grapheme(rest, 0)
    } else {
        n
    }
}

fn blank_before(s: &str, n: usize) -> (r: Option<usize>)
    requires
        n <= encode_utf8(s@).len(),
    ensures
        match r {
            Some(i) => i == last_blank(encode_utf8(s@), n as int) && i < n,
            None => last_blank(encode_utf8(s@), n as int) == -1,
        },
{
    let b = s.as_bytes();
    let mut i: usize = n;
    while i > 0
        invariant
            i <= n <= b@.len(),
            b@ == encode_utf8(s@),
            last_blank(b@, i as int) == last_blank(b@, n as int),
        decreases i,
    {
        if b[i - 1] == 32 {
            return Some(i - 1);
        }
        i -= 1;
    }
    None
}

/// A piece of a string.
fn head(s: &str, n: usize) -> (r: &str)
    requires
        on_char(encode_utf8(s@), n as int),
    ensures
        r@ == decode_utf8(encode_utf8(s@).take(n as int)),
{
    proof {
        encode_utf8_valid_utf8(s@);
    }
    let (a, _) = s.split_at(n);
    proof {
        assert(encode_utf8(a@) =~= encode_utf8(s@).take(n as int));
        encode_utf8_decode_utf8(a@);
    }
    a
}

fn tail(s: &str, n: usize) -> (r: &str)
    requires
        on_char(encode_utf8(s@), n as int),
    ensures
        encode_utf8(r@) == encode_utf8(s@).skip(n as int),
{
    proof {
        encode_utf8_valid_utf8(s@);
    }
    let (_, b) = s.split_at(n);
    assert(encode_utf8(b@) =~= encode_utf8(s@).skip(n as int));
    b
}

/// Whether the word at the start of a string fits in a row.
fn starts_with_fitting(s: &str, width: usize) -> (r: bool)
    requires
        encode_utf8(s@).len() > 0,
    ensures
        r == word_fits(encode_utf8(s@), width as int),
{
    let n: usize = fitting(s, width);
    let b = s.as_bytes();
    let len: usize = b.len();
    let mut i: usize = 0;
    while i < len && b[i] != 32
        invariant
            len == b@.len(),
            b@ == encode_utf8(s@),
            i <= len,
            word_end(b@, 0) == word_end(b@, i as int),
        decreases len - i,
    {
        i += 1;
    }
    i <= n
}

/// The blank at which a row ends.
fn break_at(s: &str, n: usize, width: usize) -> (r: Option<usize>)
    requires
        n == row_len(encode_utf8(s@), width as int),
        0 < n < encode_utf8(s@).len(),
    ensures
        match row_blank(encode_utf8(s@), width as int) {
            Some(sp) => r is Some && r->0 == sp && 0 <= sp < encode_utf8(s@).len() && encode_utf8(
                s@,
            )[sp] == 32,
            None => r is None,
        },
{
    let ghost t = encode_utf8(s@);
    proof {
        lemma_last_blank(t, n as int);
        encode_utf8_valid_utf8(s@);
    }
    let after = s.as_bytes()[n] == 32;
    match blank_before(s, n) {
        Some(sp) => if sp > 0 {
            Some(sp)
        } else if after {
            Some(n)
        } else {
            proof {
                lemma_after_ascii_on_char(t, 0);
            }
            if starts_with_fitting(tail(s, 1), width) {
                Some(0)
            } else {
                None
            }
        },
        None => if after {
            Some(n)
        } else {
            None
        },
    }
}

/// Break a text into rows no wider than a number of cells: at the last blank that fits, or at
/// the one right after where none does, so that words stay whole, or in a word that is wider
/// than that.
pub fn wrap_to_width(text: &str, width: usize) -> (rows: Vec<String>)
    ensures
        texts(rows@) == rows_of(text@, width as int),
{
    let w: usize = if width < 1 {
        1
    } else {
        width
    };
    let mut rows: Vec<String> = Vec::new();
    if text.is_empty() {
        rows.push(String::new());
        assert(texts(rows@) =~= seq![Seq::<char>::empty()]);
        return rows;
    }
    let mut rest = text;
    let ghost all = wrapped(encode_utf8(text@), w as int);
    assert(texts(rows@) + all =~= all);
    while rest.as_bytes().len() > 0
        invariant
            w >= 1,
            all == rows_of(text@, width as int),
            texts(rows@) + wrapped(encode_utf8(rest@), w as int) == all,
        decreases encode_utf8(rest@).len(),
    {
        let ghost t = encode_utf8(rest@);
        let ghost before = texts(rows@);
        let n: usize = fitting(rest, w);
        if n >= rest.as_bytes().len() {
            rows.push(rest.to_owned());
            proof {
                encode_utf8_decode_utf8(rest@);
                assert(texts(rows@) =~= before.push(rest@));
                assert(before + seq![rest@] =~= before.push(rest@));
                assert(texts(rows@) == all);
            }
            return rows;
        }
        proof {
            encode_utf8_valid_utf8(rest@);
            lemma_last_blank(t, n as int);
        }
        let (cut, next) = match break_at(rest, n, w) {
            Some(sp) => {
                proof {
                    lemma_after_ascii_on_char(t, sp as int);
                }
                (without_blanks(head(rest, sp)), tail(rest, sp + 1))
            },
            None => (head(rest, n).to_owned(), tail(rest, n)),
        };
        let ghost row = cut@;
        rows.push(cut);
        proof {
            assert(texts(rows@) =~= before.push(row));
            assert(wrapped(t, w as int) == seq![row] + wrapped(
                encode_utf8(next@),
                w as int,
            ));
            assert(before.push(row) + wrapped(encode_utf8(next@), w as int) =~= before + (
            seq![row] + wrapped(encode_utf8(next@), w as int)));
        }
        rest = next;
    }
    assert(encode_utf8(rest@) =~= Seq::<u8>::empty());
    assert(texts(rows@) + wrapped(encode_utf8(rest@), w as int) =~= texts(rows@));
    rows
}

} // verus!
