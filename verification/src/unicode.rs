//! Graphemes of a line: where they begin, and how many cells they take.

use unicode_segmentation::UnicodeSegmentation;
use unicode_width::UnicodeWidthStr;
use vstd::prelude::*;
use vstd::utf8::*;

use crate::layout::clip;
use crate::text::on_char;

verus! {

/// The tab byte.
pub const TAB: u8 = 9;

/// The width of a tab where no buffer says otherwise.
pub const TABSTOP: usize = 8;

/// The byte offsets at which the extended grapheme clusters of a string begin.
pub uninterp spec fn grapheme_offsets(s: Seq<char>) -> Seq<usize>;

/// The number of columns that a string takes on the screen.
pub uninterp spec fn columns(s: Seq<char>) -> usize;

/// The offsets are those of a string's clusters: they ascend from zero, end before
/// the string does, and lie between characters.
pub open spec fn cluster_starts(v: Seq<usize>, s: Seq<char>) -> bool {
    let t = encode_utf8(s);
    &&& (v.len() == 0 <==> t.len() == 0)
    &&& v.len() > 0 ==> v[0] == 0
    &&& forall|i: int, j: int| 0 <= i < j < v.len() ==> #[trigger] v[i] < #[trigger] v[j]
    &&& forall|i: int| 0 <= i < v.len() ==> (#[trigger] v[i]) < t.len() && on_char(t, v[i] as int)
}

/// `UnicodeSegmentation::grapheme_indices` over extended clusters, of which the
/// offsets are kept: a cluster begins at each, and the clusters make up the string.
#[verifier::external_body]
fn grapheme_starts(s: &str) -> (v: Vec<usize>)
    ensures
        v@ == grapheme_offsets(s@),
        cluster_starts(v@, s@),
{
    s.grapheme_indices(true).map(|g| g.0).collect()
}

/// `UnicodeWidthStr::width`, by its name.
#[verifier::external_body]
pub(crate) fn display_width(s: &str) -> (n: usize)
    ensures
        n == columns(s@),
{
    s.width()
}

/// A grapheme of `t` begins at byte offset `i`, or `t` ends there.
pub open spec fn bound(t: Seq<u8>, i: int) -> bool {
    on_char(t, i) && (i == 0 || i == t.len() || grapheme_offsets(decode_utf8(t)).contains(
        i as usize,
    ))
}

/// The first bound not before `i`.
pub open spec fn bound_from(t: Seq<u8>, i: int) -> int
    decreases t.len() - i,
{
    if i >= t.len() {
        t.len() as int
    } else if bound(t, i) {
        i
    } else {
        bound_from(t, i + 1)
    }
}

/// The last bound not after `i`.
pub open spec fn bound_upto(t: Seq<u8>, i: int) -> int
    decreases i,
{
    if i <= 0 {
        0
    } else if bound(t, i) {
        i
    } else {
        bound_upto(t, i - 1)
    }
}

/// The bound after `i`.
pub open spec fn next_bound(t: Seq<u8>, i: int) -> int {
    bound_from(t, i + 1)
}

/// The bound before `i`.
pub open spec fn prev_bound(t: Seq<u8>, i: int) -> int {
    bound_upto(t, i - 1)
}

pub proof fn lemma_bound_ends(t: Seq<u8>)
    requires
        valid_utf8(t),
    ensures
        bound(t, 0),
        bound(t, t.len() as int),
{
    is_char_boundary_start_end_of_seq(t);
}

pub proof fn lemma_bound_from(t: Seq<u8>, i: int)
    requires
        valid_utf8(t),
        0 <= i,
    ensures
        bound(t, bound_from(t, i)),
        i <= t.len() ==> i <= bound_from(t, i) <= t.len(),
        i >= t.len() ==> bound_from(t, i) == t.len(),
        forall|j: int| i <= j < bound_from(t, i) ==> !bound(t, j),
    decreases t.len() - i,
{
    lemma_bound_ends(t);
    if i < t.len() && !bound(t, i) {
        lemma_bound_from(t, i + 1);
    }
}

pub proof fn lemma_bound_upto(t: Seq<u8>, i: int)
    requires
        valid_utf8(t),
    ensures
        bound(t, bound_upto(t, i)),
        0 <= bound_upto(t, i) <= t.len(),
        i >= 0 ==> bound_upto(t, i) <= i,
        forall|j: int| bound_upto(t, i) < j <= i ==> !bound(t, j),
    decreases i,
{
    lemma_bound_ends(t);
    if i > 0 && !bound(t, i) {
        lemma_bound_upto(t, i - 1);
    }
}

/// Where nothing lies between, a bound is the next one.
proof fn lemma_bound_from_is(t: Seq<u8>, i: int, r: int)
    requires
        0 <= i <= r <= t.len(),
        bound(t, r),
        forall|j: int| i <= j < r ==> !bound(t, j),
    ensures
        bound_from(t, i) == r,
    decreases r - i,
{
    if i < r {
        lemma_bound_from_is(t, i + 1, r);
    }
}

proof fn lemma_bound_upto_is(t: Seq<u8>, i: int, r: int)
    requires
        0 <= r <= i,
        bound(t, r),
        forall|j: int| r < j <= i ==> !bound(t, j),
    ensures
        bound_upto(t, i) == r,
    decreases i - r,
{
    if r < i {
        lemma_bound_upto_is(t, i - 1, r);
    }
}

/// All bounds of a line, in order.
pub open spec fn all_bounds(v: Seq<usize>, t: Seq<u8>) -> bool {
    &&& v.len() > 0
    &&& v[0] == 0
    &&& v.last() == t.len()
    &&& forall|i: int, j: int| 0 <= i < j < v.len() ==> #[trigger] v[i] < #[trigger] v[j]
    &&& forall|i: int| 0 <= i < v.len() ==> bound(t, #[trigger] v[i] as int)
    &&& forall|j: int| bound(t, j) ==> v.contains(j as usize)
}

fn bounds(s: &str) -> (v: Vec<usize>)
    ensures
        all_bounds(v@, encode_utf8(s@)),
{
    let ghost t = encode_utf8(s@);
    let len: usize = s.as_bytes().len();
    let mut v = grapheme_starts(s);
    let ghost g = v@;
    v.push(len);
    proof {
        encode_utf8_valid_utf8(s@);
        encode_utf8_decode_utf8(s@);
        lemma_bound_ends(t);
        assert forall|i: int| 0 <= i < v@.len() implies bound(t, #[trigger] v@[i] as int) by {
            if i < g.len() {
                assert(g[i] == v@[i]);
                assert(g.contains(g[i]));
            }
        }
        assert forall|j: int| bound(t, j) implies v@.contains(j as usize) by {
            if j == t.len() {
                assert(v@[g.len() as int] == j as usize);
            } else if j == 0 {
                assert(v@[0] == 0);
            } else {
                let k = choose|k: int| 0 <= k < g.len() && g[k] == j as usize;
                assert(v@[k] == j as usize);
            }
        }
    }
    v
}

/// The bound after byte offset `i`; the end for an offset that is not before it.
pub fn next_grapheme(s: &str, i: usize) -> (r: usize)
    ensures
        r == next_bound(encode_utf8(s@), i as int),
        r <= encode_utf8(s@).len(),
        i < encode_utf8(s@).len() ==> i < r,
        bound(encode_utf8(s@), r as int),
{
    let ghost t = encode_utf8(s@);
    let v = bounds(s);
    proof {
        encode_utf8_valid_utf8(s@);
        lemma_bound_from(t, i + 1);
        assert(bound(t, v@[v@.len() - 1] as int));
    }
    let mut k: usize = 0;
    while k < v.len()
        invariant
            k <= v@.len(),
            t == encode_utf8(s@),
            all_bounds(v@, t),
            forall|j: int| 0 <= j < k ==> #[trigger] v@[j] <= i,
        decreases v@.len() - k,
    {
        if v[k] > i {
            proof {
                let r = v@[k as int] as int;
                assert forall|j: int| i + 1 <= j < r implies !bound(t, j) by {
                    if bound(t, j) {
                        let m = choose|m: int| 0 <= m < v@.len() && v@[m] == j as usize;
                        if m > k {
                            assert(v@[k as int] < v@[m]);
                        }
                    }
                }
                lemma_bound_from_is(t, i + 1, r);
            }
            return v[k];
        }
        k += 1;
    }
    assert(v@[v@.len() - 1] <= i);
    v[v.len() - 1]
}

/// The bound before byte offset `i`, or zero.
pub fn prev_grapheme(s: &str, i: usize) -> (r: usize)
    ensures
        r == prev_bound(encode_utf8(s@), i as int),
        r <= i,
        i > 0 ==> r < i,
        r <= encode_utf8(s@).len(),
        bound(encode_utf8(s@), r as int),
{
    if i == 0 {
        proof {
            encode_utf8_valid_utf8(s@);
            lemma_bound_ends(encode_utf8(s@));
        }
        0
    } else {
        floor_grapheme(s, i - 1)
    }
}

/// The last bound not after byte offset `i`.
pub fn floor_grapheme(s: &str, i: usize) -> (r: usize)
    ensures
        r == bound_upto(encode_utf8(s@), i as int),
        r <= i,
        r <= encode_utf8(s@).len(),
        bound(encode_utf8(s@), r as int),
{
    let ghost t = encode_utf8(s@);
    let v = bounds(s);
    proof {
        encode_utf8_valid_utf8(s@);
        lemma_bound_upto(t, i as int);
    }
    let mut k: usize = 1;
    while k < v.len() && v[k] <= i
        invariant
            1 <= k <= v@.len(),
            all_bounds(v@, t),
            v@[k - 1] <= i,
        decreases v@.len() - k,
    {
        k += 1;
    }
    proof {
        let r = v@[k - 1] as int;
        assert forall|j: int| r < j <= i implies !bound(t, j) by {
            if bound(t, j) {
                let m = choose|m: int| 0 <= m < v@.len() && v@[m] == j as usize;
                if m >= k {
                    if m > k {
                        assert(v@[k as int] < v@[m]);
                    }
                } else if m < k - 1 {
                    assert(v@[m] < v@[k - 1]);
                }
            }
        }
        lemma_bound_upto_is(t, i as int, r);
    }
    v[k - 1]
}

/// The cells that the grapheme from `i` to `n` takes at column `v`: a tab reaches
/// the next multiple of the tab width.
pub open spec fn cells_at(t: Seq<u8>, i: int, n: int, v: int, ts: int) -> int {
    if t[i] == TAB {
        ts - v % ts
    } else {
        columns(decode_utf8(t.subrange(i, n))) as int
    }
}

/// The column of byte offset `col`, walking from the bound `i` at column `v`.
pub open spec fn virtcol_from(t: Seq<u8>, i: int, v: int, col: int, ts: int) -> int
    decreases t.len() - i,
{
    if i < 0 || i >= col || i >= t.len() {
        v
    } else {
        let n = next_bound(t, i);
        if i < n <= t.len() {
            virtcol_from(t, n, clip(v + cells_at(t, i, n, v, ts)) as int, col, ts)
        } else {
            v
        }
    }
}

pub proof fn lemma_virtcol_from(t: Seq<u8>, i: int, v: int, col: int, ts: int)
    requires
        v >= 0,
    ensures
        virtcol_from(t, i, v, col, ts) >= 0,
    decreases t.len() - i,
{
    if 0 <= i < t.len() {
        let n = next_bound(t, i);
        if i < n <= t.len() {
            lemma_virtcol_from(t, n, clip(v + cells_at(t, i, n, v, ts)) as int, col, ts);
        }
    }
}

/// The screen column of byte offset `col` of a line.
pub open spec fn virtcol_of(t: Seq<u8>, col: int, ts: int) -> int {
    virtcol_from(t, 0, 0, col, ts)
}

/// The grapheme that covers screen column `target`, walking from the bound `i` at
/// column `v`.
pub open spec fn byte_at_from(t: Seq<u8>, i: int, v: int, target: int, ts: int) -> int
    decreases t.len() - i,
{
    if i < 0 || i >= t.len() {
        t.len() as int
    } else {
        let n = next_bound(t, i);
        let w = clip(v + cells_at(t, i, n, v, ts)) as int;
        if w > target || !(i < n <= t.len()) {
            i
        } else {
            byte_at_from(t, n, w, target, ts)
        }
    }
}

/// The byte offset of the grapheme that covers a screen column; the end for a
/// column past the line.
pub open spec fn byte_at_column(t: Seq<u8>, target: int, ts: int) -> int {
    byte_at_from(t, 0, 0, target, ts)
}

/// A grapheme's byte offset lies on a bound inside the line.
pub proof fn lemma_byte_at(t: Seq<u8>, i: int, v: int, target: int, ts: int)
    requires
        valid_utf8(t),
        bound(t, i),
    ensures
        0 <= byte_at_from(t, i, v, target, ts) <= t.len(),
        bound(t, byte_at_from(t, i, v, target, ts)),
    decreases t.len() - i,
{
    lemma_bound_ends(t);
    if i < t.len() {
        lemma_bound_from(t, i + 1);
        let n = next_bound(t, i);
        let w = clip(v + cells_at(t, i, n, v, ts)) as int;
        if w <= target {
            lemma_byte_at(t, n, w, target, ts);
        }
    }
}

/// The cells of the grapheme from `i` to `n`, at column `v`.
fn cells(s: &str, i: usize, n: usize, v: usize, ts: usize) -> (w: usize)
    requires
        ts >= 1,
        i < n,
        on_char(encode_utf8(s@), i as int),
        on_char(encode_utf8(s@), n as int),
    ensures
        w == cells_at(encode_utf8(s@), i as int, n as int, v as int, ts as int),
{
    let ghost t = encode_utf8(s@);
    if s.as_bytes()[i] == TAB {
        ts - v % ts
    } else {
        proof {
            encode_utf8_valid_utf8(s@);
        }
        let (a, _) = s.split_at(n);
        proof {
            encode_utf8_valid_utf8(a@);
            lemma_on_char_prefix(t, n as int, i as int);
        }
        let (_, g) = a.split_at(i);
        proof {
            assert(encode_utf8(g@) =~= t.subrange(i as int, n as int));
            encode_utf8_decode_utf8(g@);
        }
        display_width(g)
    }
}

/// An offset between characters stays so in a prefix that ends between characters.
pub proof fn lemma_on_char_prefix(t: Seq<u8>, n: int, i: int)
    requires
        valid_utf8(t),
        on_char(t, n),
        on_char(t, i),
        i <= n,
    ensures
        on_char(t.subrange(0, n), i),
{
    let p = t.subrange(0, n);
    valid_utf8_split(t, n);
    is_char_boundary_start_end_of_seq(p);
    if i < n {
        is_char_boundary_iff_not_is_continuation_byte(t, i);
        is_char_boundary_iff_not_is_continuation_byte(p, i);
        assert(p[i] == t[i]);
    }
}

/// The screen column of byte offset `col` of a line.
pub fn virtcol(s: &str, col: usize, ts: usize) -> (r: usize)
    requires
        ts >= 1,
    ensures
        r == virtcol_of(encode_utf8(s@), col as int, ts as int),
{
    let ghost t = encode_utf8(s@);
    let len: usize = s.as_bytes().len();
    proof {
        encode_utf8_valid_utf8(s@);
        lemma_bound_ends(t);
    }
    let mut i: usize = 0;
    let mut v: usize = 0;
    while i < col && i < len
        invariant
            t == encode_utf8(s@),
            valid_utf8(t),
            len == t.len(),
            ts >= 1,
            bound(t, i as int),
            virtcol_of(t, col as int, ts as int) == virtcol_from(
                t,
                i as int,
                v as int,
                col as int,
                ts as int,
            ),
        decreases len - i,
    {
        let n: usize = next_grapheme(s, i);
        let w: usize = cells(s, i, n, v, ts);
        v = v.saturating_add(w);
        i = n;
    }
    v
}

/// The byte offset of the grapheme that covers a screen column.
pub fn byte_at_virtcol(s: &str, target: usize, ts: usize) -> (r: usize)
    requires
        ts >= 1,
    ensures
        r == byte_at_column(encode_utf8(s@), target as int, ts as int),
        r <= encode_utf8(s@).len(),
        bound(encode_utf8(s@), r as int),
{
    let ghost t = encode_utf8(s@);
    let len: usize = s.as_bytes().len();
    proof {
        encode_utf8_valid_utf8(s@);
        lemma_bound_ends(t);
    }
    let mut i: usize = 0;
    let mut v: usize = 0;
    while i < len
        invariant
            t == encode_utf8(s@),
            valid_utf8(t),
            len == t.len(),
            i <= len,
            ts >= 1,
            bound(t, i as int),
            byte_at_column(t, target as int, ts as int) == byte_at_from(
                t,
                i as int,
                v as int,
                target as int,
                ts as int,
            ),
        decreases len - i,
    {
        let n: usize = next_grapheme(s, i);
        let w: usize = cells(s, i, n, v, ts);
        let end: usize = v.saturating_add(w);
        if end > target {
            return i;
        }
        v = end;
        i = n;
    }
    i
}

/// Stepping forward one grapheme and back again returns to a bound.
pub proof fn next_then_prev(t: Seq<u8>, i: int)
    requires
        valid_utf8(t),
        bound(t, i),
        i < t.len(),
    ensures
        i < next_bound(t, i) <= t.len(),
        prev_bound(t, next_bound(t, i)) == i,
{
    lemma_bound_from(t, i + 1);
    lemma_bound_upto_is(t, next_bound(t, i) - 1, i);
}

/// Stepping back one grapheme and forward again returns to a bound.
pub proof fn prev_then_next(t: Seq<u8>, i: int)
    requires
        valid_utf8(t),
        bound(t, i),
        0 < i,
    ensures
        0 <= prev_bound(t, i) < i,
        next_bound(t, prev_bound(t, i)) == i,
{
    lemma_bound_upto(t, i - 1);
    lemma_bound_from_is(t, prev_bound(t, i) + 1, i);
}

} // verus!
