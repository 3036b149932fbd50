//! Windows: the split tree and its layout.

use vstd::prelude::*;

verus! {

/// How a split divides a window: `Horizontal` stacks, `Vertical` puts side by side.
#[derive(Debug, Clone, Copy, PartialEq, Eq, Structural)]
pub enum SplitDir {
    Horizontal,
    Vertical,
}

/// A direction on the screen.
#[derive(Debug, Clone, Copy, PartialEq, Eq, Structural)]
pub enum WinDir {
    Left,
    Down,
    Up,
    Right,
}

/// A window's id. No id is given out twice.
#[derive(Debug, Clone, Copy, PartialEq, Eq, Structural, Hash)]
pub struct WindowId(pub u64);

/// A rectangle of terminal cells.
#[derive(Debug, Clone, Copy, PartialEq, Eq, Structural)]
pub struct Rect {
    pub x: usize,
    pub y: usize,
    pub width: usize,
    pub height: usize,
}

/// The border between two windows of a split.
#[derive(Debug, Clone, Copy, PartialEq, Eq, Structural)]
pub struct Separator {
    pub vertical: bool,
    pub x: usize,
    pub y: usize,
    pub length: usize,
}

/// A node of the layout: a window, or a split that divides its area among its
/// children in proportion to their sizes.
pub enum Node {
    Leaf(WindowId),
    Split { dir: SplitDir, children: Vec<Node>, sizes: Vec<usize> },
}

/// The shape of a [`Node`].
pub ghost enum Tree {
    Leaf(WindowId),
    Split { dir: SplitDir, children: Seq<Tree>, sizes: Seq<usize> },
}

impl Node {
    /// The shape of the node.
    pub open spec fn tree(self) -> Tree
        decreases self,
    {
        match self {
            Node::Leaf(id) => Tree::Leaf(id),
            Node::Split { dir, children, sizes } => Tree::Split {
                dir,
                children: Seq::new(
                    children@.len(),
                    |i: int| if 0 <= i < children@.len() {
                        children@[i].tree()
                    } else {
                        arbitrary()
                    },
                ),
                sizes: sizes@,
            },
        }
    }
}

pub open spec fn trees(nodes: Seq<Node>) -> Seq<Tree> {
    nodes.map_values(|n: Node| n.tree())
}

/// The windows under a node, from left to right and from top to bottom.
pub open spec fn leaves_of(t: Tree) -> Seq<WindowId>
    decreases t, 0nat,
{
    match t {
        Tree::Leaf(id) => seq![id],
        Tree::Split { children, .. } => forest_leaves(children, children.len()),
    }
}

/// The windows under the first `n` trees.
pub open spec fn forest_leaves(f: Seq<Tree>, n: nat) -> Seq<WindowId>
    decreases f, n,
{
    if n == 0 || n > f.len() {
        Seq::empty()
    } else {
        forest_leaves(f, (n - 1) as nat) + leaves_of(f[n - 1])
    }
}

impl Node {
    /// Append the windows under this node in layout order.
    pub fn collect_leaves(&self, out: &mut Vec<WindowId>)
        ensures
            final(out)@ == old(out)@ + leaves_of(self.tree()),
        decreases self,
    {
        match self {
            Node::Leaf(id) => {
                out.push(*id);
                assert(out@ =~= old(out)@ + leaves_of(self.tree()));
            },
            Node::Split { children, .. } => {
                let mut i: usize = 0;
                let ghost f = self.tree()->children;
                assert(f == trees(children@));
                assert(out@ =~= old(out)@ + forest_leaves(f, 0));
                while i < children.len()
                    invariant
                        i <= children@.len(),
                        f == trees(children@),
                        out@ == old(out)@ + forest_leaves(f, i as nat),
                        decreases_to!(self => children),
                    decreases children@.len() - i,
                {
                    assert(decreases_to!(children => children@[i as int]));
                    children[i].collect_leaves(out);
                    assert(out@ =~= old(out)@ + forest_leaves(f, (i + 1) as nat));
                    i += 1;
                }
            },
        }
    }
}

/// The largest number of cells there is, for a sum that goes past it.
pub open spec fn clip(n: int) -> usize {
    if n <= usize::MAX {
        n as usize
    } else {
        usize::MAX
    }
}

/// The sum of the first `n` sizes.
pub open spec fn sum_of(s: Seq<usize>, n: int) -> int
    decreases n,
{
    if n <= 0 || n > s.len() {
        0
    } else {
        sum_of(s, n - 1) + s[n - 1]
    }
}

/// The whole weight of a split's sizes, at least one.
pub open spec fn weight(sizes: Seq<usize>) -> int {
    let w = sum_of(sizes, sizes.len() as int);
    if w < 1 {
        1
    } else {
        w
    }
}

/// Each child's proportional share of `avail` cells, rounded down.
pub open spec fn shares(avail: int, sizes: Seq<usize>) -> Seq<usize> {
    Seq::new(sizes.len(), |i: int| (avail * sizes[i] / weight(sizes)) as usize)
}

/// The cells that rounding leaves over.
pub open spec fn leftover(avail: int, sizes: Seq<usize>) -> int {
    avail - sum_of(shares(avail, sizes), sizes.len() as int)
}

/// The shares with the leftover dealt out in turn, from the first child on.
pub open spec fn dealt(avail: int, sizes: Seq<usize>) -> Seq<usize> {
    let n = sizes.len() as int;
    let rest = leftover(avail, sizes);
    Seq::new(
        sizes.len(),
        |i: int|
            (shares(avail, sizes)[i] + rest / n + if i < rest % n {
                1int
            } else {
                0int
            }) as usize,
    )
}

/// The first child without a cell, from `i` on; past the end where all have one.
pub open spec fn first_zero(c: Seq<usize>, i: int) -> int
    decreases c.len() - i,
{
    if i >= c.len() || i < 0 {
        c.len() as int
    } else if c[i] == 0 {
        i
    } else {
        first_zero(c, i + 1)
    }
}

/// The last of the largest among the first `n` children.
pub open spec fn last_largest(c: Seq<usize>, n: int) -> int
    decreases n,
{
    if n <= 1 {
        0
    } else {
        let m = last_largest(c, n - 1);
        if c[n - 1] >= c[m] {
            n - 1
        } else {
            m
        }
    }
}

/// How many of the first `n` children have no cell.
pub open spec fn zeros(c: Seq<usize>, n: int) -> nat
    decreases n,
{
    if n <= 0 || n > c.len() {
        0
    } else {
        zeros(c, n - 1) + if c[n - 1] == 0 {
            1nat
        } else {
            0nat
        }
    }
}

/// One cell moved from the largest child to the first that has none.
pub open spec fn steal(c: Seq<usize>) -> Seq<usize> {
    let z = first_zero(c, 0);
    let m = last_largest(c, c.len() as int);
    let d = c.update(m, (c[m] - 1) as usize);
    d.update(z, (d[z] + 1) as usize)
}

/// So many thefts in a row.
pub open spec fn steals(c: Seq<usize>, k: nat) -> Seq<usize>
    decreases k,
{
    if k == 0 {
        c
    } else {
        steals(steal(c), (k - 1) as nat)
    }
}

/// `avail` cells among children weighted by `sizes`: proportional shares, the
/// leftover dealt from the first child on, and, where there are enough cells for
/// all, one for each child that would have none, taken from the largest.
pub open spec fn distributed(avail: int, sizes: Seq<usize>) -> Seq<usize> {
    let c = dealt(avail, sizes);
    if avail >= sizes.len() {
        steals(c, zeros(c, c.len() as int))
    } else {
        c
    }
}

pub proof fn lemma_sum_nonneg(s: Seq<usize>, n: int)
    ensures
        0 <= sum_of(s, n),
        n >= 0 ==> sum_of(s, n) <= n * usize::MAX,
    decreases n,
{
    if n <= 0 || n > s.len() {
        assert(n >= 0 ==> 0 <= n * usize::MAX) by (nonlinear_arith);
    } else {
        lemma_sum_nonneg(s, n - 1);
        assert((n - 1) * usize::MAX + usize::MAX == n * usize::MAX) by (nonlinear_arith);
    }
}

pub proof fn lemma_sum_part(s: Seq<usize>, m: int, n: int)
    requires
        0 <= m <= n <= s.len(),
    ensures
        sum_of(s, m) <= sum_of(s, n),
        forall|i: int| 0 <= i < m ==> #[trigger] s[i] <= sum_of(s, m),
    decreases n,
{
    if m < n {
        lemma_sum_part(s, m, n - 1);
    } else if m > 0 {
        lemma_sum_part(s, m - 1, m - 1);
        lemma_sum_nonneg(s, m - 1);
    }
}

pub proof fn lemma_sum_same(s: Seq<usize>, t: Seq<usize>, n: int)
    requires
        n <= s.len(),
        n <= t.len(),
        forall|i: int| 0 <= i < n ==> s[i] == t[i],
    ensures
        sum_of(s, n) == sum_of(t, n),
    decreases n,
{
    if n > 0 {
        lemma_sum_same(s, t, n - 1);
    }
}

/// Changing one size changes the sum by as much.
pub proof fn lemma_sum_update(s: Seq<usize>, i: int, v: usize, n: int)
    requires
        0 <= i < n <= s.len(),
    ensures
        sum_of(s.update(i, v), n) == sum_of(s, n) - s[i] + v,
    decreases n,
{
    if i == n - 1 {
        lemma_sum_same(s.update(i, v), s, n - 1);
    } else {
        lemma_sum_update(s, i, v, n - 1);
    }
}

proof fn lemma_share(avail: int, s: int, w: int)
    by (nonlinear_arith)
    requires
        0 <= avail,
        0 <= s <= w,
        1 <= w,
    ensures
        0 <= avail * s / w <= avail,
        (avail * s / w) * w <= avail * s,
{
}

proof fn lemma_shares_sum(avail: int, sizes: Seq<usize>, n: int)
    requires
        0 <= avail <= usize::MAX,
        0 <= n <= sizes.len(),
    ensures
        sum_of(shares(avail, sizes), n) * weight(sizes) <= avail * sum_of(sizes, n),
    decreases n,
{
    let w = weight(sizes);
    if n > 0 {
        lemma_shares_sum(avail, sizes, n - 1);
        lemma_sum_part(sizes, sizes.len() as int, sizes.len() as int);
        lemma_share(avail, sizes[n - 1] as int, w);
        let a = sum_of(shares(avail, sizes), n - 1);
        let b = avail * sizes[n - 1] / w;
        assert((a + b) * w == a * w + b * w) by (nonlinear_arith);
        let c = sum_of(sizes, n - 1);
        let d = sizes[n - 1] as int;
        assert(avail * (c + d) == avail * c + avail * d) by (nonlinear_arith);
        assert(shares(avail, sizes)[n - 1] == b);
    } else {
        assert(0 * w == 0);
    }
}

/// Rounding down leaves a number of cells that is not negative.
pub proof fn lemma_leftover(avail: int, sizes: Seq<usize>)
    requires
        0 <= avail <= usize::MAX,
    ensures
        0 <= leftover(avail, sizes) <= avail,
        forall|i: int|
            0 <= i < sizes.len() ==> #[trigger] shares(avail, sizes)[i] == avail * sizes[i]
                / weight(sizes),
{
    let n = sizes.len() as int;
    let w = weight(sizes);
    lemma_shares_sum(avail, sizes, n);
    lemma_sum_nonneg(sizes, n);
    lemma_sum_nonneg(shares(avail, sizes), n);
    let a = sum_of(shares(avail, sizes), n);
    let t = sum_of(sizes, n);
    assert(a <= avail) by (nonlinear_arith)
        requires
            a * w <= avail * t,
            t <= w,
            1 <= w,
            0 <= avail,
    ;
    lemma_sum_part(sizes, n, n);
    assert forall|i: int| 0 <= i < n implies #[trigger] shares(avail, sizes)[i] == avail
        * sizes[i] / w by {
        lemma_share(avail, sizes[i] as int, w);
    }
}

/// What the first `n` children get once the leftover is dealt.
proof fn lemma_dealt_sum(avail: int, sizes: Seq<usize>, n: int)
    requires
        0 <= avail <= usize::MAX,
        0 < sizes.len(),
        0 <= n <= sizes.len(),
    ensures
        sum_of(dealt(avail, sizes), n) == sum_of(shares(avail, sizes), n) + n * (leftover(
            avail,
            sizes,
        ) / sizes.len() as int) + if n <= leftover(avail, sizes) % (sizes.len() as int) {
            n
        } else {
            leftover(avail, sizes) % (sizes.len() as int)
        },
        forall|i: int|
            0 <= i < n ==> #[trigger] dealt(avail, sizes)[i] == shares(avail, sizes)[i] + leftover(
                avail,
                sizes,
            ) / sizes.len() as int + if i < leftover(avail, sizes) % (sizes.len() as int) {
                1int
            } else {
                0int
            },
    decreases n,
{
    let len = sizes.len() as int;
    let rest = leftover(avail, sizes);
    lemma_leftover(avail, sizes);
    let q = rest / len;
    let r = rest % len;
    assert(0 <= q && 0 <= r < len && q * len + r == rest) by (nonlinear_arith)
        requires
            q == rest / len,
            r == rest % len,
            0 <= rest,
            0 < len,
    ;
    if n > 0 {
        lemma_dealt_sum(avail, sizes, n - 1);
        assert(n * q == (n - 1) * q + q) by (nonlinear_arith);
        let s = shares(avail, sizes);
        lemma_sum_part(s, len, len);
        lemma_sum_nonneg(s, len);
        // a child's share and a cell of each round do not go past `avail`
        assert(s[n - 1] <= avail - rest);
        assert(q + if n - 1 < r { 1int } else { 0int } <= rest) by (nonlinear_arith)
            requires
                q * len + r == rest,
                0 <= r,
                0 <= q,
                0 < len,
                n - 1 >= 0,
        ;
    } else {
        assert(0 * q == 0);
    }
}

/// Dealing hands out every cell.
pub proof fn lemma_dealt(avail: int, sizes: Seq<usize>)
    requires
        0 <= avail <= usize::MAX,
        0 < sizes.len(),
    ensures
        sum_of(dealt(avail, sizes), sizes.len() as int) == avail,
{
    let len = sizes.len() as int;
    lemma_dealt_sum(avail, sizes, len);
    lemma_leftover(avail, sizes);
    let rest = leftover(avail, sizes);
    assert(len * (rest / len) + rest % len == rest) by (nonlinear_arith)
        requires
            0 < len,
    ;
}

pub proof fn lemma_first_zero(c: Seq<usize>, i: int)
    requires
        0 <= i <= c.len(),
    ensures
        i <= first_zero(c, i) <= c.len(),
        first_zero(c, i) < c.len() ==> c[first_zero(c, i)] == 0,
        forall|k: int| i <= k < first_zero(c, i) ==> c[k] != 0,
    decreases c.len() - i,
{
    if i < c.len() && c[i] != 0 {
        lemma_first_zero(c, i + 1);
    }
}

pub proof fn lemma_last_largest(c: Seq<usize>, n: int)
    requires
        1 <= n <= c.len(),
    ensures
        0 <= last_largest(c, n) < n,
        forall|k: int| 0 <= k < n ==> #[trigger] c[k] <= c[last_largest(c, n)],
        forall|k: int| last_largest(c, n) < k < n ==> #[trigger] c[k] < c[last_largest(c, n)],
    decreases n,
{
    if n > 1 {
        lemma_last_largest(c, n - 1);
    }
}

pub proof fn lemma_zeros(c: Seq<usize>, n: int)
    requires
        0 <= n <= c.len(),
    ensures
        zeros(c, n) == 0 <==> (forall|k: int| 0 <= k < n ==> c[k] != 0),
        zeros(c, n) <= n,
    decreases n,
{
    if n > 0 {
        lemma_zeros(c, n - 1);
        if zeros(c, n) == 0 {
            assert forall|k: int| 0 <= k < n implies c[k] != 0 by {
                if k < n - 1 {
                }
            }
        } else if c[n - 1] != 0 {
            let k = choose|k: int| 0 <= k < n - 1 && c[k] == 0;
            assert(c[k] == 0);
        }
    }
}

proof fn lemma_zeros_same(c: Seq<usize>, d: Seq<usize>, n: int)
    requires
        0 <= n <= c.len(),
        n <= d.len(),
        forall|k: int| 0 <= k < n ==> (c[k] == 0 <==> d[k] == 0),
    ensures
        zeros(c, n) == zeros(d, n),
    decreases n,
{
    if n > 0 {
        lemma_zeros_same(c, d, n - 1);
    }
}

proof fn lemma_zeros_fill(c: Seq<usize>, z: int, v: usize, n: int)
    requires
        0 <= z < n <= c.len(),
        c[z] == 0,
        v != 0,
    ensures
        zeros(c.update(z, v), n) == zeros(c, n) - 1,
    decreases n,
{
    if z == n - 1 {
        lemma_zeros_same(c, c.update(z, v), n - 1);
        lemma_zeros(c, n - 1);
    } else {
        lemma_zeros_fill(c, z, v, n - 1);
    }
}

proof fn lemma_small_sum(c: Seq<usize>, n: int)
    requires
        0 <= n <= c.len(),
        forall|k: int| 0 <= k < n ==> c[k] <= 1,
    ensures
        sum_of(c, n) + zeros(c, n) <= n,
    decreases n,
{
    if n > 0 {
        lemma_small_sum(c, n - 1);
    }
}

/// A theft keeps the sum, fills one empty child and empties none, where there is a
/// cell for each.
pub proof fn lemma_steal(c: Seq<usize>)
    requires
        0 < c.len() <= sum_of(c, c.len() as int),
        zeros(c, c.len() as int) > 0,
    ensures
        steal(c).len() == c.len(),
        sum_of(steal(c), c.len() as int) == sum_of(c, c.len() as int),
        zeros(steal(c), c.len() as int) == zeros(c, c.len() as int) - 1,
        0 <= first_zero(c, 0) < c.len(),
        0 <= last_largest(c, c.len() as int) < c.len(),
        c[last_largest(c, c.len() as int)] >= 2,
        first_zero(c, 0) != last_largest(c, c.len() as int),
{
    let n = c.len() as int;
    let z = first_zero(c, 0);
    let m = last_largest(c, n);
    lemma_first_zero(c, 0);
    lemma_last_largest(c, n);
    lemma_zeros(c, n);
    if c[m] <= 1 {
        lemma_small_sum(c, n);
        assert(false);
    }
    let d = c.update(m, (c[m] - 1) as usize);
    lemma_sum_update(c, m, (c[m] - 1) as usize, n);
    lemma_sum_update(d, z, (d[z] + 1) as usize, n);
    lemma_zeros_same(c, d, n);
    lemma_zeros_fill(d, z, (d[z] + 1) as usize, n);
}

pub proof fn lemma_steals(c: Seq<usize>, k: nat)
    requires
        0 < c.len() <= sum_of(c, c.len() as int),
        k <= zeros(c, c.len() as int),
    ensures
        steals(c, k).len() == c.len(),
        sum_of(steals(c, k), c.len() as int) == sum_of(c, c.len() as int),
        zeros(steals(c, k), c.len() as int) == zeros(c, c.len() as int) - k,
    decreases k,
{
    if k > 0 {
        lemma_steal(c);
        lemma_steals(steal(c), (k - 1) as nat);
    }
}

/// The cells handed out add up to those there are, and every child has one where
/// there are enough to go round.
pub proof fn distribute_hands_out_all(avail: int, sizes: Seq<usize>)
    requires
        0 <= avail <= usize::MAX,
        0 < sizes.len(),
    ensures
        distributed(avail, sizes).len() == sizes.len(),
        sum_of(distributed(avail, sizes), sizes.len() as int) == avail,
        avail >= sizes.len() ==> forall|i: int|
            0 <= i < sizes.len() ==> #[trigger] distributed(avail, sizes)[i] >= 1,
{
    let c = dealt(avail, sizes);
    let n = sizes.len() as int;
    lemma_dealt(avail, sizes);
    if avail >= n {
        lemma_steals(c, zeros(c, n));
        lemma_zeros(steals(c, zeros(c, n)), n);
    }
}

/// Sizes that already add up to the cells there are stay as they are, unless one
/// of them is nothing and there is a cell for each.
pub proof fn distribute_keeps_exact_sizes(avail: int, sizes: Seq<usize>)
    requires
        0 <= avail <= usize::MAX,
        0 < sizes.len(),
        sum_of(sizes, sizes.len() as int) == avail,
        avail < sizes.len() || forall|i: int| 0 <= i < sizes.len() ==> #[trigger] sizes[i] >= 1,
    ensures
        distributed(avail, sizes) == sizes,
{
    let n = sizes.len() as int;
    let s = shares(avail, sizes);
    lemma_leftover(avail, sizes);
    lemma_sum_part(sizes, n, n);
    assert forall|i: int| 0 <= i < n implies s[i] == sizes[i] by {
        let x = sizes[i] as int;
        let w = weight(sizes);
        if avail == 0 {
            assert(x == 0);
            assert(0 * x / w == 0) by (nonlinear_arith)
                requires
                    w >= 1,
            ;
        } else {
            assert(w == avail);
            assert(avail * x / avail == x) by (nonlinear_arith)
                requires
                    avail >= 1,
            ;
        }
    }
    assert(s =~= sizes);
    assert(leftover(avail, sizes) == 0);
    let c = dealt(avail, sizes);
    assert(0int / n == 0 && 0int % n == 0) by (nonlinear_arith)
        requires
            n > 0,
    ;
    assert forall|i: int| 0 <= i < n implies c[i] == sizes[i] by {
        lemma_dealt_sum(avail, sizes, n);
    }
    assert(c =~= sizes);
    if avail >= n {
        lemma_zeros(c, n);
        assert(zeros(c, n) == 0);
    }
}

/// Handing the cells out again changes nothing.
pub proof fn distribute_is_stable(avail: int, sizes: Seq<usize>)
    requires
        0 <= avail <= usize::MAX,
        0 < sizes.len(),
    ensures
        distributed(avail, distributed(avail, sizes)) == distributed(avail, sizes),
{
    distribute_hands_out_all(avail, sizes);
    distribute_keeps_exact_sizes(avail, distributed(avail, sizes));
}

/// Split `avail` cells among children weighted by `sizes`.
pub fn distribute(avail: usize, sizes: &Vec<usize>) -> (out: Vec<usize>)
    ensures
        out@ == distributed(avail as int, sizes@),
{
    let n: usize = sizes.len();
    let mut out: Vec<usize> = Vec::new();
    if n == 0 {
        proof {
            assert(out@ =~= dealt(avail as int, sizes@));
            assert(zeros(out@, 0) == 0);
        }
        return out;
    }
    let mut total: u128 = 0;
    let mut i: usize = 0;
    while i < n
        invariant
            i <= n == sizes@.len(),
            total == sum_of(sizes@, i as int),
        decreases n - i,
    {
        proof {
            lemma_sum_nonneg(sizes@, i as int);
            let k = i as int;
            let m = usize::MAX as int;
            assert(k * m + m <= u128::MAX) by (nonlinear_arith)
                requires
                    0 <= k < m,
                    m <= 0xffff_ffff_ffff_ffff,
            ;
        }
        total = total + sizes[i] as u128;
        i += 1;
    }
    if total < 1 {
        total = 1;
    }
    let mut handed: usize = 0;
    let ghost s = shares(avail as int, sizes@);
    proof {
        lemma_leftover(avail as int, sizes@);
        lemma_sum_part(sizes@, n as int, n as int);
    }
    i = 0;
    while i < n
        invariant
            i <= n == sizes@.len(),
            s == shares(avail as int, sizes@),
            total == weight(sizes@),
            0 <= leftover(avail as int, sizes@),
            out@.len() == i,
            forall|k: int| 0 <= k < i ==> out@[k] == s[k],
            handed == sum_of(s, i as int),
            forall|k: int| 0 <= k < n ==> #[trigger] s[k] == avail * sizes@[k] / weight(sizes@),
            forall|k: int| 0 <= k < n ==> #[trigger] sizes@[k] <= weight(sizes@),
        decreases n - i,
    {
        proof {
            lemma_share(avail as int, sizes@[i as int] as int, total as int);
            lemma_sum_part(s, i + 1, n as int);
            lemma_sum_nonneg(s, i as int);
            let a = avail as int;
            let b = sizes@[i as int] as int;
            assert(0 <= a * b <= u128::MAX) by (nonlinear_arith)
                requires
                    0 <= a <= 0xffff_ffff_ffff_ffff,
                    0 <= b <= 0xffff_ffff_ffff_ffff,
            ;
            assert(s[i as int] == avail * sizes@[i as int] / weight(sizes@));
        }
        let share: usize = (avail as u128 * sizes[i] as u128 / total) as usize;
        out.push(share);
        handed += share;
        i += 1;
    }
    let rest: usize = avail - handed;
    let each: usize = rest / n;
    let extra: usize = rest % n;
    proof {
        lemma_dealt_sum(avail as int, sizes@, n as int);
        assert(out@ =~= s);
    }
    let ghost c = dealt(avail as int, sizes@);
    i = 0;
    while i < n
        invariant
            i <= n == sizes@.len(),
            out@.len() == n,
            each == rest / n,
            extra == rest % n,
            n > 0,
            rest == leftover(avail as int, sizes@),
            s == shares(avail as int, sizes@),
            c == dealt(avail as int, sizes@),
            forall|k: int| 0 <= k < i ==> out@[k] == c[k],
            forall|k: int| i <= k < n ==> out@[k] == s[k],
            forall|k: int|
                0 <= k < n ==> #[trigger] c[k] == s[k] + rest as int / n as int + if k < rest as int
                    % n as int {
                    1int
                } else {
                    0int
                },
        decreases n - i,
    {
        assert(c[i as int] <= usize::MAX);
        let more: usize = if i < extra {
            1
        } else {
            0
        };
        out[i] = out[i] + each + more;
        i += 1;
    }
    assert(out@ =~= c);
    if avail >= n {
        proof {
            lemma_dealt(avail as int, sizes@);
        }
        let ghost mut left = zeros(c, n as int);
        loop
            invariant
                out@.len() == n,
                n > 0,
                sum_of(out@, n as int) == avail,
                avail >= n,
                left == zeros(out@, n as int),
                steals(out@, left) == distributed(avail as int, sizes@),
            ensures
                out@ == distributed(avail as int, sizes@),
            decreases left,
        {
            let mut z: usize = 0;
            while z < n && out[z] != 0
                invariant
                    z <= n == out@.len(),
                    first_zero(out@, 0) == first_zero(out@, z as int),
                decreases n - z,
            {
                z += 1;
            }
            proof {
                lemma_first_zero(out@, 0);
                lemma_zeros(out@, n as int);
            }
            if z == n {
                break;
            }
            let mut m: usize = 0;
            let mut j: usize = 1;
            proof {
                lemma_steal(out@);
            }
            while j < n
                invariant
                    1 <= j <= n == out@.len(),
                    m < j,
                    m == last_largest(out@, j as int),
                decreases n - j,
            {
                if out[j] >= out[m] {
                    m = j;
                }
                j += 1;
            }
            assert(z == first_zero(out@, 0));
            let ghost before = out@;
            out[m] = out[m] - 1;
            out[z] = out[z] + 1;
            assert(out@ =~= steal(before));
            proof {
                left = (left - 1) as nat;
            }
        }
    }
    out
}

/// A split has as many sizes as children, and at least two of them.
pub open spec fn well_shaped(t: Tree) -> bool
    decreases t, 0nat,
{
    match t {
        Tree::Leaf(_) => true,
        Tree::Split { children, sizes, .. } => children.len() == sizes.len() && children.len() >= 2
            && all_well_shaped(children, children.len()),
    }
}

pub open spec fn all_well_shaped(f: Seq<Tree>, n: nat) -> bool
    decreases f, n,
{
    n == 0 || n > f.len() || (all_well_shaped(f, (n - 1) as nat) && well_shaped(f[n - 1]))
}

pub proof fn lemma_all_well_shaped(f: Seq<Tree>, n: nat)
    requires
        n <= f.len(),
    ensures
        all_well_shaped(f, n) <==> (forall|i: int| 0 <= i < n ==> well_shaped(#[trigger] f[i])),
    decreases n,
{
    if n > 0 {
        lemma_all_well_shaped(f, (n - 1) as nat);
    }
}

/// The extent that a split divides.
pub open spec fn extent(dir: SplitDir, rect: Rect) -> usize {
    match dir {
        SplitDir::Horizontal => rect.height,
        SplitDir::Vertical => rect.width,
    }
}

/// The cells that a split hands out: its extent less one for each border.
pub open spec fn room(dir: SplitDir, rect: Rect, n: nat) -> int {
    let borders = if n == 0 {
        0
    } else {
        n - 1
    };
    if extent(dir, rect) >= borders {
        extent(dir, rect) - borders
    } else {
        0
    }
}

/// The cells of each child of a split.
pub open spec fn cells(dir: SplitDir, rect: Rect, sizes: Seq<usize>) -> Seq<usize> {
    distributed(room(dir, rect, sizes.len()), sizes)
}

/// The area of child `i` of a split whose children have `c` cells each: after the
/// children before it and their borders.
pub open spec fn child_rect(dir: SplitDir, rect: Rect, c: Seq<usize>, i: int) -> Rect {
    match dir {
        SplitDir::Horizontal => Rect {
            x: rect.x,
            y: clip(rect.y + sum_of(c, i) + i),
            width: rect.width,
            height: c[i],
        },
        SplitDir::Vertical => Rect {
            x: clip(rect.x + sum_of(c, i) + i),
            y: rect.y,
            width: c[i],
            height: rect.height,
        },
    }
}

/// The border after child `i` of a split.
pub open spec fn border_after(dir: SplitDir, rect: Rect, c: Seq<usize>, i: int) -> Separator {
    match dir {
        SplitDir::Horizontal => Separator {
            vertical: false,
            x: rect.x,
            y: clip(rect.y + sum_of(c, i + 1) + i),
            length: rect.width,
        },
        SplitDir::Vertical => Separator {
            vertical: true,
            x: clip(rect.x + sum_of(c, i + 1) + i),
            y: rect.y,
            length: rect.height,
        },
    }
}

/// The tree once laid out: the sizes of its splits are cells.
pub open spec fn laid(t: Tree, rect: Rect) -> Tree
    decreases t,
{
    match t {
        Tree::Leaf(id) => Tree::Leaf(id),
        Tree::Split { dir, children, sizes } => Tree::Split {
            dir,
            children: Seq::new(
                children.len(),
                |i: int|
                    if 0 <= i < children.len() {
                        laid(children[i], child_rect(dir, rect, cells(dir, rect, sizes), i))
                    } else {
                        arbitrary()
                    },
            ),
            sizes: cells(dir, rect, sizes),
        },
    }
}

/// The area of each window, in layout order.
pub open spec fn areas(t: Tree, rect: Rect) -> Seq<(WindowId, Rect)>
    decreases t, 0nat,
{
    match t {
        Tree::Leaf(id) => seq![(id, rect)],
        Tree::Split { dir, children, sizes } => forest_areas(
            dir,
            children,
            cells(dir, rect, sizes),
            rect,
            children.len(),
        ),
    }
}

/// The areas of the windows under the first `n` children of a split.
pub open spec fn forest_areas(
    dir: SplitDir,
    f: Seq<Tree>,
    c: Seq<usize>,
    rect: Rect,
    n: nat,
) -> Seq<(WindowId, Rect)>
    decreases f, n,
{
    if n == 0 || n > f.len() {
        Seq::empty()
    } else {
        forest_areas(dir, f, c, rect, (n - 1) as nat) + areas(
            f[n - 1],
            child_rect(dir, rect, c, n - 1),
        )
    }
}

/// The borders between windows.
pub open spec fn borders(t: Tree, rect: Rect) -> Seq<Separator>
    decreases t, 0nat,
{
    match t {
        Tree::Leaf(_) => Seq::empty(),
        Tree::Split { dir, children, sizes } => forest_borders(
            dir,
            children,
            cells(dir, rect, sizes),
            rect,
            children.len(),
        ),
    }
}

/// The borders inside the first `n` children of a split and after each of them but
/// the split's last.
pub open spec fn forest_borders(
    dir: SplitDir,
    f: Seq<Tree>,
    c: Seq<usize>,
    rect: Rect,
    n: nat,
) -> Seq<Separator>
    decreases f, n,
{
    if n == 0 || n > f.len() {
        Seq::empty()
    } else {
        forest_borders(dir, f, c, rect, (n - 1) as nat) + borders(
            f[n - 1],
            child_rect(dir, rect, c, n - 1),
        ) + if n < f.len() {
            seq![border_after(dir, rect, c, n - 1)]
        } else {
            Seq::empty()
        }
    }
}

/// Assign areas to the windows under `node` within `rect`, and collect the borders
/// between them. The sizes of each split become the cells it hands out.
pub fn layout_node(
    node: &mut Node,
    rect: Rect,
    rects: &mut Vec<(WindowId, Rect)>,
    seps: &mut Vec<Separator>,
)
    requires
        well_shaped(old(node).tree()),
    ensures
        final(node).tree() == laid(old(node).tree(), rect),
        final(rects)@ == old(rects)@ + areas(old(node).tree(), rect),
        final(seps)@ == old(seps)@ + borders(old(node).tree(), rect),
    decreases old(node).tree(),
{
    let mut owned = Node::Leaf(WindowId(0));
    core::mem::swap(node, &mut owned);
    let ghost t = owned.tree();
    match owned {
        Node::Leaf(id) => {
            rects.push((id, rect));
            assert(rects@ =~= old(rects)@ + areas(t, rect));
            assert(seps@ =~= old(seps)@ + borders(t, rect));
            *node = Node::Leaf(id);
        },
        Node::Split { dir, mut children, sizes } => {
            let n: usize = children.len();
            let whole: usize = match dir {
                SplitDir::Horizontal => rect.height,
                SplitDir::Vertical => rect.width,
            };
            let between: usize = n.saturating_sub(1);
            let avail: usize = whole.saturating_sub(between);
            let extents = distribute(avail, &sizes);
            assert(t->children =~= trees(children@));
            assert(extents@ == cells(dir, rect, sizes@));
            proof {
                distribute_hands_out_all(avail as int, sizes@);
                lemma_all_well_shaped(t->children, t->children.len());
            }
            let ghost old_children = children@;
            layout_children(dir, &mut children, &extents, rect, rects, seps);
            *node = Node::Split { dir, children, sizes: extents };
            assert forall|i: int| 0 <= i < n implies node.tree()->children[i] == laid(
                t,
                rect,
            )->children[i] by {
                assert(node.tree()->children[i] == trees(children@)[i]);
                assert(t->children[i] == trees(old_children)[i]);
            }
            assert(node.tree()->children =~= laid(t, rect)->children);
        },
    }
}

fn layout_children(
    dir: SplitDir,
    children: &mut Vec<Node>,
    extents: &Vec<usize>,
    rect: Rect,
    rects: &mut Vec<(WindowId, Rect)>,
    seps: &mut Vec<Separator>,
)
    requires
        extents@.len() == old(children)@.len(),
        forall|i: int| 0 <= i < old(children)@.len() ==> well_shaped(#[trigger] trees(old(children)@)[i]),
    ensures
        final(children)@.len() == old(children)@.len(),
        forall|i: int|
            0 <= i < old(children)@.len() ==> #[trigger] trees(final(children)@)[i] == laid(
                trees(old(children)@)[i],
                child_rect(dir, rect, extents@, i),
            ),
        final(rects)@ == old(rects)@ + forest_areas(
            dir,
            trees(old(children)@),
            extents@,
            rect,
            old(children)@.len(),
        ),
        final(seps)@ == old(seps)@ + forest_borders(
            dir,
            trees(old(children)@),
            extents@,
            rect,
            old(children)@.len(),
        ),
    decreases trees(old(children)@),
{
    let n: usize = children.len();
    let ghost f = trees(children@);
    let mut at: usize = match dir {
        SplitDir::Horizontal => rect.y,
        SplitDir::Vertical => rect.x,
    };
    let ghost origin = at as int;
    let mut i: usize = 0;
    assert(rects@ =~= old(rects)@ + forest_areas(dir, f, extents@, rect, 0));
    assert(seps@ =~= old(seps)@ + forest_borders(dir, f, extents@, rect, 0));
    while i < n
        invariant
            i <= n == children@.len() == extents@.len(),
            f == trees(old(children)@),
            f.len() == n,
            origin == match dir {
                SplitDir::Horizontal => rect.y,
                SplitDir::Vertical => rect.x,
            } as int,
            i < n ==> at == clip(origin + sum_of(extents@, i as int) + i),
            forall|k: int| 0 <= k < n ==> well_shaped(#[trigger] f[k]),
            forall|k: int| i <= k < n ==> children@[k] == old(children)@[k],
            forall|k: int|
                0 <= k < i ==> #[trigger] trees(children@)[k] == laid(
                    f[k],
                    child_rect(dir, rect, extents@, k),
                ),
            rects@ == old(rects)@ + forest_areas(dir, f, extents@, rect, i as nat),
            seps@ == old(seps)@ + forest_borders(dir, f, extents@, rect, i as nat),
        decreases n - i,
    {
        let e: usize = extents[i];
        let area = match dir {
            SplitDir::Horizontal => Rect { x: rect.x, y: at, width: rect.width, height: e },
            SplitDir::Vertical => Rect { x: at, y: rect.y, width: e, height: rect.height },
        };
        assert(area == child_rect(dir, rect, extents@, i as int));
        let ghost before = children@;
        assert(children@[i as int].tree() == f[i as int]);
        layout_node(&mut children[i], area, rects, seps);
        assert(forall|k: int| 0 <= k < n && k != i ==> children@[k] == before[k]);
        assert forall|k: int| 0 <= k < i + 1 implies #[trigger] trees(children@)[k] == laid(
            f[k],
            child_rect(dir, rect, extents@, k),
        ) by {
            if k < i {
                assert(trees(before)[k] == before[k].tree());
            }
        }
        at = at.saturating_add(e);
        proof {
            lemma_sum_nonneg(extents@, i as int);
        }
        if i + 1 < n {
            seps.push(
                match dir {
                    SplitDir::Horizontal => Separator {
                        vertical: false,
                        x: rect.x,
                        y: at,
                        length: rect.width,
                    },
                    SplitDir::Vertical => Separator {
                        vertical: true,
                        x: at,
                        y: rect.y,
                        length: rect.height,
                    },
                },
            );
            at = at.saturating_add(1);
        }
        assert(rects@ =~= old(rects)@ + forest_areas(dir, f, extents@, rect, (i + 1) as nat));
        assert(seps@ =~= old(seps)@ + forest_borders(dir, f, extents@, rect, (i + 1) as nat));
        i += 1;
    }
}

/// The windows of a layout are those of the tree, in its order.
pub proof fn areas_cover_leaves(t: Tree, rect: Rect)
    ensures
        areas(t, rect).map_values(|a: (WindowId, Rect)| a.0) == leaves_of(t),
    decreases t, 0nat,
{
    match t {
        Tree::Leaf(id) => {
            assert(areas(t, rect).map_values(|a: (WindowId, Rect)| a.0) =~= leaves_of(t));
        },
        Tree::Split { dir, children, sizes } => {
            lemma_forest_areas_cover(dir, children, cells(dir, rect, sizes), rect, children.len());
        },
    }
}

proof fn lemma_forest_areas_cover(
    dir: SplitDir,
    f: Seq<Tree>,
    c: Seq<usize>,
    rect: Rect,
    n: nat,
)
    requires
        n <= f.len(),
    ensures
        forest_areas(dir, f, c, rect, n).map_values(|a: (WindowId, Rect)| a.0) == forest_leaves(
            f,
            n,
        ),
    decreases f, n,
{
    if n > 0 {
        lemma_forest_areas_cover(dir, f, c, rect, (n - 1) as nat);
        areas_cover_leaves(f[n - 1], child_rect(dir, rect, c, n - 1));
    }
    assert(forest_areas(dir, f, c, rect, n).map_values(|a: (WindowId, Rect)| a.0)
        =~= forest_leaves(f, n));
}

/// Laying a tree out keeps its windows, their order and its shape.
pub proof fn layout_keeps_leaves(t: Tree, rect: Rect)
    requires
        well_shaped(t),
    ensures
        leaves_of(laid(t, rect)) == leaves_of(t),
        well_shaped(laid(t, rect)),
    decreases t, 0nat,
{
    match t {
        Tree::Leaf(_) => {},
        Tree::Split { dir, children, sizes } => {
            let c = cells(dir, rect, sizes);
            let r = laid(t, rect)->children;
            lemma_all_well_shaped(children, children.len());
            lemma_distributed_len(room(dir, rect, sizes.len()), sizes);
            lemma_forest_layout_keeps(dir, children, c, rect, r, children.len());
            lemma_all_well_shaped(r, r.len());
        },
    }
}

proof fn lemma_distributed_len(avail: int, sizes: Seq<usize>)
    requires
        0 <= avail <= usize::MAX,
        0 < sizes.len(),
    ensures
        distributed(avail, sizes).len() == sizes.len(),
{
    distribute_hands_out_all(avail, sizes);
}

proof fn lemma_forest_layout_keeps(
    dir: SplitDir,
    f: Seq<Tree>,
    c: Seq<usize>,
    rect: Rect,
    r: Seq<Tree>,
    n: nat,
)
    requires
        n <= f.len() == r.len(),
        forall|i: int| 0 <= i < f.len() ==> well_shaped(#[trigger] f[i]),
        forall|i: int|
            0 <= i < f.len() ==> #[trigger] r[i] == laid(f[i], child_rect(dir, rect, c, i)),
    ensures
        forest_leaves(r, n) == forest_leaves(f, n),
        forall|i: int| 0 <= i < n ==> well_shaped(#[trigger] r[i]),
    decreases f, n,
{
    if n > 0 {
        lemma_forest_layout_keeps(dir, f, c, rect, r, (n - 1) as nat);
        layout_keeps_leaves(f[n - 1], child_rect(dir, rect, c, n - 1));
        assert(r[n - 1] == laid(f[n - 1], child_rect(dir, rect, c, n - 1)));
    }
}

/// Laying out a second time in the same area changes nothing.
pub proof fn layout_is_stable(t: Tree, rect: Rect)
    requires
        well_shaped(t),
    ensures
        laid(laid(t, rect), rect) == laid(t, rect),
        areas(laid(t, rect), rect) == areas(t, rect),
        borders(laid(t, rect), rect) == borders(t, rect),
    decreases t, 0nat,
{
    match t {
        Tree::Leaf(_) => {},
        Tree::Split { dir, children, sizes } => {
            let c = cells(dir, rect, sizes);
            let once = laid(t, rect);
            lemma_all_well_shaped(children, children.len());
            distribute_is_stable(room(dir, rect, sizes.len()), sizes);
            lemma_distributed_len(room(dir, rect, sizes.len()), sizes);
            assert(cells(dir, rect, c) == c);
            lemma_forest_stable(dir, children, c, rect, once->children, children.len());
            assert forall|i: int| 0 <= i < children.len() implies laid(once, rect)->children[i]
                == once->children[i] by {
                assert(once->children[i] == laid(children[i], child_rect(dir, rect, c, i)));
            }
            assert(laid(once, rect)->children =~= once->children);
        },
    }
}

proof fn lemma_forest_stable(
    dir: SplitDir,
    f: Seq<Tree>,
    c: Seq<usize>,
    rect: Rect,
    r: Seq<Tree>,
    n: nat,
)
    requires
        n <= f.len() == r.len(),
        forall|i: int| 0 <= i < f.len() ==> well_shaped(#[trigger] f[i]),
        forall|i: int|
            0 <= i < f.len() ==> #[trigger] r[i] == laid(f[i], child_rect(dir, rect, c, i)),
    ensures
        forall|i: int| 0 <= i < n ==> laid(#[trigger] r[i], child_rect(dir, rect, c, i)) == r[i],
        forest_areas(dir, r, c, rect, n) == forest_areas(dir, f, c, rect, n),
        forest_borders(dir, r, c, rect, n) == forest_borders(dir, f, c, rect, n),
    decreases f, n,
{
    if n > 0 {
        lemma_forest_stable(dir, f, c, rect, r, (n - 1) as nat);
        layout_is_stable(f[n - 1], child_rect(dir, rect, c, n - 1));
        assert(r[n - 1] == laid(f[n - 1], child_rect(dir, rect, c, n - 1)));
    }
}

/// `inner` lies inside `outer`.
pub open spec fn within(inner: Rect, outer: Rect) -> bool {
    &&& outer.x <= inner.x
    &&& outer.y <= inner.y
    &&& inner.x + inner.width <= outer.x + outer.width
    &&& inner.y + inner.height <= outer.y + outer.height
}

/// No cell belongs to both.
pub open spec fn apart(a: Rect, b: Rect) -> bool {
    a.x + a.width <= b.x || b.x + b.width <= a.x || a.y + a.height <= b.y || b.y + b.height <= a.y
}

/// Every split of the tree has room for its borders when the tree is laid out in
/// `rect`.
pub open spec fn has_room(t: Tree, rect: Rect) -> bool
    decreases t, 0nat,
{
    match t {
        Tree::Leaf(_) => true,
        Tree::Split { dir, children, sizes } => extent(dir, rect) + 1 >= children.len()
            && forest_has_room(dir, children, cells(dir, rect, sizes), rect, children.len()),
    }
}

pub open spec fn forest_has_room(
    dir: SplitDir,
    f: Seq<Tree>,
    c: Seq<usize>,
    rect: Rect,
    n: nat,
) -> bool
    decreases f, n,
{
    n == 0 || n > f.len() || (forest_has_room(dir, f, c, rect, (n - 1) as nat) && has_room(
        f[n - 1],
        child_rect(dir, rect, c, n - 1),
    ))
}

/// Windows do not overlap, and none leaves the area that is laid out.
pub proof fn areas_tile(t: Tree, rect: Rect)
    requires
        well_shaped(t),
        has_room(t, rect),
        rect.x + rect.width <= usize::MAX,
        rect.y + rect.height <= usize::MAX,
    ensures
        forall|i: int| 0 <= i < areas(t, rect).len() ==> within(#[trigger] areas(t, rect)[i].1, rect),
        forall|i: int, j: int|
            0 <= i < j < areas(t, rect).len() ==> apart(
                #[trigger] areas(t, rect)[i].1,
                #[trigger] areas(t, rect)[j].1,
            ),
    decreases t, 0nat,
{
    match t {
        Tree::Leaf(id) => {
            assert(areas(t, rect) == seq![(id, rect)]);
        },
        Tree::Split { dir, children, sizes } => {
            let c = cells(dir, rect, sizes);
            let n = children.len() as int;
            lemma_all_well_shaped(children, children.len());
            distribute_hands_out_all(room(dir, rect, sizes.len()), sizes);
            assert(sum_of(c, n) + n - 1 == extent(dir, rect));
            lemma_forest_tile(dir, children, c, rect, children.len());
            let all = forest_areas(dir, children, c, rect, children.len());
            assert(areas(t, rect) == all);
            assert forall|i: int| 0 <= i < all.len() implies within(#[trigger] all[i].1, rect) by {
                assert(within(all[i].1, strip(dir, rect, c, n)));
            }
        },
    }
}

/// The strip of `rect` that the first `n` children of a split and the borders after
/// them take up.
spec fn strip(dir: SplitDir, rect: Rect, c: Seq<usize>, n: int) -> Rect {
    let used = if n == 0 {
        0
    } else {
        sum_of(c, n) + n - 1
    };
    match dir {
        SplitDir::Horizontal => Rect { height: used as usize, ..rect },
        SplitDir::Vertical => Rect { width: used as usize, ..rect },
    }
}

proof fn lemma_forest_tile(dir: SplitDir, f: Seq<Tree>, c: Seq<usize>, rect: Rect, n: nat)
    requires
        n <= f.len() == c.len(),
        forall|i: int| 0 <= i < f.len() ==> well_shaped(#[trigger] f[i]),
        forest_has_room(dir, f, c, rect, n),
        rect.x + rect.width <= usize::MAX,
        rect.y + rect.height <= usize::MAX,
        sum_of(c, f.len() as int) + f.len() - 1 <= extent(dir, rect),
    ensures
        forall|i: int|
            0 <= i < forest_areas(dir, f, c, rect, n).len() ==> within(
                #[trigger] forest_areas(dir, f, c, rect, n)[i].1,
                strip(dir, rect, c, n as int),
            ),
        within(strip(dir, rect, c, n as int), rect),
        forall|i: int, j: int|
            0 <= i < j < forest_areas(dir, f, c, rect, n).len() ==> apart(
                #[trigger] forest_areas(dir, f, c, rect, n)[i].1,
                #[trigger] forest_areas(dir, f, c, rect, n)[j].1,
            ),
    decreases f, n,
{
    lemma_sum_part(c, n as int, f.len() as int);
    lemma_sum_nonneg(c, n as int);
    if n > 0 {
        lemma_forest_tile(dir, f, c, rect, (n - 1) as nat);
        lemma_sum_nonneg(c, n - 1);
        let cr = child_rect(dir, rect, c, n - 1);
        areas_tile(f[n - 1], cr);
        let before = forest_areas(dir, f, c, rect, (n - 1) as nat);
        let mine = areas(f[n - 1], cr);
        let all = forest_areas(dir, f, c, rect, n);
        assert(all == before + mine);
        let sb = strip(dir, rect, c, n - 1);
        let sn = strip(dir, rect, c, n as int);
        assert(within(cr, sn));
        assert(within(sb, sn));
        assert forall|i: int| 0 <= i < all.len() implies within(#[trigger] all[i].1, sn) by {
            if i < before.len() {
                assert(all[i] == before[i]);
                assert(within(before[i].1, sb));
            } else {
                assert(all[i] == mine[i - before.len()]);
                assert(within(mine[i - before.len()].1, cr));
            }
        }
        assert forall|i: int, j: int| 0 <= i < j < all.len() implies apart(
            #[trigger] all[i].1,
            #[trigger] all[j].1,
        ) by {
            if j < before.len() {
                assert(apart(before[i].1, before[j].1));
            } else if i >= before.len() {
                assert(apart(mine[i - before.len()].1, mine[j - before.len()].1));
            } else {
                assert(within(before[i].1, sb));
                assert(within(mine[j - before.len()].1, cr));
            }
        }
    }
}

/// Every tree has a leaf.
pub proof fn lemma_leaves_nonempty(t: Tree)
    requires
        well_shaped(t),
    ensures
        leaves_of(t).len() > 0,
    decreases t,
{
    match t {
        Tree::Leaf(_) => {},
        Tree::Split { children, .. } => {
            lemma_all_well_shaped(children, children.len());
            lemma_leaves_nonempty(children[children.len() - 1]);
        },
    }
}

/// A cell belongs to an area.
pub open spec fn has_cell(r: Rect, x: int, y: int) -> bool {
    r.x <= x < r.x + r.width && r.y <= y < r.y + r.height
}

/// The area that a border takes: one column, or one row.
pub open spec fn border_area(s: Separator) -> Rect {
    if s.vertical {
        Rect { x: s.x, y: s.y, width: 1, height: s.length }
    } else {
        Rect { x: s.x, y: s.y, width: s.length, height: 1 }
    }
}

/// How many of the windows have a cell.
pub open spec fn windows_at(s: Seq<(WindowId, Rect)>, x: int, y: int) -> nat
    decreases s.len(),
{
    if s.len() == 0 {
        0
    } else {
        windows_at(s.drop_last(), x, y) + if has_cell(s.last().1, x, y) {
            1nat
        } else {
            0nat
        }
    }
}

/// How many of the borders have a cell.
pub open spec fn borders_at(s: Seq<Separator>, x: int, y: int) -> nat
    decreases s.len(),
{
    if s.len() == 0 {
        0
    } else {
        borders_at(s.drop_last(), x, y) + if has_cell(border_area(s.last()), x, y) {
            1nat
        } else {
            0nat
        }
    }
}

proof fn lemma_windows_at(a: Seq<(WindowId, Rect)>, b: Seq<(WindowId, Rect)>, x: int, y: int)
    ensures
        windows_at(a + b, x, y) == windows_at(a, x, y) + windows_at(b, x, y),
    decreases b.len(),
{
    if b.len() == 0 {
        assert(a + b =~= a);
    } else {
        assert((a + b).drop_last() =~= a + b.drop_last());
        lemma_windows_at(a, b.drop_last(), x, y);
    }
}

proof fn lemma_borders_at(a: Seq<Separator>, b: Seq<Separator>, x: int, y: int)
    ensures
        borders_at(a + b, x, y) == borders_at(a, x, y) + borders_at(b, x, y),
    decreases b.len(),
{
    if b.len() == 0 {
        assert(a + b =~= a);
    } else {
        assert((a + b).drop_last() =~= a + b.drop_last());
        lemma_borders_at(a, b.drop_last(), x, y);
    }
}

/// A border alone has the cells of its area.
proof fn lemma_one_border(b: Separator, x: int, y: int)
    ensures
        borders_at(seq![b], x, y) == if has_cell(border_area(b), x, y) {
            1nat
        } else {
            0nat
        },
{
    let s = seq![b];
    assert(s.last() == b);
    assert(s.drop_last() =~= Seq::<Separator>::empty());
    assert(borders_at(s.drop_last(), x, y) == 0);
}

/// A window alone has the cells of its area.
proof fn lemma_one_window(id: WindowId, r: Rect, x: int, y: int)
    ensures
        windows_at(seq![(id, r)], x, y) == if has_cell(r, x, y) {
            1nat
        } else {
            0nat
        },
{
    let s = seq![(id, r)];
    assert(s.last() == (id, r));
    assert(s.drop_last() =~= Seq::<(WindowId, Rect)>::empty());
    assert(windows_at(s.drop_last(), x, y) == 0);
}

/// The part of `rect` that the first `n` children of a split take up, with the borders after
/// them where the split goes on.
spec fn taken(dir: SplitDir, rect: Rect, c: Seq<usize>, n: int, len: int) -> Rect {
    let used = sum_of(c, n) + if n < len {
        n
    } else {
        n - 1
    };
    match dir {
        SplitDir::Horizontal => Rect { height: used as usize, ..rect },
        SplitDir::Vertical => Rect { width: used as usize, ..rect },
    }
}

#[verifier::spinoff_prover]
proof fn lemma_forest_covers(
    dir: SplitDir,
    f: Seq<Tree>,
    c: Seq<usize>,
    rect: Rect,
    n: nat,
    x: int,
    y: int,
)
    requires
        n <= f.len() == c.len(),
        f.len() >= 2,
        forall|i: int| 0 <= i < f.len() ==> well_shaped(#[trigger] f[i]),
        forest_has_room(dir, f, c, rect, n),
        rect.x + rect.width <= usize::MAX,
        rect.y + rect.height <= usize::MAX,
        sum_of(c, f.len() as int) + f.len() - 1 == extent(dir, rect),
    ensures
        windows_at(forest_areas(dir, f, c, rect, n), x, y) + borders_at(
            forest_borders(dir, f, c, rect, n),
            x,
            y,
        ) == if has_cell(taken(dir, rect, c, n as int, f.len() as int), x, y) {
            1nat
        } else {
            0nat
        },
    decreases f, n,
{
    let len = f.len() as int;
    lemma_sum_part(c, n as int, len);
    lemma_sum_nonneg(c, n as int);
    if n > 0 {
        let m = (n - 1) as nat;
        lemma_forest_covers(dir, f, c, rect, m, x, y);
        lemma_sum_part(c, n - 1, len);
        lemma_sum_nonneg(c, n - 1);
        let cr = child_rect(dir, rect, c, n - 1);
        cells_are_taken_once(f[n - 1], cr, x, y);
        lemma_windows_at(forest_areas(dir, f, c, rect, m), areas(f[n - 1], cr), x, y);
        let before = forest_borders(dir, f, c, rect, m);
        let mine = borders(f[n - 1], cr);
        lemma_borders_at(before, mine, x, y);
        if n < len {
            let b = border_after(dir, rect, c, n - 1);
            lemma_borders_at(before + mine, seq![b], x, y);
            lemma_one_border(b, x, y);
        } else {
            assert(before + mine + Seq::<Separator>::empty() =~= before + mine);
        }
    }
}

/// Windows and borders make up the area that is laid out: each cell of it belongs to exactly
/// one window or border, and no cell outside it to any.
pub proof fn cells_are_taken_once(t: Tree, rect: Rect, x: int, y: int)
    requires
        well_shaped(t),
        has_room(t, rect),
        rect.x + rect.width <= usize::MAX,
        rect.y + rect.height <= usize::MAX,
    ensures
        windows_at(areas(t, rect), x, y) + borders_at(borders(t, rect), x, y) == if has_cell(
            rect,
            x,
            y,
        ) {
            1nat
        } else {
            0nat
        },
    decreases t, 0nat,
{
    match t {
        Tree::Leaf(id) => {
            assert(areas(t, rect) == seq![(id, rect)]);
            lemma_one_window(id, rect, x, y);
        },
        Tree::Split { dir, children, sizes } => {
            let c = cells(dir, rect, sizes);
            lemma_all_well_shaped(children, children.len());
            distribute_hands_out_all(room(dir, rect, sizes.len()), sizes);
            lemma_forest_covers(dir, children, c, rect, children.len(), x, y);
        },
    }
}

} // verus!
