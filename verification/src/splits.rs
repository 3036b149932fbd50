//! Changes to the window tree: splitting, removing and resizing.

use vstd::prelude::*;

use crate::layout::{
    clip, forest_leaves, leaves_of, lemma_all_well_shaped, lemma_sum_update, sum_of, trees,
    well_shaped, Node, SplitDir, Tree, WindowId,
};

verus! {

/// The weight that a maximised child has against one for each of its siblings.
pub const DOMINANT: usize = 10_000;

/// The tree with the first leaf `target` split in two, the new window first; none
/// where there is no such leaf.
pub open spec fn split_tree(
    t: Tree,
    target: WindowId,
    dir: SplitDir,
    new_id: WindowId,
) -> Option<Tree>
    decreases t, 0nat,
{
    match t {
        Tree::Leaf(id) => if id == target {
            Some(
                Tree::Split {
                    dir,
                    children: seq![Tree::Leaf(new_id), Tree::Leaf(target)],
                    sizes: seq![1usize, 1usize],
                },
            )
        } else {
            None
        },
        Tree::Split { dir: d, children, sizes } => match split_forest(
            children,
            target,
            dir,
            new_id,
            0,
        ) {
            Some(f) => Some(Tree::Split { dir: d, children: f, sizes }),
            None => None,
        },
    }
}

/// The trees from `i` on with the first of them that holds `target` split.
pub open spec fn split_forest(
    f: Seq<Tree>,
    target: WindowId,
    dir: SplitDir,
    new_id: WindowId,
    i: nat,
) -> Option<Seq<Tree>>
    decreases f, f.len() - i,
{
    if i >= f.len() {
        None
    } else {
        match split_tree(f[i as int], target, dir, new_id) {
            Some(t) => Some(f.update(i as int, t)),
            None => split_forest(f, target, dir, new_id, i + 1),
        }
    }
}

/// Replace the leaf `target` with a split of two leaves: the new window first, and
/// the old one second. The result says whether there was such a leaf.
pub fn split_leaf(node: &mut Node, target: WindowId, dir: SplitDir, new_id: WindowId) -> (r: bool)
    ensures
        r == split_tree(old(node).tree(), target, dir, new_id) is Some,
        final(node).tree() == match split_tree(old(node).tree(), target, dir, new_id) {
            Some(t) => t,
            None => old(node).tree(),
        },
    decreases old(node).tree(),
{
    let mut owned = Node::Leaf(WindowId(0));
    core::mem::swap(node, &mut owned);
    let ghost t = owned.tree();
    match owned {
        Node::Leaf(id) => {
            if id == target {
                let mut children: Vec<Node> = Vec::new();
                children.push(Node::Leaf(new_id));
                children.push(Node::Leaf(target));
                let mut sizes: Vec<usize> = Vec::new();
                sizes.push(1);
                sizes.push(1);
                assert(children@[0].tree() == Tree::Leaf(new_id));
                assert(children@[1].tree() == Tree::Leaf(target));
                *node = Node::Split { dir, children, sizes };
                assert(node.tree()->children =~= trees(children@));
                assert(node.tree()->children =~= seq![Tree::Leaf(new_id), Tree::Leaf(target)]);
                assert(node.tree()->sizes =~= seq![1usize, 1usize]);
                true
            } else {
                *node = Node::Leaf(id);
                false
            }
        },
        Node::Split { dir: d, mut children, sizes } => {
            assert(t->children =~= trees(children@));
            let r = split_children(&mut children, target, dir, new_id);
            *node = Node::Split { dir: d, children, sizes };
            assert(node.tree()->children =~= trees(children@));
            r
        },
    }
}

fn split_children(
    children: &mut Vec<Node>,
    target: WindowId,
    dir: SplitDir,
    new_id: WindowId,
) -> (r: bool)
    ensures
        r == split_forest(trees(old(children)@), target, dir, new_id, 0) is Some,
        trees(final(children)@) == match split_forest(
            trees(old(children)@),
            target,
            dir,
            new_id,
            0,
        ) {
            Some(f) => f,
            None => trees(old(children)@),
        },
    decreases trees(old(children)@),
{
    let ghost f = trees(children@);
    let mut i: usize = 0;
    while i < children.len()
        invariant
            i <= children@.len() == f.len(),
            f == trees(old(children)@),
            trees(children@) == f,
            split_forest(f, target, dir, new_id, 0) == split_forest(
                f,
                target,
                dir,
                new_id,
                i as nat,
            ),
        decreases children@.len() - i,
    {
        let ghost before = children@;
        assert(trees(before)[i as int] == before[i as int].tree());
        let hit = split_leaf(&mut children[i], target, dir, new_id);
        assert(trees(children@) =~= trees(before).update(i as int, children@[i as int].tree()));
        if hit {
            return true;
        }
        assert(trees(children@) =~= f);
        i += 1;
    }
    false
}

/// The first of the trees from `i` on that is the leaf `target`; past the end where
/// none is.
pub open spec fn leaf_position(f: Seq<Tree>, target: WindowId, i: int) -> int
    decreases f.len() - i,
{
    if i < 0 || i >= f.len() {
        f.len() as int
    } else if f[i] == Tree::Leaf(target) {
        i
    } else {
        leaf_position(f, target, i + 1)
    }
}

/// A split, or its child where it has only one.
pub open spec fn collapsed(dir: SplitDir, children: Seq<Tree>, sizes: Seq<usize>) -> Tree {
    if children.len() == 1 {
        children[0]
    } else {
        Tree::Split { dir, children, sizes }
    }
}

/// The tree without the leaf `target`, where a split left with one child becomes
/// that child; none where no split holds such a leaf.
pub open spec fn remove_tree(t: Tree, target: WindowId) -> Option<Tree>
    decreases t, 0nat,
{
    match t {
        Tree::Leaf(_) => None,
        Tree::Split { dir, children, sizes } => {
            let p = leaf_position(children, target, 0);
            if p < children.len() {
                Some(collapsed(dir, children.remove(p), sizes.remove(p)))
            } else {
                match remove_forest(children, target, 0) {
                    Some(f) => Some(collapsed(dir, f, sizes)),
                    None => None,
                }
            }
        },
    }
}

/// The trees from `i` on with `target` removed from the first of them that has it.
pub open spec fn remove_forest(f: Seq<Tree>, target: WindowId, i: nat) -> Option<Seq<Tree>>
    decreases f, f.len() - i,
{
    if i >= f.len() {
        None
    } else {
        match remove_tree(f[i as int], target) {
            Some(t) => Some(f.update(i as int, t)),
            None => remove_forest(f, target, i + 1),
        }
    }
}

proof fn lemma_leaf_position(f: Seq<Tree>, target: WindowId, i: int)
    requires
        0 <= i <= f.len(),
    ensures
        i <= leaf_position(f, target, i) <= f.len(),
        leaf_position(f, target, i) < f.len() ==> f[leaf_position(f, target, i)] == Tree::Leaf(
            target,
        ),
        forall|k: int| i <= k < leaf_position(f, target, i) ==> f[k] != Tree::Leaf(target),
    decreases f.len() - i,
{
    if i < f.len() && f[i] != Tree::Leaf(target) {
        lemma_leaf_position(f, target, i + 1);
    }
}

/// Remove the leaf `target`, and put a split's only remaining child in its place.
/// The result says whether there was such a leaf under a split.
pub fn remove_leaf(node: &mut Node, target: WindowId) -> (r: bool)
    requires
        well_shaped(old(node).tree()),
    ensures
        r == remove_tree(old(node).tree(), target) is Some,
        final(node).tree() == match remove_tree(old(node).tree(), target) {
            Some(t) => t,
            None => old(node).tree(),
        },
    decreases old(node).tree(),
{
    let mut owned = Node::Leaf(WindowId(0));
    core::mem::swap(node, &mut owned);
    let ghost t = owned.tree();
    match owned {
        Node::Leaf(id) => {
            *node = Node::Leaf(id);
            false
        },
        Node::Split { dir, mut children, mut sizes } => {
            let ghost f = trees(children@);
            assert(t->children =~= f);
            proof {
                lemma_all_well_shaped(f, f.len());
            }
            let mut p: usize = 0;
            while p < children.len() && !is_leaf(&children[p], target)
                invariant
                    p <= children@.len() == f.len(),
                    f == trees(children@),
                    leaf_position(f, target, 0) == leaf_position(f, target, p as int),
                decreases children@.len() - p,
            {
                assert(f[p as int] == children@[p as int].tree());
                p += 1;
            }
            let removed = if p < children.len() {
                assert(f[p as int] == children@[p as int].tree());
                let _gone = children.remove(p);
                let _size: usize = sizes.remove(p);
                assert(trees(children@) =~= f.remove(p as int));
                true
            } else {
                remove_child(&mut children, target)
            };
            if removed && children.len() == 1 {
                assert(trees(children@)[0] == children@[0].tree());
                *node = children.remove(0);
            } else {
                *node = Node::Split { dir, children, sizes };
                assert(node.tree()->children =~= trees(children@));
            }
            removed
        },
    }
}

fn is_leaf(node: &Node, target: WindowId) -> (r: bool)
    ensures
        r == (node.tree() == Tree::Leaf(target)),
{
    match node {
        Node::Leaf(id) => *id == target,
        Node::Split { .. } => false,
    }
}

fn remove_child(children: &mut Vec<Node>, target: WindowId) -> (r: bool)
    requires
        forall|i: int| 0 <= i < old(children)@.len() ==> well_shaped(#[trigger] trees(old(children)@)[i]),
    ensures
        r == remove_forest(trees(old(children)@), target, 0) is Some,
        trees(final(children)@) == match remove_forest(trees(old(children)@), target, 0) {
            Some(f) => f,
            None => trees(old(children)@),
        },
    decreases trees(old(children)@),
{
    let ghost f = trees(children@);
    let mut i: usize = 0;
    while i < children.len()
        invariant
            i <= children@.len() == f.len(),
            f == trees(old(children)@),
            trees(children@) == f,
            forall|i: int| 0 <= i < f.len() ==> well_shaped(#[trigger] f[i]),
            remove_forest(f, target, 0) == remove_forest(f, target, i as nat),
        decreases children@.len() - i,
    {
        let ghost before = children@;
        assert(trees(before)[i as int] == before[i as int].tree());
        let hit = remove_leaf(&mut children[i], target);
        assert(trees(children@) =~= trees(before).update(i as int, children@[i as int].tree()));
        if hit {
            return true;
        }
        assert(trees(children@) =~= f);
        i += 1;
    }
    false
}

/// The fewest cells that resizing leaves a child along a split: a text row and a
/// status line, or a column.
pub open spec fn least_extent(dir: SplitDir) -> usize {
    match dir {
        SplitDir::Horizontal => 2,
        SplitDir::Vertical => 1,
    }
}

pub fn min_extent(dir: SplitDir) -> (n: usize)
    ensures
        n == least_extent(dir),
{
    match dir {
        SplitDir::Horizontal => 2,
        SplitDir::Vertical => 1,
    }
}

/// What a child of `size` cells can give up.
pub open spec fn spare(size: usize, dir: SplitDir) -> int {
    if size >= least_extent(dir) {
        size - least_extent(dir)
    } else {
        0
    }
}

/// The sibling that a child's resize takes from and gives to: the next one, or the
/// one before the last.
pub open spec fn neighbor(i: int, n: nat) -> int {
    if i + 1 < n {
        i + 1
    } else {
        i - 1
    }
}

/// `n` cells moved from size `from` to size `to`.
pub open spec fn moved(sizes: Seq<usize>, from: int, to: int, n: int) -> Seq<usize> {
    sizes.update(from, (sizes[from] - n) as usize).update(to, clip(sizes[to] + n))
}

/// The sizes once child `i` has grown by `delta` cells at its neighbor's cost, or
/// shrunk to its gain, as far as what either can spare.
pub open spec fn adjusted(sizes: Seq<usize>, i: int, delta: int, dir: SplitDir) -> Seq<usize> {
    let j = neighbor(i, sizes.len());
    if sizes.len() < 2 || delta == 0 {
        sizes
    } else if delta > 0 {
        let s = spare(sizes[j], dir);
        moved(
            sizes,
            j,
            i,
            if delta < s {
                delta
            } else {
                s
            },
        )
    } else {
        let s = spare(sizes[i], dir);
        moved(
            sizes,
            i,
            j,
            if -delta < s {
                -delta
            } else {
                s
            },
        )
    }
}

/// Grow `sizes[i]` by `delta` cells, or shrink it, at the cost or to the gain of its
/// neighbor.
pub fn adjust_sizes(sizes: &mut Vec<usize>, i: usize, delta: isize, dir: SplitDir)
    requires
        i < old(sizes)@.len(),
    ensures
        final(sizes)@ == adjusted(old(sizes)@, i as int, delta as int, dir),
{
    let n: usize = sizes.len();
    if n < 2 || delta == 0 {
        return;
    }
    let j: usize = if i + 1 < n {
        i + 1
    } else {
        i - 1
    };
    let min: usize = min_extent(dir);
    if delta > 0 {
        let spare: usize = sizes[j].saturating_sub(min);
        let give: usize = if (delta as usize) < spare {
            delta as usize
        } else {
            spare
        };
        sizes[j] = sizes[j] - give;
        sizes[i] = sizes[i].saturating_add(give);
    } else {
        let less: usize = (-(delta + 1)) as usize + 1;
        let spare: usize = sizes[i].saturating_sub(min);
        let take: usize = if less < spare {
            less
        } else {
            spare
        };
        sizes[i] = sizes[i] - take;
        sizes[j] = sizes[j].saturating_add(take);
    }
    assert(sizes@ =~= adjusted(old(sizes)@, i as int, delta as int, dir));
}

/// Resizing keeps the whole extent, as long as the two children's cells can be
/// counted together.
pub proof fn adjusting_keeps_the_sum(sizes: Seq<usize>, i: int, delta: int, dir: SplitDir)
    requires
        0 <= i < sizes.len(),
        sizes.len() >= 2 ==> sizes[i] + sizes[neighbor(i, sizes.len())] <= usize::MAX,
    ensures
        adjusted(sizes, i, delta, dir).len() == sizes.len(),
        sum_of(adjusted(sizes, i, delta, dir), sizes.len() as int) == sum_of(
            sizes,
            sizes.len() as int,
        ),
{
    let n = sizes.len() as int;
    if n >= 2 && delta != 0 {
        let j = neighbor(i, sizes.len());
        let (from, to) = if delta > 0 {
            (j, i)
        } else {
            (i, j)
        };
        let s = spare(sizes[from], dir);
        let d = if delta > 0 {
            delta
        } else {
            -delta
        };
        let k = if d < s {
            d
        } else {
            s
        };
        let mid = sizes.update(from, (sizes[from] - k) as usize);
        lemma_sum_update(sizes, from, (sizes[from] - k) as usize, n);
        lemma_sum_update(mid, to, clip(sizes[to] + k), n);
    }
}

/// Resizing takes no child below the least extent that was not below it before.
pub proof fn adjusting_keeps_the_least_extent(
    sizes: Seq<usize>,
    i: int,
    delta: int,
    dir: SplitDir,
    k: int,
)
    requires
        0 <= i < sizes.len(),
        0 <= k < sizes.len(),
        sizes[k] >= least_extent(dir),
    ensures
        adjusted(sizes, i, delta, dir)[k] >= least_extent(dir),
{
}

/// The tree with the child towards leaf `target` of its nearest split along `axis`
/// resized, and whether a split was; none where there is no such leaf.
pub open spec fn resized(
    t: Tree,
    target: WindowId,
    axis: SplitDir,
    delta: int,
    done: bool,
) -> Option<(Tree, bool)>
    decreases t, 0nat,
{
    match t {
        Tree::Leaf(id) => if id == target {
            Some((t, done))
        } else {
            None
        },
        Tree::Split { dir, children, sizes } => match resized_forest(
            children,
            target,
            axis,
            delta,
            done,
            0,
        ) {
            Some((i, c, d)) => if !d && dir == axis {
                Some(
                    (
                        Tree::Split {
                            dir,
                            children: children.update(i, c),
                            sizes: adjusted(sizes, i, delta, axis),
                        },
                        true,
                    ),
                )
            } else {
                Some((Tree::Split { dir, children: children.update(i, c), sizes }, d))
            },
            None => None,
        },
    }
}

/// The first of the trees from `i` on that holds `target`, resized.
pub open spec fn resized_forest(
    f: Seq<Tree>,
    target: WindowId,
    axis: SplitDir,
    delta: int,
    done: bool,
    i: nat,
) -> Option<(int, Tree, bool)>
    decreases f, f.len() - i,
{
    if i >= f.len() {
        None
    } else {
        match resized(f[i as int], target, axis, delta, done) {
            Some((t, d)) => Some((i as int, t, d)),
            None => resized_forest(f, target, axis, delta, done, i + 1),
        }
    }
}

/// At the nearest split along `axis` above leaf `target`, resize the child towards
/// it by `delta` cells. The result says whether `target` is under this node; `done`
/// records that a split was resized.
pub fn resize_toward(
    node: &mut Node,
    target: WindowId,
    axis: SplitDir,
    delta: isize,
    done: &mut bool,
) -> (r: bool)
    requires
        well_shaped(old(node).tree()),
    ensures
        r == resized(old(node).tree(), target, axis, delta as int, *old(done)) is Some,
        (final(node).tree(), *final(done)) == match resized(
            old(node).tree(),
            target,
            axis,
            delta as int,
            *old(done),
        ) {
            Some(td) => td,
            None => (old(node).tree(), *old(done)),
        },
    decreases old(node).tree(),
{
    let mut owned = Node::Leaf(WindowId(0));
    core::mem::swap(node, &mut owned);
    let ghost t = owned.tree();
    match owned {
        Node::Leaf(id) => {
            *node = Node::Leaf(id);
            id == target
        },
        Node::Split { dir, mut children, mut sizes } => {
            let ghost f = trees(children@);
            assert(t->children =~= f);
            proof {
                lemma_all_well_shaped(f, f.len());
            }
            let on_path = resize_child(&mut children, target, axis, delta, done);
            let found = match on_path {
                Some(i) => {
                    if !*done && dir == axis {
                        adjust_sizes(&mut sizes, i, delta, axis);
                        *done = true;
                    }
                    true
                },
                None => false,
            };
            *node = Node::Split { dir, children, sizes };
            assert(node.tree()->children =~= trees(children@));
            found
        },
    }
}

fn resize_child(
    children: &mut Vec<Node>,
    target: WindowId,
    axis: SplitDir,
    delta: isize,
    done: &mut bool,
) -> (r: Option<usize>)
    requires
        forall|i: int| 0 <= i < old(children)@.len() ==> well_shaped(#[trigger] trees(old(children)@)[i]),
    ensures
        final(children)@.len() == old(children)@.len(),
        match resized_forest(
            trees(old(children)@),
            target,
            axis,
            delta as int,
            *old(done),
            0,
        ) {
            Some((i, t, d)) => {
                &&& r is Some && r->0 == i
                &&& 0 <= i < old(children)@.len()
                &&& trees(final(children)@) == trees(old(children)@).update(i, t)
                &&& *final(done) == d
            },
            None => r is None && trees(final(children)@) == trees(old(children)@) && *final(done)
                == *old(done),
        },
    decreases trees(old(children)@),
{
    let ghost f = trees(children@);
    let mut i: usize = 0;
    while i < children.len()
        invariant
            i <= children@.len() == f.len(),
            f == trees(old(children)@),
            trees(children@) == f,
            *done == *old(done),
            forall|i: int| 0 <= i < f.len() ==> well_shaped(#[trigger] f[i]),
            resized_forest(f, target, axis, delta as int, *old(done), 0) == resized_forest(
                f,
                target,
                axis,
                delta as int,
                *old(done),
                i as nat,
            ),
        decreases children@.len() - i,
    {
        let ghost before = children@;
        assert(trees(before)[i as int] == before[i as int].tree());
        let hit = resize_toward(&mut children[i], target, axis, delta, done);
        assert(trees(children@) =~= trees(before).update(i as int, children@[i as int].tree()));
        if hit {
            return Some(i);
        }
        assert(trees(children@) =~= f);
        i += 1;
    }
    None
}

/// Sizes that give child `i` the lion's share.
pub open spec fn dominated(n: nat, i: int) -> Seq<usize> {
    Seq::new(
        n,
        |k: int|
            if k == i {
                DOMINANT
            } else {
                1usize
            },
    )
}

/// The tree with the child towards leaf `target` given the lion's share at every
/// split along `axis`; none where there is no such leaf.
pub open spec fn maximized(t: Tree, target: WindowId, axis: SplitDir) -> Option<Tree>
    decreases t, 0nat,
{
    match t {
        Tree::Leaf(id) => if id == target {
            Some(t)
        } else {
            None
        },
        Tree::Split { dir, children, sizes } => match maximized_forest(
            children,
            target,
            axis,
            0,
        ) {
            Some((i, c)) => Some(
                Tree::Split {
                    dir,
                    children: children.update(i, c),
                    sizes: if dir == axis {
                        dominated(sizes.len(), i)
                    } else {
                        sizes
                    },
                },
            ),
            None => None,
        },
    }
}

/// The first of the trees from `i` on that holds `target`, maximised.
pub open spec fn maximized_forest(
    f: Seq<Tree>,
    target: WindowId,
    axis: SplitDir,
    i: nat,
) -> Option<(int, Tree)>
    decreases f, f.len() - i,
{
    if i >= f.len() {
        None
    } else {
        match maximized(f[i as int], target, axis) {
            Some(t) => Some((i as int, t)),
            None => maximized_forest(f, target, axis, i + 1),
        }
    }
}

fn dominate(sizes: &mut Vec<usize>, i: usize)
    requires
        i < old(sizes)@.len(),
    ensures
        final(sizes)@ == dominated(old(sizes)@.len(), i as int),
{
    reset_sizes(sizes);
    sizes[i] = DOMINANT;
    assert(sizes@ =~= dominated(old(sizes)@.len(), i as int));
}

fn reset_sizes(sizes: &mut Vec<usize>)
    ensures
        final(sizes)@ == Seq::new(old(sizes)@.len(), |k: int| 1usize),
{
    let n: usize = sizes.len();
    let mut k: usize = 0;
    while k < n
        invariant
            k <= n == sizes@.len() == old(sizes)@.len(),
            forall|m: int| 0 <= m < k ==> sizes@[m] == 1,
        decreases n - k,
    {
        sizes[k] = 1;
        k += 1;
    }
    assert(sizes@ =~= Seq::new(old(sizes)@.len(), |k: int| 1usize));
}

/// Maximise leaf `target` along `axis` at every split above it. The result says
/// whether `target` is under this node.
pub fn maximize_toward(node: &mut Node, target: WindowId, axis: SplitDir) -> (r: bool)
    requires
        well_shaped(old(node).tree()),
    ensures
        r == maximized(old(node).tree(), target, axis) is Some,
        final(node).tree() == match maximized(old(node).tree(), target, axis) {
            Some(t) => t,
            None => old(node).tree(),
        },
    decreases old(node).tree(),
{
    let mut owned = Node::Leaf(WindowId(0));
    core::mem::swap(node, &mut owned);
    let ghost t = owned.tree();
    match owned {
        Node::Leaf(id) => {
            *node = Node::Leaf(id);
            id == target
        },
        Node::Split { dir, mut children, mut sizes } => {
            let ghost f = trees(children@);
            assert(t->children =~= f);
            proof {
                lemma_all_well_shaped(f, f.len());
            }
            let on_path = maximize_child(&mut children, target, axis);
            let found = match on_path {
                Some(i) => {
                    if dir == axis {
                        dominate(&mut sizes, i);
                    }
                    true
                },
                None => false,
            };
            *node = Node::Split { dir, children, sizes };
            assert(node.tree()->children =~= trees(children@));
            found
        },
    }
}

fn maximize_child(children: &mut Vec<Node>, target: WindowId, axis: SplitDir) -> (r: Option<usize>)
    requires
        forall|i: int| 0 <= i < old(children)@.len() ==> well_shaped(#[trigger] trees(old(children)@)[i]),
    ensures
        final(children)@.len() == old(children)@.len(),
        match maximized_forest(trees(old(children)@), target, axis, 0) {
            Some((i, t)) => {
                &&& r is Some && r->0 == i
                &&& 0 <= i < old(children)@.len()
                &&& trees(final(children)@) == trees(old(children)@).update(i, t)
            },
            None => r is None && trees(final(children)@) == trees(old(children)@),
        },
    decreases trees(old(children)@),
{
    let ghost f = trees(children@);
    let mut i: usize = 0;
    while i < children.len()
        invariant
            i <= children@.len() == f.len(),
            f == trees(old(children)@),
            trees(children@) == f,
            forall|i: int| 0 <= i < f.len() ==> well_shaped(#[trigger] f[i]),
            maximized_forest(f, target, axis, 0) == maximized_forest(f, target, axis, i as nat),
        decreases children@.len() - i,
    {
        let ghost before = children@;
        assert(trees(before)[i as int] == before[i as int].tree());
        let hit = maximize_toward(&mut children[i], target, axis);
        assert(trees(children@) =~= trees(before).update(i as int, children@[i as int].tree()));
        if hit {
            return Some(i);
        }
        assert(trees(children@) =~= f);
        i += 1;
    }
    None
}

/// The tree with all sizes of every split equal.
pub open spec fn equalized(t: Tree) -> Tree
    decreases t,
{
    match t {
        Tree::Leaf(id) => Tree::Leaf(id),
        Tree::Split { dir, children, sizes } => Tree::Split {
            dir,
            children: Seq::new(
                children.len(),
                |i: int|
                    if 0 <= i < children.len() {
                        equalized(children[i])
                    } else {
                        arbitrary()
                    },
            ),
            sizes: Seq::new(sizes.len(), |k: int| 1usize),
        },
    }
}

/// Make the sizes of every split equal.
pub fn equalize_node(node: &mut Node)
    ensures
        final(node).tree() == equalized(old(node).tree()),
    decreases old(node).tree(),
{
    let mut owned = Node::Leaf(WindowId(0));
    core::mem::swap(node, &mut owned);
    let ghost t = owned.tree();
    match owned {
        Node::Leaf(id) => {
            *node = Node::Leaf(id);
        },
        Node::Split { dir, mut children, mut sizes } => {
            assert(t->children =~= trees(children@));
            let ghost f = trees(children@);
            reset_sizes(&mut sizes);
            equalize_children(&mut children);
            *node = Node::Split { dir, children, sizes };
            assert forall|i: int| 0 <= i < f.len() implies node.tree()->children[i] == equalized(
                t,
            )->children[i] by {
                assert(node.tree()->children[i] == trees(children@)[i]);
            }
            assert(node.tree()->children =~= equalized(t)->children);
        },
    }
}

fn equalize_children(children: &mut Vec<Node>)
    ensures
        final(children)@.len() == old(children)@.len(),
        forall|i: int|
            0 <= i < old(children)@.len() ==> #[trigger] trees(final(children)@)[i] == equalized(
                trees(old(children)@)[i],
            ),
    decreases trees(old(children)@),
{
    let ghost f = trees(children@);
    let mut i: usize = 0;
    while i < children.len()
        invariant
            i <= children@.len() == f.len(),
            f == trees(old(children)@),
            forall|k: int| 0 <= k < i ==> #[trigger] trees(children@)[k] == equalized(f[k]),
            forall|k: int| i <= k < f.len() ==> #[trigger] trees(children@)[k] == f[k],
        decreases children@.len() - i,
    {
        let ghost before = children@;
        assert(trees(before)[i as int] == before[i as int].tree());
        equalize_node(&mut children[i]);
        assert(trees(children@) =~= trees(before).update(i as int, children@[i as int].tree()));
        i += 1;
    }
}

/// How often `x` occurs.
pub open spec fn occurrences(s: Seq<WindowId>, x: WindowId) -> nat
    decreases s.len(),
{
    if s.len() == 0 {
        0
    } else {
        occurrences(s.drop_last(), x) + if s.last() == x {
            1nat
        } else {
            0nat
        }
    }
}

pub proof fn lemma_occurrences_add(a: Seq<WindowId>, b: Seq<WindowId>, x: WindowId)
    ensures
        occurrences(a + b, x) == occurrences(a, x) + occurrences(b, x),
    decreases b.len(),
{
    if b.len() == 0 {
        assert(a + b =~= a);
    } else {
        assert((a + b).drop_last() =~= a + b.drop_last());
        lemma_occurrences_add(a, b.drop_last(), x);
    }
}

pub proof fn lemma_occurrences_contains(s: Seq<WindowId>, x: WindowId)
    ensures
        occurrences(s, x) > 0 <==> s.contains(x),
    decreases s.len(),
{
    if s.len() > 0 {
        lemma_occurrences_contains(s.drop_last(), x);
        if s.contains(x) && s.last() != x {
            let i = choose|i: int| 0 <= i < s.len() && s[i] == x;
            assert(s.drop_last()[i] == x);
        }
        if s.drop_last().contains(x) {
            let i = choose|i: int| 0 <= i < s.drop_last().len() && s.drop_last()[i] == x;
            assert(s[i] == x);
        }
        if s.last() == x {
            assert(s[s.len() - 1] == x);
        }
    }
}

/// How often window `x` occurs in a tree.
pub open spec fn times_in(t: Tree, x: WindowId) -> nat {
    occurrences(leaves_of(t), x)
}

proof fn lemma_forest_update(f: Seq<Tree>, i: int, t: Tree, n: nat, x: WindowId)
    requires
        0 <= i < f.len(),
        n <= f.len(),
    ensures
        occurrences(forest_leaves(f.update(i, t), n), x) == occurrences(forest_leaves(f, n), x) + (
        if i < n {
            times_in(t, x) - times_in(f[i], x)
        } else {
            0int
        }),
    decreases n,
{
    if n > 0 {
        let g = f.update(i, t);
        lemma_forest_update(f, i, t, (n - 1) as nat, x);
        lemma_occurrences_add(forest_leaves(f, (n - 1) as nat), leaves_of(f[n - 1]), x);
        lemma_occurrences_add(forest_leaves(g, (n - 1) as nat), leaves_of(g[n - 1]), x);
    }
}

proof fn lemma_forest_remove(f: Seq<Tree>, p: int, n: nat, x: WindowId)
    requires
        0 <= p < f.len(),
        n < f.len(),
    ensures
        occurrences(forest_leaves(f.remove(p), n), x) == if n <= p {
            occurrences(forest_leaves(f, n), x) as int
        } else {
            occurrences(forest_leaves(f, n + 1), x) - times_in(f[p], x)
        },
    decreases n,
{
    let g = f.remove(p);
    if n > 0 {
        lemma_forest_remove(f, p, (n - 1) as nat, x);
        lemma_occurrences_add(forest_leaves(g, (n - 1) as nat), leaves_of(g[n - 1]), x);
        lemma_occurrences_add(forest_leaves(f, (n - 1) as nat), leaves_of(f[n - 1]), x);
        lemma_occurrences_add(forest_leaves(f, n), leaves_of(f[n as int]), x);
    }
}

proof fn lemma_forest_has(f: Seq<Tree>, i: int, n: nat, x: WindowId)
    requires
        0 <= i < n <= f.len(),
    ensures
        times_in(f[i], x) <= occurrences(forest_leaves(f, n), x),
    decreases n,
{
    lemma_occurrences_add(forest_leaves(f, (n - 1) as nat), leaves_of(f[n - 1]), x);
    if i < n - 1 {
        lemma_forest_has(f, i, (n - 1) as nat, x);
    }
}

proof fn lemma_forest_lacks(f: Seq<Tree>, n: nat, x: WindowId)
    requires
        n <= f.len(),
        forall|i: int| 0 <= i < n ==> times_in(#[trigger] f[i], x) == 0,
    ensures
        occurrences(forest_leaves(f, n), x) == 0,
    decreases n,
{
    if n > 0 {
        lemma_forest_lacks(f, (n - 1) as nat, x);
        lemma_occurrences_add(forest_leaves(f, (n - 1) as nat), leaves_of(f[n - 1]), x);
    }
}

proof fn lemma_leaf_once(id: WindowId, x: WindowId)
    ensures
        times_in(Tree::Leaf(id), x) == if id == x {
            1nat
        } else {
            0nat
        },
{
    let s = leaves_of(Tree::Leaf(id));
    assert(s =~= seq![id]);
    assert(s.drop_last() =~= Seq::<WindowId>::empty());
    assert(occurrences(s.drop_last(), x) == 0);
}

/// A window can be split exactly if the tree has it. The split adds the new window
/// and changes how often no other occurs.
pub proof fn split_adds_one(t: Tree, target: WindowId, dir: SplitDir, new_id: WindowId)
    requires
        well_shaped(t),
    ensures
        split_tree(t, target, dir, new_id) is Some <==> leaves_of(t).contains(target),
        split_tree(t, target, dir, new_id) matches Some(r) ==> well_shaped(r) && forall|x: WindowId|
            #[trigger]
            times_in(r, x) == times_in(t, x) + if x == new_id {
                1nat
            } else {
                0nat
            },
    decreases t, 0nat,
{
    lemma_occurrences_contains(leaves_of(t), target);
    match t {
        Tree::Leaf(id) => {
            lemma_leaf_once(id, target);
            if id == target {
                let r = split_tree(t, target, dir, new_id)->0;
                let f = r->children;
                assert(well_shaped(f[0]) && well_shaped(f[1]));
                lemma_all_well_shaped(f, 2);
                assert forall|x: WindowId| #[trigger] times_in(r, x) == times_in(t, x) + if x
                    == new_id {
                    1nat
                } else {
                    0nat
                } by {
                    lemma_leaf_once(new_id, x);
                    lemma_leaf_once(target, x);
                    reveal_with_fuel(forest_leaves, 3);
                    assert(forest_leaves(f, 1) =~= leaves_of(f[0]));
                    lemma_occurrences_add(forest_leaves(f, 1), leaves_of(f[1]), x);
                }
            }
        },
        Tree::Split { dir: d, children, sizes } => {
            lemma_all_well_shaped(children, children.len());
            lemma_split_forest(children, target, dir, new_id, 0);
            match split_forest(children, target, dir, new_id, 0) {
                Some(f) => {
                    lemma_all_well_shaped(f, f.len());
                    let r = split_tree(t, target, dir, new_id)->0;
                    assert forall|x: WindowId| #[trigger] times_in(r, x) == times_in(t, x) + if x
                        == new_id {
                        1nat
                    } else {
                        0nat
                    } by {
                        assert(leaves_of(r) == forest_leaves(f, children.len()));
                        assert(occurrences(forest_leaves(f, children.len()), x) >= 0);
                    }
                },
                None => {
                    lemma_forest_lacks(children, children.len(), target);
                },
            }
        },
    }
}

proof fn lemma_split_forest(
    f: Seq<Tree>,
    target: WindowId,
    dir: SplitDir,
    new_id: WindowId,
    i: nat,
)
    requires
        forall|k: int| 0 <= k < f.len() ==> well_shaped(#[trigger] f[k]),
        i <= f.len(),
    ensures
        match split_forest(f, target, dir, new_id, i) {
            Some(g) => {
                &&& g.len() == f.len()
                &&& forall|k: int| 0 <= k < f.len() ==> well_shaped(#[trigger] g[k])
                &&& occurrences(forest_leaves(f, f.len()), target) > 0
                &&& forall|x: WindowId|
                    #[trigger]
                    occurrences(forest_leaves(g, f.len()), x) == occurrences(
                        forest_leaves(f, f.len()),
                        x,
                    ) + if x == new_id {
                        1nat
                    } else {
                        0nat
                    }
            },
            None => forall|k: int| i <= k < f.len() ==> times_in(#[trigger] f[k], target) == 0,
        },
    decreases f, f.len() - i,
{
    if i < f.len() {
        let k = i as int;
        split_adds_one(f[k], target, dir, new_id);
        lemma_occurrences_contains(leaves_of(f[k]), target);
        match split_tree(f[k], target, dir, new_id) {
            Some(t) => {
                lemma_forest_has(f, k, f.len(), target);
                let g = f.update(k, t);
                assert forall|x: WindowId| #[trigger]
                    occurrences(forest_leaves(g, f.len()), x) == occurrences(
                        forest_leaves(f, f.len()),
                        x,
                    ) + if x == new_id {
                        1nat
                    } else {
                        0nat
                    } by {
                    lemma_forest_update(f, k, t, f.len(), x);
                    assert(times_in(t, x) == times_in(f[k], x) + if x == new_id {
                        1nat
                    } else {
                        0nat
                    });
                }
            },
            None => {
                lemma_split_forest(f, target, dir, new_id, i + 1);
            },
        }
    }
}

/// A window can be removed exactly if the tree has it and it is not the only one.
/// The removal takes it out once and changes how often no other occurs.
pub proof fn remove_takes_one(t: Tree, target: WindowId)
    requires
        well_shaped(t),
    ensures
        remove_tree(t, target) is Some <==> t is Split && leaves_of(t).contains(target),
        remove_tree(t, target) matches Some(r) ==> well_shaped(r) && forall|x: WindowId|
            times_in(t, x) == #[trigger] times_in(r, x) + if x == target {
                1nat
            } else {
                0nat
            },
    decreases t, 0nat,
{
    lemma_occurrences_contains(leaves_of(t), target);
    match t {
        Tree::Leaf(_) => {},
        Tree::Split { dir, children, sizes } => {
            let n = children.len();
            lemma_all_well_shaped(children, n);
            let p = leaf_position(children, target, 0);
            lemma_leaf_position(children, target, 0);
            if p < n {
                let f = children.remove(p);
                let r = collapsed(dir, f, sizes.remove(p));
                lemma_leaf_once(target, target);
                lemma_forest_has(children, p, n, target);
                assert forall|k: int| 0 <= k < f.len() implies well_shaped(#[trigger] f[k]) by {
                    assert(f[k] == children[if k < p { k } else { k + 1 }]);
                }
                lemma_all_well_shaped(f, f.len());
                assert forall|x: WindowId| times_in(t, x) == #[trigger] times_in(r, x) + if x
                    == target {
                    1nat
                } else {
                    0nat
                } by {
                    lemma_forest_remove(children, p, (n - 1) as nat, x);
                    lemma_leaf_once(target, x);
                    lemma_collapsed(dir, f, sizes.remove(p), x);
                    if p == n - 1 {
                        lemma_occurrences_add(
                            forest_leaves(children, (n - 1) as nat),
                            leaves_of(children[n - 1]),
                            x,
                        );
                    }
                }
            } else {
                lemma_remove_forest(children, target, 0);
                match remove_forest(children, target, 0) {
                    Some(f) => {
                        let r = collapsed(dir, f, sizes);
                        lemma_all_well_shaped(f, f.len());
                        assert forall|x: WindowId| times_in(t, x) == #[trigger] times_in(r, x)
                            + if x == target {
                            1nat
                        } else {
                            0nat
                        } by {
                            lemma_collapsed(dir, f, sizes, x);
                            assert(occurrences(forest_leaves(f, n), x) >= 0);
                        }
                    },
                    None => {
                        lemma_forest_lacks(children, n, target);
                    },
                }
            }
        },
    }
}

proof fn lemma_collapsed(dir: SplitDir, f: Seq<Tree>, sizes: Seq<usize>, x: WindowId)
    ensures
        times_in(collapsed(dir, f, sizes), x) == occurrences(forest_leaves(f, f.len()), x),
{
    if f.len() == 1 {
        reveal_with_fuel(forest_leaves, 2);
        assert(forest_leaves(f, 1) =~= leaves_of(f[0]));
    }
}

proof fn lemma_remove_forest(f: Seq<Tree>, target: WindowId, i: nat)
    requires
        forall|k: int| 0 <= k < f.len() ==> well_shaped(#[trigger] f[k]),
        forall|k: int| 0 <= k < f.len() ==> f[k] != Tree::Leaf(target),
        i <= f.len(),
    ensures
        match remove_forest(f, target, i) {
            Some(g) => {
                &&& g.len() == f.len()
                &&& forall|k: int| 0 <= k < f.len() ==> well_shaped(#[trigger] g[k])
                &&& occurrences(forest_leaves(f, f.len()), target) > 0
                &&& forall|x: WindowId|
                    occurrences(forest_leaves(f, f.len()), x) == #[trigger] occurrences(
                        forest_leaves(g, f.len()),
                        x,
                    ) + if x == target {
                        1nat
                    } else {
                        0nat
                    }
            },
            None => forall|k: int| i <= k < f.len() ==> times_in(#[trigger] f[k], target) == 0,
        },
    decreases f, f.len() - i,
{
    if i < f.len() {
        let k = i as int;
        remove_takes_one(f[k], target);
        lemma_occurrences_contains(leaves_of(f[k]), target);
        match remove_tree(f[k], target) {
            Some(t) => {
                lemma_forest_has(f, k, f.len(), target);
                let g = f.update(k, t);
                assert forall|x: WindowId|
                    occurrences(forest_leaves(f, f.len()), x) == #[trigger] occurrences(
                        forest_leaves(g, f.len()),
                        x,
                    ) + if x == target {
                        1nat
                    } else {
                        0nat
                    } by {
                    lemma_forest_update(f, k, t, f.len(), x);
                    assert(times_in(f[k], x) == times_in(t, x) + if x == target {
                        1nat
                    } else {
                        0nat
                    });
                }
            },
            None => {
                match f[k] {
                    Tree::Leaf(id) => {
                        lemma_leaf_once(id, target);
                    },
                    Tree::Split { .. } => {},
                }
                lemma_remove_forest(f, target, i + 1);
            },
        }
    }
}

/// Closing the window that a split opened gives the tree back as it was.
pub proof fn remove_undoes_split(t: Tree, target: WindowId, dir: SplitDir, new_id: WindowId)
    requires
        well_shaped(t),
        leaves_of(t).contains(target),
        !leaves_of(t).contains(new_id),
    ensures
        remove_tree(split_tree(t, target, dir, new_id)->0, new_id) == Some(t),
    decreases t, 0nat,
{
    split_adds_one(t, target, dir, new_id);
    lemma_occurrences_contains(leaves_of(t), new_id);
    let r = split_tree(t, target, dir, new_id)->0;
    match t {
        Tree::Leaf(id) => {
            lemma_leaf_once(id, target);
            lemma_occurrences_contains(leaves_of(t), target);
            assert(r->children[0] == Tree::Leaf(new_id));
            assert(leaf_position(r->children, new_id, 0) == 0);
            assert(r->children.remove(0) =~= seq![Tree::Leaf(target)]);
        },
        Tree::Split { dir: d, children, sizes } => {
            lemma_all_well_shaped(children, children.len());
            let n = children.len();
            assert forall|k: int| 0 <= k < n implies times_in(#[trigger] children[k], new_id)
                == 0 by {
                lemma_forest_has(children, k, n, new_id);
            }
            lemma_remove_undoes_in(children, target, dir, new_id, 0);
            let g = split_forest(children, target, dir, new_id, 0)->0;
            lemma_leaf_position(g, new_id, 0);
        },
    }
}

proof fn lemma_remove_undoes_in(
    f: Seq<Tree>,
    target: WindowId,
    dir: SplitDir,
    new_id: WindowId,
    i: nat,
)
    requires
        forall|k: int| 0 <= k < f.len() ==> well_shaped(#[trigger] f[k]),
        forall|k: int| 0 <= k < f.len() ==> times_in(#[trigger] f[k], new_id) == 0,
        i <= f.len(),
        split_forest(f, target, dir, new_id, i) is Some,
    ensures
        split_forest(f, target, dir, new_id, i)->0.len() == f.len(),
        remove_forest(split_forest(f, target, dir, new_id, i)->0, new_id, i) == Some(f),
        forall|k: int|
            0 <= k < f.len() ==> #[trigger] split_forest(f, target, dir, new_id, i)->0[k]
                != Tree::Leaf(new_id),
        forall|k: int|
            0 <= k < i ==> #[trigger] split_forest(f, target, dir, new_id, i)->0[k] == f[k],
    decreases f, f.len() - i,
{
    let g = split_forest(f, target, dir, new_id, i)->0;
    let k = i as int;
    assert forall|m: int| 0 <= m < f.len() implies f[m] != Tree::Leaf(new_id) by {
        lemma_leaf_once(new_id, new_id);
    }
    split_adds_one(f[k], target, dir, new_id);
    lemma_occurrences_contains(leaves_of(f[k]), new_id);
    match split_tree(f[k], target, dir, new_id) {
        Some(t) => {
            remove_undoes_split(f[k], target, dir, new_id);
            assert(g == f.update(k, t));
            assert(g.update(k, f[k]) =~= f);
        },
        None => {
            lemma_remove_undoes_in(f, target, dir, new_id, i + 1);
            assert(g[k] == f[k]);
            remove_takes_one(f[k], new_id);
        },
    }
}

/// Resizing keeps the windows, their order and the shape of the tree, and finds a
/// window exactly if the tree has it.
pub proof fn resize_keeps_leaves(
    t: Tree,
    target: WindowId,
    axis: SplitDir,
    delta: int,
    done: bool,
)
    requires
        well_shaped(t),
    ensures
        resized(t, target, axis, delta, done) is Some <==> leaves_of(t).contains(target),
        resized(t, target, axis, delta, done) matches Some((r, _)) ==> leaves_of(r) == leaves_of(t)
            && well_shaped(r),
    decreases t, 0nat,
{
    lemma_occurrences_contains(leaves_of(t), target);
    match t {
        Tree::Leaf(id) => {
            lemma_leaf_once(id, target);
        },
        Tree::Split { dir, children, sizes } => {
            lemma_all_well_shaped(children, children.len());
            lemma_resized_forest(children, target, axis, delta, done, 0);
            match resized_forest(children, target, axis, delta, done, 0) {
                Some((i, c, d)) => {
                    let f = children.update(i, c);
                    lemma_forest_replaced(children, i, c, f.len());
                    lemma_all_well_shaped(f, f.len());
                    lemma_adjusted_len(sizes, i, delta, axis);
                },
                None => {
                    lemma_forest_lacks(children, children.len(), target);
                },
            }
        },
    }
}

proof fn lemma_adjusted_len(sizes: Seq<usize>, i: int, delta: int, dir: SplitDir)
    requires
        0 <= i < sizes.len(),
    ensures
        adjusted(sizes, i, delta, dir).len() == sizes.len(),
{
}

proof fn lemma_forest_replaced(f: Seq<Tree>, i: int, t: Tree, n: nat)
    requires
        0 <= i < f.len(),
        n <= f.len(),
        leaves_of(t) == leaves_of(f[i]),
    ensures
        forest_leaves(f.update(i, t), n) == forest_leaves(f, n),
    decreases n,
{
    if n > 0 {
        lemma_forest_replaced(f, i, t, (n - 1) as nat);
    }
}

proof fn lemma_resized_forest(
    f: Seq<Tree>,
    target: WindowId,
    axis: SplitDir,
    delta: int,
    done: bool,
    i: nat,
)
    requires
        forall|k: int| 0 <= k < f.len() ==> well_shaped(#[trigger] f[k]),
        i <= f.len(),
    ensures
        match resized_forest(f, target, axis, delta, done, i) {
            Some((k, t, _)) => {
                &&& 0 <= k < f.len()
                &&& leaves_of(t) == leaves_of(f[k])
                &&& well_shaped(t)
                &&& occurrences(forest_leaves(f, f.len()), target) > 0
            },
            None => forall|k: int| i <= k < f.len() ==> times_in(#[trigger] f[k], target) == 0,
        },
    decreases f, f.len() - i,
{
    if i < f.len() {
        let k = i as int;
        resize_keeps_leaves(f[k], target, axis, delta, done);
        lemma_occurrences_contains(leaves_of(f[k]), target);
        match resized(f[k], target, axis, delta, done) {
            Some(_) => {
                lemma_forest_has(f, k, f.len(), target);
            },
            None => {
                lemma_resized_forest(f, target, axis, delta, done, i + 1);
            },
        }
    }
}

/// Maximising keeps the windows, their order and the shape of the tree, and finds
/// a window exactly if the tree has it.
pub proof fn maximize_keeps_leaves(t: Tree, target: WindowId, axis: SplitDir)
    requires
        well_shaped(t),
    ensures
        maximized(t, target, axis) is Some <==> leaves_of(t).contains(target),
        maximized(t, target, axis) matches Some(r) ==> leaves_of(r) == leaves_of(t) && well_shaped(
            r,
        ),
    decreases t, 0nat,
{
    lemma_occurrences_contains(leaves_of(t), target);
    match t {
        Tree::Leaf(id) => {
            lemma_leaf_once(id, target);
        },
        Tree::Split { dir, children, sizes } => {
            lemma_all_well_shaped(children, children.len());
            lemma_maximized_forest(children, target, axis, 0);
            match maximized_forest(children, target, axis, 0) {
                Some((i, c)) => {
                    let f = children.update(i, c);
                    lemma_forest_replaced(children, i, c, f.len());
                    lemma_all_well_shaped(f, f.len());
                },
                None => {
                    lemma_forest_lacks(children, children.len(), target);
                },
            }
        },
    }
}

proof fn lemma_maximized_forest(f: Seq<Tree>, target: WindowId, axis: SplitDir, i: nat)
    requires
        forall|k: int| 0 <= k < f.len() ==> well_shaped(#[trigger] f[k]),
        i <= f.len(),
    ensures
        match maximized_forest(f, target, axis, i) {
            Some((k, t)) => {
                &&& 0 <= k < f.len()
                &&& leaves_of(t) == leaves_of(f[k])
                &&& well_shaped(t)
                &&& occurrences(forest_leaves(f, f.len()), target) > 0
            },
            None => forall|k: int| i <= k < f.len() ==> times_in(#[trigger] f[k], target) == 0,
        },
    decreases f, f.len() - i,
{
    if i < f.len() {
        let k = i as int;
        maximize_keeps_leaves(f[k], target, axis);
        lemma_occurrences_contains(leaves_of(f[k]), target);
        match maximized(f[k], target, axis) {
            Some(_) => {
                lemma_forest_has(f, k, f.len(), target);
            },
            None => {
                lemma_maximized_forest(f, target, axis, i + 1);
            },
        }
    }
}

/// Making the windows equal keeps them, their order and the shape of the tree.
pub proof fn equalize_keeps_leaves(t: Tree)
    requires
        well_shaped(t),
    ensures
        leaves_of(equalized(t)) == leaves_of(t),
        well_shaped(equalized(t)),
    decreases t, 0nat,
{
    match t {
        Tree::Leaf(_) => {},
        Tree::Split { dir, children, sizes } => {
            lemma_all_well_shaped(children, children.len());
            let f = equalized(t)->children;
            lemma_equalized_forest(children, f, children.len());
            lemma_all_well_shaped(f, f.len());
        },
    }
}

proof fn lemma_equalized_forest(f: Seq<Tree>, g: Seq<Tree>, n: nat)
    requires
        n <= f.len() == g.len(),
        forall|k: int| 0 <= k < f.len() ==> well_shaped(#[trigger] f[k]),
        forall|k: int| 0 <= k < f.len() ==> #[trigger] g[k] == equalized(f[k]),
    ensures
        forest_leaves(g, n) == forest_leaves(f, n),
        forall|k: int| 0 <= k < n ==> well_shaped(#[trigger] g[k]),
    decreases f, n,
{
    if n > 0 {
        lemma_equalized_forest(f, g, (n - 1) as nat);
        equalize_keeps_leaves(f[n - 1]);
        assert(g[n - 1] == equalized(f[n - 1]));
    }
}

} // verus!
