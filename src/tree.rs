use crate::rect::{split_tiles, Rectangle};
use vstd::prelude::*;

verus! {

/// A node of the partition tree. A node is a leaf exactly when it has no
/// children; only leaves are painted.
#[derive(Debug)]
pub struct Tree {
    pub item: Rectangle,
    pub left: Option<Box<Tree>>,
    pub right: Option<Box<Tree>>,
    pub depth: usize,
}

pub open spec fn pow2(n: nat) -> nat
    decreases n,
{
    if n == 0 {
        1
    } else {
        2 * pow2((n - 1) as nat)
    }
}

pub open spec fn pow3(n: nat) -> nat
    decreases n,
{
    if n == 0 {
        1
    } else {
        3 * pow3((n - 1) as nat)
    }
}

/// The leaves lie inside the root, cover every pixel of it, never overlap,
/// and are each well formed.
pub open spec fn tiles(root: Rectangle, leaves: Seq<Rectangle>) -> bool {
    &&& forall|i: int| 0 <= i < leaves.len() ==> (#[trigger] leaves[i]).wf()
    &&& forall|i: int, px: int, py: int|
        0 <= i < leaves.len() && #[trigger] leaves[i].contains(px, py) ==> root.contains(px, py)
    &&& forall|px: int, py: int|
        root.contains(px, py) ==> exists|i: int|
            0 <= i < leaves.len() && #[trigger] leaves[i].contains(px, py)
    &&& forall|i: int, j: int, px: int, py: int|
        0 <= i < j < leaves.len() && #[trigger] leaves[i].contains(px, py)
            && #[trigger] leaves[j].contains(px, py) ==> false
}

impl Tree {
    /// The leaf rectangles, left subtree before right subtree.
    pub open spec fn leaves_spec(self) -> Seq<Rectangle>
        decreases self,
    {
        match self.left {
            Some(l) => match self.right {
                Some(r) => l.leaves_spec() + r.leaves_spec(),
                None => l.leaves_spec(),
            },
            None => match self.right {
                Some(r) => r.leaves_spec(),
                None => seq![self.item],
            },
        }
    }

    /// The tree is what building down to `max_depth` produces: every node is
    /// well formed; a node below `max_depth` whose rectangle can be split has
    /// two children, one level deeper, that are a split of its rectangle;
    /// every other node is a leaf.
    pub open spec fn built(self, max_depth: nat) -> bool
        decreases self,
    {
        &&& self.item.wf()
        &&& match self.left {
            None => self.right is None && (self.depth >= max_depth || !self.item.can_split()),
            Some(l) => match self.right {
                None => false,
                Some(r) => {
                    &&& self.depth < max_depth
                    &&& self.item.can_split()
                    &&& l.depth == self.depth + 1
                    &&& r.depth == self.depth + 1
                    &&& exists|coin: bool, draw: u32|
                        #[trigger] self.item.split_with_spec(coin, draw) == (l.item, r.item)
                    &&& l.built(max_depth)
                    &&& r.built(max_depth)
                },
            },
        }
    }

    /// A single node at depth zero.
    pub fn new(item: Rectangle) -> (t: Self)
        ensures
            t.item == item,
            t.left is None,
            t.right is None,
            t.depth == 0,
            t.leaves_spec() == seq![item],
    {
        Tree { item, left: None, right: None, depth: 0 }
    }

    /// Splits this node's rectangle down to `max_depth`, replacing any
    /// children it had. A node already at or past `max_depth` is left as it is.
    pub fn split(&mut self, max_depth: usize)
        requires
            old(self).item.wf(),
        ensures
            old(self).depth >= max_depth ==> *final(self) == *old(self),
            old(self).depth < max_depth ==> {
                &&& final(self).item == old(self).item
                &&& final(self).depth == old(self).depth
                &&& final(self).built(max_depth as nat)
            },
    {
        if self.depth >= max_depth {
            return;
        }
        *self = grow(self.item, self.depth, max_depth);
    }

    /// The leaf rectangles, left subtree before right subtree. The order is a
    /// function of the tree alone, the same on every call.
    pub fn leaves(&self) -> (r: Vec<Rectangle>)
        ensures
            r@ == self.leaves_spec(),
        decreases self,
    {
        let mut out: Vec<Rectangle> = Vec::new();
        if self.left.is_some() || self.right.is_some() {
            if let Some(l) = &self.left {
                let mut part = l.leaves();
                out.append(&mut part);
            }
            if let Some(r) = &self.right {
                let mut part = r.leaves();
                out.append(&mut part);
            }
            proof {
                if self.left is Some && self.right is None {
                    assert(out@ =~= self.leaves_spec());
                }
                if self.left is None && self.right is Some {
                    assert(out@ =~= self.leaves_spec());
                }
            }
        } else {
            out.push(self.item);
            assert(out@ =~= self.leaves_spec());
        }
        out
    }
}

/// Builds the subtree of `item` at `depth`, splitting down to `max_depth`.
fn grow(item: Rectangle, depth: usize, max_depth: usize) -> (t: Tree)
    requires
        item.wf(),
    ensures
        t.item == item,
        t.depth == depth,
        t.built(max_depth as nat),
    decreases max_depth - depth,
{
    if depth >= max_depth || !item.splittable() {
        return Tree { item, left: None, right: None, depth };
    }
    let (l, r) = item.split();
    let ghost witness = choose|coin: bool, draw: u32|
        #[trigger] item.split_with_spec(coin, draw) == (l, r);
    proof {
        split_tiles(item, witness.0, witness.1);
    }
    let lt = grow(l, depth + 1, max_depth);
    let rt = grow(r, depth + 1, max_depth);
    let t = Tree { item, left: Some(Box::new(lt)), right: Some(Box::new(rt)), depth };
    assert(item.split_with_spec(witness.0, witness.1) == (lt.item, rt.item));
    assert(t.built(max_depth as nat));
    t
}

/// Builds the partition tree of `root` down to `max_depth`.
pub fn build(root: Rectangle, max_depth: usize) -> (t: Tree)
    requires
        root.wf(),
    ensures
        t.item == root,
        t.depth == 0,
        t.built(max_depth as nat),
{
    grow(root, 0, max_depth)
}

proof fn pow3_positive(n: nat)
    ensures
        pow3(n) >= 1,
    decreases n,
{
    if n > 0 {
        pow3_positive((n - 1) as nat);
    }
}

/// The leaves of a built tree tile its rectangle: no gap, no overlap, and
/// nothing outside it.
pub proof fn leaves_tile(t: Tree, max_depth: nat)
    requires
        t.built(max_depth),
    ensures
        tiles(t.item, t.leaves_spec()),
    decreases t,
{
    match t.left {
        None => {
            let s = t.leaves_spec();
            assert(s[0] == t.item);
        },
        Some(l) => match t.right {
            None => {},
            Some(r) => {
                leaves_tile(*l, max_depth);
                leaves_tile(*r, max_depth);
                let (coin, draw) = choose|coin: bool, draw: u32|
                    #[trigger] t.item.split_with_spec(coin, draw) == (l.item, r.item);
                split_tiles(t.item, coin, draw);
                let a = l.leaves_spec();
                let b = r.leaves_spec();
                let s = t.leaves_spec();
                assert(s == a + b);
                assert forall|i: int| 0 <= i < s.len() implies (#[trigger] s[i]).wf() by {
                    if i < a.len() {
                        assert(s[i] == a[i]);
                    } else {
                        assert(s[i] == b[i - a.len()]);
                    }
                }
                assert forall|i: int, px: int, py: int|
                    0 <= i < s.len() && #[trigger] s[i].contains(px, py) implies t.item.contains(
                    px,
                    py,
                ) by {
                    if i < a.len() {
                        assert(s[i] == a[i]);
                        assert(l.item.contains(px, py));
                    } else {
                        assert(s[i] == b[i - a.len()]);
                        assert(r.item.contains(px, py));
                    }
                }
                assert forall|px: int, py: int| t.item.contains(px, py) implies exists|i: int|
                    0 <= i < s.len() && #[trigger] s[i].contains(px, py) by {
                    if l.item.contains(px, py) {
                        let i = choose|i: int| 0 <= i < a.len() && #[trigger] a[i].contains(px, py);
                        assert(s[i] == a[i]);
                    } else {
                        assert(r.item.contains(px, py));
                        let i = choose|i: int| 0 <= i < b.len() && #[trigger] b[i].contains(px, py);
                        assert(s[i + a.len()] == b[i]);
                    }
                }
                assert forall|i: int, j: int, px: int, py: int|
                    0 <= i < j < s.len() && #[trigger] s[i].contains(px, py)
                        && #[trigger] s[j].contains(px, py) implies false by {
                    if j < a.len() {
                        assert(s[i] == a[i] && s[j] == a[j]);
                    } else if i >= a.len() {
                        assert(s[i] == b[i - a.len()] && s[j] == b[j - a.len()]);
                    } else {
                        assert(s[i] == a[i] && s[j] == b[j - a.len()]);
                        assert(l.item.contains(px, py));
                        assert(r.item.contains(px, py));
                    }
                }
            },
        },
    }
}

/// A tree built from a rectangle whose sides are both at least `3^k`, where
/// `k` levels remain, has exactly `2^k` leaves: no node is left unsplit
/// before the last level.
pub proof fn leaf_count(t: Tree, max_depth: nat)
    requires
        t.built(max_depth),
        t.depth <= max_depth,
        t.item.width >= pow3((max_depth - t.depth) as nat),
        t.item.height >= pow3((max_depth - t.depth) as nat),
    ensures
        t.leaves_spec().len() == pow2((max_depth - t.depth) as nat),
    decreases t,
{
    let k = (max_depth - t.depth) as nat;
    match t.left {
        None => {
            if k > 0 {
                pow3_positive((k - 1) as nat);
                assert(pow3(k) == 3 * pow3((k - 1) as nat));
                assert(t.item.can_split());
            }
        },
        Some(l) => match t.right {
            None => {},
            Some(r) => {
                let (coin, draw) = choose|coin: bool, draw: u32|
                    #[trigger] t.item.split_with_spec(coin, draw) == (l.item, r.item);
                split_tiles(t.item, coin, draw);
                let q = pow3((k - 1) as nat);
                assert(pow3(k) == 3 * q);
                assert(t.item.width * 2 / 5 >= q);
                assert(t.item.height * 2 / 5 >= q);
                leaf_count(*l, max_depth);
                leaf_count(*r, max_depth);
            },
        },
    }
}

} // verus!
