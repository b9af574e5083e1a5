//! The nodes of the in-flight index and the algorithms that work on a
//! subtree: rotations, rebalancing, and the recursive insert and remove.

use super::ordered::{
    all_within, has_id, inserted, lemma_split, removed, strictly_ascending, within, ID_LIMIT,
};
use crate::msg::packet::MessagePacket;
use vstd::prelude::*;

verus! {

/// One node of the tree: a packet, the cached height of the subtree below
/// it, and the two subtrees it owns.
pub struct TreeNode {
    pub item: MessagePacket,
    pub height: u64,
    pub left: Option<Box<TreeNode>>,
    pub right: Option<Box<TreeNode>>,
}

/// A subtree: empty, or an owned node.
pub type Link = Option<Box<TreeNode>>;

impl TreeNode {
    /// A node without subtrees.
    pub fn new(data: MessagePacket) -> (n: Self)
        ensures
            n == (TreeNode { item: data, height: 1, left: None, right: None }),
    {
        TreeNode { item: data, height: 1, left: None, right: None }
    }

    /// The packet that the node holds.
    pub fn get(&self) -> (p: &MessagePacket)
        ensures
            *p == self.item,
    {
        &self.item
    }
}

/// The packets of a subtree in in-order: left subtree, node, right subtree.
pub open spec fn items(t: Link) -> Seq<MessagePacket>
    decreases t,
{
    match t {
        None => Seq::empty(),
        Some(n) => items(n.left) + seq![n.item] + items(n.right),
    }
}

/// The number of nodes on the longest path from the root of a subtree down
/// to a leaf.
pub open spec fn height(t: Link) -> nat
    decreases t,
{
    match t {
        None => 0,
        Some(n) => if height(n.left) >= height(n.right) {
            1 + height(n.left)
        } else {
            1 + height(n.right)
        },
    }
}

/// The height of a node above subtrees of heights `a` and `b`.
pub open spec fn above(a: nat, b: nat) -> nat {
    if a >= b {
        a + 1
    } else {
        b + 1
    }
}

/// At every node the heights of the two subtrees differ by at most one.
pub open spec fn balanced(t: Link) -> bool
    decreases t,
{
    match t {
        None => true,
        Some(n) => {
            &&& balanced(n.left)
            &&& balanced(n.right)
            &&& height(n.left) <= height(n.right) + 1
            &&& height(n.right) <= height(n.left) + 1
        },
    }
}

/// The height that the root of a subtree has cached is its true height.
pub open spec fn cached(t: Link) -> bool {
    match t {
        None => true,
        Some(n) => n.height == height(t),
    }
}

/// A subtree is well formed between two bounds when every id in it lies
/// strictly between them, every node separates the ids of its left subtree
/// from those of its right subtree, every cached height is the true height,
/// and every node is balanced.
pub open spec fn wf_in(t: Link, lo: int, hi: int) -> bool
    decreases t,
{
    match t {
        None => true,
        Some(n) => {
            &&& lo < n.item.id < hi
            &&& wf_in(n.left, lo, n.item.id as int)
            &&& wf_in(n.right, n.item.id as int, hi)
            &&& n.height == height(t)
            &&& height(n.left) <= height(n.right) + 1
            &&& height(n.right) <= height(n.left) + 1
        },
    }
}

/// In a well-formed subtree every id lies between the bounds, so the subtree
/// holds no more packets than there are ids between them, and it is no
/// higher than it has packets.
pub proof fn lemma_wf_bounds(t: Link, lo: int, hi: int)
    requires
        wf_in(t, lo, hi),
        lo < hi,
    ensures
        forall|i: int| 0 <= i < items(t).len() ==> lo < (#[trigger] items(t)[i]).id < hi,
        items(t).len() <= hi - lo - 1,
        height(t) <= items(t).len(),
    decreases t,
{
    match t {
        None => {},
        Some(n) => {
            lemma_wf_bounds(n.left, lo, n.item.id as int);
            lemma_wf_bounds(n.right, n.item.id as int, hi);
        },
    }
}

/// A well-formed subtree stays well formed between wider bounds.
pub proof fn lemma_wf_widen(t: Link, lo: int, hi: int, lo2: int, hi2: int)
    requires
        wf_in(t, lo, hi),
        lo2 <= lo,
        hi <= hi2,
    ensures
        wf_in(t, lo2, hi2),
    decreases t,
{
    match t {
        None => {},
        Some(n) => {
            lemma_wf_widen(n.left, lo, n.item.id as int, lo2, n.item.id as int);
            lemma_wf_widen(n.right, n.item.id as int, hi, n.item.id as int, hi2);
        },
    }
}

/// The in-order sequence of a well-formed subtree ascends strictly by id,
/// and the subtree is balanced at every node.
pub proof fn lemma_wf_ascending_balanced(t: Link, lo: int, hi: int)
    requires
        wf_in(t, lo, hi),
    ensures
        strictly_ascending(items(t)),
        balanced(t),
    decreases t,
{
    match t {
        None => {},
        Some(n) => {
            let k = n.item.id as int;
            lemma_wf_ascending_balanced(n.left, lo, k);
            lemma_wf_ascending_balanced(n.right, k, hi);
            lemma_wf_bounds(n.left, lo, k);
            lemma_wf_bounds(n.right, k, hi);
        },
    }
}

/// Around the packet of a node, an id below the node's is looked for, put in
/// and taken out in the left subtree, and one above it in the right subtree;
/// the node's own id is found at the node.
pub proof fn lemma_split_node(n: TreeNode, id: u32, lo: int, hi: int)
    requires
        -1 <= lo,
        hi <= ID_LIMIT,
        wf_in(Some(Box::new(n)), lo, hi),
    ensures
        items(Some(Box::new(n))) == items(n.left) + seq![n.item] + items(n.right),
        all_within(items(n.left), lo, n.item.id as int),
        all_within(items(n.right), n.item.id as int, hi),
        id < n.item.id ==> {
            &&& has_id(items(Some(Box::new(n))), id) == has_id(items(n.left), id)
            &&& within(items(Some(Box::new(n))), -1, id as int) == within(
                items(n.left),
                -1,
                id as int,
            )
            &&& within(items(Some(Box::new(n))), id as int, ID_LIMIT as int) == within(
                items(n.left),
                id as int,
                ID_LIMIT as int,
            ) + seq![n.item] + items(n.right)
        },
        id > n.item.id ==> {
            &&& has_id(items(Some(Box::new(n))), id) == has_id(items(n.right), id)
            &&& within(items(Some(Box::new(n))), -1, id as int) == items(n.left) + seq![n.item]
                + within(items(n.right), -1, id as int)
            &&& within(items(Some(Box::new(n))), id as int, ID_LIMIT as int) == within(
                items(n.right),
                id as int,
                ID_LIMIT as int,
            )
        },
        id == n.item.id ==> {
            &&& has_id(items(Some(Box::new(n))), id)
            &&& within(items(Some(Box::new(n))), -1, id as int) == items(n.left)
            &&& within(items(Some(Box::new(n))), id as int, ID_LIMIT as int) == items(n.right)
        },
{
    let k = n.item.id as int;
    lemma_wf_bounds(n.left, lo, k);
    lemma_wf_bounds(n.right, k, hi);
    lemma_split(items(n.left), n.item, items(n.right), id);
}

/// The height of a subtree, read from the cache at its root.
pub(super) fn cached_height(t: &Link) -> (h: u64)
    requires
        cached(*t),
    ensures
        h == height(*t),
{
    match t {
        Some(n) => n.height,
        None => 0,
    }
}

/// Recomputes the cached height of a node from those of its subtrees.
pub(super) fn fix_height(n: &mut Box<TreeNode>)
    requires
        cached(old(n).left),
        cached(old(n).right),
        height(old(n).left) < u64::MAX,
        height(old(n).right) < u64::MAX,
    ensures
        final(n).item == old(n).item,
        final(n).left == old(n).left,
        final(n).right == old(n).right,
        final(n).height == height(Some(*final(n))),
{
    let hl = cached_height(&n.left);
    let hr = cached_height(&n.right);
    n.height = if hl >= hr { hl + 1 } else { hr + 1 };
}

/// Lifts the left child of a node above it; the node becomes the right
/// child of its former left child. The in-order sequence stays.
pub(super) fn rotate_right(
    n: Box<TreeNode>,
    Ghost(lo): Ghost<int>,
    Ghost(hi): Ghost<int>,
) -> (m: Box<TreeNode>)
    requires
        -1 <= lo,
        hi <= ID_LIMIT,
        n.left is Some,
        lo < n.left.unwrap().item.id < n.item.id < hi,
        wf_in(n.left.unwrap().left, lo, n.left.unwrap().item.id as int),
        wf_in(n.left.unwrap().right, n.left.unwrap().item.id as int, n.item.id as int),
        wf_in(n.right, n.item.id as int, hi),
    ensures
        items(Some(m)) == items(Some(n)),
        m.item == n.left.unwrap().item,
        m.left == n.left.unwrap().left,
        m.right is Some,
        m.right.unwrap().item == n.item,
        m.right.unwrap().left == n.left.unwrap().right,
        m.right.unwrap().right == n.right,
        m.right.unwrap().height == height(m.right),
        height(m.right) == above(height(n.left.unwrap().right), height(n.right)),
        m.height == height(Some(m)),
        height(Some(m)) == above(height(n.left.unwrap().left), height(m.right)),
{
    let ghost n0 = n;
    let mut n = n;
    let mut l = n.left.take().unwrap();
    proof {
        lemma_wf_bounds(l.left, lo, l.item.id as int);
        lemma_wf_bounds(l.right, l.item.id as int, n.item.id as int);
        lemma_wf_bounds(n.right, n.item.id as int, hi);
    }
    n.left = l.right.take();
    fix_height(&mut n);
    l.right = Some(n);
    fix_height(&mut l);
    proof {
        let a = items(n0.left.unwrap().left);
        let b = items(n0.left.unwrap().right);
        let c = items(n0.right);
        assert(items(n0.left) == a + seq![l.item] + b);
        assert(items(l.right) == b + seq![n0.item] + c);
    }
    l
}

/// Lifts the right child of a node above it; the node becomes the left
/// child of its former right child. The in-order sequence stays.
pub(super) fn rotate_left(
    n: Box<TreeNode>,
    Ghost(lo): Ghost<int>,
    Ghost(hi): Ghost<int>,
) -> (m: Box<TreeNode>)
    requires
        -1 <= lo,
        hi <= ID_LIMIT,
        n.right is Some,
        lo < n.item.id < n.right.unwrap().item.id < hi,
        wf_in(n.left, lo, n.item.id as int),
        wf_in(n.right.unwrap().left, n.item.id as int, n.right.unwrap().item.id as int),
        wf_in(n.right.unwrap().right, n.right.unwrap().item.id as int, hi),
    ensures
        items(Some(m)) == items(Some(n)),
        m.item == n.right.unwrap().item,
        m.right == n.right.unwrap().right,
        m.left is Some,
        m.left.unwrap().item == n.item,
        m.left.unwrap().left == n.left,
        m.left.unwrap().right == n.right.unwrap().left,
        m.left.unwrap().height == height(m.left),
        height(m.left) == above(height(n.left), height(n.right.unwrap().left)),
        m.height == height(Some(m)),
        height(Some(m)) == above(height(m.left), height(n.right.unwrap().right)),
{
    let ghost n0 = n;
    let mut n = n;
    let mut r = n.right.take().unwrap();
    proof {
        lemma_wf_bounds(n.left, lo, n.item.id as int);
        lemma_wf_bounds(r.left, n.item.id as int, r.item.id as int);
        lemma_wf_bounds(r.right, r.item.id as int, hi);
    }
    n.right = r.left.take();
    fix_height(&mut n);
    r.left = Some(n);
    fix_height(&mut r);
    proof {
        let a = items(n0.left);
        let b = items(n0.right.unwrap().left);
        let c = items(n0.right.unwrap().right);
        assert(items(n0.right) == b + seq![r.item] + c);
        assert(items(r.left) == a + seq![n0.item] + b);
    }
    r
}

/// Rebalances a node whose left subtree is two higher than its right one:
/// one rotation to the right, after a rotation of the left child to the
/// left when that child leans to the right.
pub(super) fn fix_left_heavy(
    n: Box<TreeNode>,
    Ghost(lo): Ghost<int>,
    Ghost(hi): Ghost<int>,
) -> (m: Box<TreeNode>)
    requires
        -1 <= lo,
        hi <= ID_LIMIT,
        lo < n.item.id < hi,
        wf_in(n.left, lo, n.item.id as int),
        wf_in(n.right, n.item.id as int, hi),
        height(n.left) == height(n.right) + 2,
    ensures
        wf_in(Some(m), lo, hi),
        items(Some(m)) == items(Some(n)),
        height(Some(m)) == height(n.left) || height(Some(m)) == height(n.left) + 1,
{
    let ghost k = n.item.id as int;
    let mut n = n;
    let mut l = n.left.take().unwrap();
    let ghost lk = l.item.id as int;
    assert(wf_in(l.left, lo, lk) && wf_in(l.right, lk, k));
    if cached_height(&l.left) < cached_height(&l.right) {
        l = rotate_left(l, Ghost(lo), Ghost(k));
        assert(wf_in(l.left, lo, l.item.id as int));
        n.left = Some(l);
        let m = rotate_right(n, Ghost(lo), Ghost(hi));
        assert(wf_in(m.right, m.item.id as int, hi));
        m
    } else {
        n.left = Some(l);
        let m = rotate_right(n, Ghost(lo), Ghost(hi));
        assert(wf_in(m.right, m.item.id as int, hi));
        m
    }
}

/// Rebalances a node whose right subtree is two higher than its left one:
/// one rotation to the left, after a rotation of the right child to the
/// right when that child leans to the left.
pub(super) fn fix_right_heavy(
    n: Box<TreeNode>,
    Ghost(lo): Ghost<int>,
    Ghost(hi): Ghost<int>,
) -> (m: Box<TreeNode>)
    requires
        -1 <= lo,
        hi <= ID_LIMIT,
        lo < n.item.id < hi,
        wf_in(n.left, lo, n.item.id as int),
        wf_in(n.right, n.item.id as int, hi),
        height(n.right) == height(n.left) + 2,
    ensures
        wf_in(Some(m), lo, hi),
        items(Some(m)) == items(Some(n)),
        height(Some(m)) == height(n.right) || height(Some(m)) == height(n.right) + 1,
{
    let ghost k = n.item.id as int;
    let mut n = n;
    let mut r = n.right.take().unwrap();
    let ghost rk = r.item.id as int;
    assert(wf_in(r.left, k, rk) && wf_in(r.right, rk, hi));
    if cached_height(&r.right) < cached_height(&r.left) {
        let ghost before = items(Some(r));
        r = rotate_right(r, Ghost(k), Ghost(hi));
        assert(wf_in(r.right, r.item.id as int, hi));
        n.right = Some(r);
        assert(items(Some(n)) == items(n.left) + seq![n.item] + before);
        let m = rotate_left(n, Ghost(lo), Ghost(hi));
        assert(wf_in(m.left, lo, m.item.id as int));
        m
    } else {
        n.right = Some(r);
        let m = rotate_left(n, Ghost(lo), Ghost(hi));
        assert(wf_in(m.left, lo, m.item.id as int));
        m
    }
}

/// Restores the balance of a node whose subtrees are well formed and whose
/// heights differ by at most two, and brings its cached height up to date.
///
/// The packets and their order stay; the subtree comes out as high as it
/// was, or one lower when a rotation could shorten it.
pub(super) fn rebalance(slot: &mut Link, Ghost(lo): Ghost<int>, Ghost(hi): Ghost<int>)
    requires
        *old(slot) is Some,
        -1 <= lo,
        hi <= ID_LIMIT,
        lo < old(slot).unwrap().item.id < hi,
        wf_in(old(slot).unwrap().left, lo, old(slot).unwrap().item.id as int),
        wf_in(old(slot).unwrap().right, old(slot).unwrap().item.id as int, hi),
        height(old(slot).unwrap().left) <= height(old(slot).unwrap().right) + 2,
        height(old(slot).unwrap().right) <= height(old(slot).unwrap().left) + 2,
    ensures
        wf_in(*final(slot), lo, hi),
        items(*final(slot)) == items(*old(slot)),
        height(*final(slot)) == height(*old(slot)) || height(*final(slot)) + 1 == height(
            *old(slot),
        ),
        height(old(slot).unwrap().left) <= height(old(slot).unwrap().right) + 1 && height(
            old(slot).unwrap().right,
        ) <= height(old(slot).unwrap().left) + 1 ==> height(*final(slot)) == height(*old(slot)),
{
    let mut n = slot.take().unwrap();
    proof {
        lemma_wf_bounds(n.right, n.item.id as int, hi);
    }
    let hl = cached_height(&n.left);
    let hr = cached_height(&n.right);
    if hl > hr + 1 {
        n = fix_left_heavy(n, Ghost(lo), Ghost(hi));
    } else if hr > hl + 1 {
        n = fix_right_heavy(n, Ghost(lo), Ghost(hi));
    } else {
        fix_height(&mut n);
    }
    *slot = Some(n);
}

/// Puts a packet into a subtree unless its id is there already, and says
/// whether it did.
pub(super) fn insert_at(
    slot: &mut Link,
    p: MessagePacket,
    Ghost(lo): Ghost<int>,
    Ghost(hi): Ghost<int>,
) -> (fresh: bool)
    requires
        -1 <= lo,
        hi <= ID_LIMIT,
        lo < p.id < hi,
        wf_in(*old(slot), lo, hi),
    ensures
        wf_in(*final(slot), lo, hi),
        fresh == !has_id(items(*old(slot)), p.id),
        fresh ==> items(*final(slot)) == inserted(items(*old(slot)), p),
        !fresh ==> *final(slot) == *old(slot),
        height(*final(slot)) == height(*old(slot)) || (fresh && height(*final(slot)) == height(
            *old(slot),
        ) + 1),
    decreases *old(slot),
{
    match slot.take() {
        None => {
            *slot = Some(Box::new(TreeNode::new(p)));
            assert(wf_in(None, lo, p.id as int) && wf_in(None, p.id as int, hi));
            true
        },
        Some(mut n) => {
            let ghost n0 = *n;
            let ghost k = n.item.id as int;
            proof {
                lemma_split_node(n0, p.id, lo, hi);
            }
            if p.id == n.item.id {
                *slot = Some(n);
                false
            } else if p.id < n.item.id {
                let fresh = insert_at(&mut n.left, p, Ghost(lo), Ghost(k));
                *slot = Some(n);
                if fresh {
                    rebalance(slot, Ghost(lo), Ghost(hi));
                }
                fresh
            } else {
                let fresh = insert_at(&mut n.right, p, Ghost(k), Ghost(hi));
                *slot = Some(n);
                if fresh {
                    rebalance(slot, Ghost(lo), Ghost(hi));
                }
                fresh
            }
        },
    }
}

/// Takes the packet of smallest id out of a subtree that is not empty.
pub(super) fn take_min(
    slot: &mut Link,
    Ghost(lo): Ghost<int>,
    Ghost(hi): Ghost<int>,
) -> (m: MessagePacket)
    requires
        -1 <= lo,
        hi <= ID_LIMIT,
        *old(slot) is Some,
        wf_in(*old(slot), lo, hi),
    ensures
        lo < m.id < hi,
        wf_in(*final(slot), m.id as int, hi),
        items(*old(slot)) == seq![m] + items(*final(slot)),
        height(*final(slot)) == height(*old(slot)) || height(*final(slot)) + 1 == height(
            *old(slot),
        ),
    decreases *old(slot),
{
    let mut n = slot.take().unwrap();
    let ghost k = n.item.id as int;
    if n.left.is_none() {
        *slot = n.right.take();
        assert(items(None) =~= Seq::<MessagePacket>::empty());
        n.item
    } else {
        let m = take_min(&mut n.left, Ghost(lo), Ghost(k));
        *slot = Some(n);
        rebalance(slot, Ghost(m.id as int), Ghost(hi));
        m
    }
}

/// Takes the packet at the root out of a subtree that is not empty. A root
/// with two subtrees is replaced by its successor, the smallest packet of
/// its right subtree.
pub(super) fn take_root(
    slot: &mut Link,
    Ghost(lo): Ghost<int>,
    Ghost(hi): Ghost<int>,
) -> (item: MessagePacket)
    requires
        -1 <= lo,
        hi <= ID_LIMIT,
        *old(slot) is Some,
        wf_in(*old(slot), lo, hi),
    ensures
        item == old(slot).unwrap().item,
        wf_in(*final(slot), lo, hi),
        items(*final(slot)) == items(old(slot).unwrap().left) + items(old(slot).unwrap().right),
        height(*final(slot)) == height(*old(slot)) || height(*final(slot)) + 1 == height(
            *old(slot),
        ),
{
    let mut n = slot.take().unwrap();
    let ghost k = n.item.id as int;
    let item = n.item;
    if n.left.is_none() {
        *slot = n.right.take();
        proof {
            lemma_wf_widen(*slot, k, hi, lo, hi);
        }
    } else if n.right.is_none() {
        *slot = n.left.take();
        proof {
            lemma_wf_widen(*slot, lo, k, lo, hi);
        }
    } else {
        let next = take_min(&mut n.right, Ghost(k), Ghost(hi));
        n.item = next;
        proof {
            lemma_wf_widen(n.left, lo, k, lo, next.id as int);
        }
        *slot = Some(n);
        rebalance(slot, Ghost(lo), Ghost(hi));
    }
    item
}

/// Takes the packet with the given id out of a subtree, if it is there.
pub(super) fn remove_at(
    slot: &mut Link,
    id: u32,
    Ghost(lo): Ghost<int>,
    Ghost(hi): Ghost<int>,
) -> (out: Option<MessagePacket>)
    requires
        -1 <= lo,
        hi <= ID_LIMIT,
        wf_in(*old(slot), lo, hi),
    ensures
        wf_in(*final(slot), lo, hi),
        out is Some == has_id(items(*old(slot)), id),
        out is Some ==> out.unwrap().id == id && items(*old(slot)).contains(out.unwrap()),
        out is None ==> *final(slot) == *old(slot),
        items(*final(slot)) == removed(items(*old(slot)), id),
        height(*final(slot)) == height(*old(slot)) || height(*final(slot)) + 1 == height(
            *old(slot),
        ),
    decreases *old(slot),
{
    match slot.take() {
        None => None,
        Some(mut n) => {
            let ghost n0 = *n;
            let ghost k = n.item.id as int;
            let ghost l = items(n.left);
            let ghost r = items(n.right);
            let ghost all = items(Some(Box::new(n0)));
            proof {
                lemma_split_node(n0, id, lo, hi);
            }
            if id < n.item.id {
                let out = remove_at(&mut n.left, id, Ghost(lo), Ghost(k));
                *slot = Some(n);
                proof {
                    if out is Some {
                        let i = choose|i: int| 0 <= i < l.len() && l[i] == out.unwrap();
                        assert(all[i] == out.unwrap());
                    }
                }
                if out.is_some() {
                    rebalance(slot, Ghost(lo), Ghost(hi));
                }
                out
            } else if id > n.item.id {
                let out = remove_at(&mut n.right, id, Ghost(k), Ghost(hi));
                *slot = Some(n);
                proof {
                    if out is Some {
                        let i = choose|i: int| 0 <= i < r.len() && r[i] == out.unwrap();
                        assert(all[l.len() + 1 + i] == out.unwrap());
                    }
                }
                if out.is_some() {
                    rebalance(slot, Ghost(lo), Ghost(hi));
                }
                out
            } else {
                *slot = Some(n);
                let item = take_root(slot, Ghost(lo), Ghost(hi));
                Some(item)
            }
        },
    }
}

} // verus!
