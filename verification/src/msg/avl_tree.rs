//! The in-flight index: a height-balanced binary search tree of packets,
//! ordered by packet id.
//!
//! The index is modelled by the sequence of its packets in in-order. No two
//! packets in the index share an id, so the order by id is strict and no tie
//! can arise.

use vstd::prelude::*;

pub mod ordered;
pub mod tree_node;

use self::ordered::{has_id, inserted, packet_of, removed, strictly_ascending, ID_LIMIT};
use self::tree_node::{
    balanced, cached_height, height, insert_at, items, lemma_split_node,
    lemma_wf_ascending_balanced, remove_at, wf_in, Link, TreeNode,
};
use super::packet::MessagePacket;

verus! {

/// Why the index refused a packet.
#[derive(Debug, Clone, Copy, PartialEq, Eq, Structural)]
pub enum TreeErrCode {
    /// A packet with the same id is in the index already.
    DuplicateId,
}

/// The in-flight index.
pub struct AvlTree {
    pub root: Link,
}

impl View for AvlTree {
    type V = Seq<MessagePacket>;

    /// The packets of the index in ascending order of id.
    open spec fn view(&self) -> Seq<MessagePacket> {
        items(self.root)
    }
}

impl AvlTree {
    /// The index is a search tree over all ids, balanced at every node, with
    /// every cached height right.
    pub open spec fn wf(&self) -> bool {
        wf_in(self.root, -1, ID_LIMIT as int)
    }

    /// In every sound index the packets ascend strictly by id, so an
    /// in-order walk yields them in that order, and the heights of the two
    /// subtrees of any node differ by at most one.
    pub proof fn lemma_ascending_and_balanced(&self)
        requires
            self.wf(),
        ensures
            strictly_ascending(self@),
            balanced(self.root),
    {
        lemma_wf_ascending_balanced(self.root, -1, ID_LIMIT as int);
    }

    /// An empty index.
    pub fn new() -> (t: Self)
        ensures
            t.wf(),
            t@ == Seq::<MessagePacket>::empty(),
    {
        AvlTree { root: None }
    }

    /// The height of the tree: 0 when it is empty.
    pub fn height(&self) -> (h: u64)
        requires
            self.wf(),
        ensures
            h == height(self.root),
    {
        cached_height(&self.root)
    }

    /// Puts a packet into the index. A packet whose id is in the index
    /// already is refused, and the index stays as it was.
    pub fn insert(&mut self, packet: MessagePacket) -> (r: Result<(), TreeErrCode>)
        requires
            old(self).wf(),
        ensures
            final(self).wf(),
            r is Ok == !has_id(old(self)@, packet.id),
            r is Ok ==> final(self)@ == inserted(old(self)@, packet),
            r is Err ==> *final(self) == *old(self),
    {
        if insert_at(&mut self.root, packet, Ghost(-1), Ghost(ID_LIMIT as int)) {
            Ok(())
        } else {
            Err(TreeErrCode::DuplicateId)
        }
    }

    /// Takes the packet with the given id out of the index and hands it
    /// back; `None`, and the index as it was, when no packet has that id.
    pub fn remove(&mut self, id: u32) -> (r: Option<MessagePacket>)
        requires
            old(self).wf(),
        ensures
            final(self).wf(),
            r is Some == has_id(old(self)@, id),
            r is Some ==> r.unwrap() == packet_of(old(self)@, id),
            r is None ==> *final(self) == *old(self),
            final(self)@ == removed(old(self)@, id),
    {
        let r = remove_at(&mut self.root, id, Ghost(-1), Ghost(ID_LIMIT as int));
        proof {
            if r is Some {
                lemma_wf_ascending_balanced(old(self).root, -1, ID_LIMIT as int);
            }
        }
        r
    }

    /// Looks up the packet with the given id.
    pub fn find(&self, id: u32) -> (r: Option<&MessagePacket>)
        requires
            self.wf(),
        ensures
            r is Some == has_id(self@, id),
            r is Some ==> *r.unwrap() == packet_of(self@, id),
    {
        proof {
            lemma_wf_ascending_balanced(self.root, -1, ID_LIMIT as int);
        }
        let mut cur: &Link = &self.root;
        let ghost mut lo: int = -1;
        let ghost mut hi: int = ID_LIMIT as int;
        let ghost mut off: int = 0;
        loop
            invariant
                strictly_ascending(self@),
                -1 <= lo,
                hi <= ID_LIMIT,
                wf_in(*cur, lo, hi),
                has_id(self@, id) == has_id(items(*cur), id),
                0 <= off,
                off + items(*cur).len() <= self@.len(),
                items(*cur) == self@.subrange(off, off + items(*cur).len()),
            decreases *cur,
        {
            match cur {
                None => {
                    return None;
                },
                Some(n) => {
                    let ghost l = items(n.left);
                    let ghost here = items(*cur);
                    proof {
                        lemma_split_node(**n, id, lo, hi);
                    }
                    if id == n.item.id {
                        return Some(&n.item);
                    } else if id < n.item.id {
                        proof {
                            hi = n.item.id as int;
                        }
                        cur = &n.left;
                    } else {
                        let ghost r = items(n.right);
                        proof {
                            let base = off + l.len() + 1;
                            assert(r =~= self@.subrange(base, base + r.len())) by {
                                assert forall|i: int| 0 <= i < r.len() implies r[i] == self@[base
                                    + i] by {
                                    assert(here[l.len() + 1 + i] == r[i]);
                                }
                            }
                            off = base;
                            lo = n.item.id as int;
                        }
                        cur = &n.right;
                    }
                },
            }
        }
    }

    /// Starts an in-order walk over the index. Walks can be started as often
    /// as wanted; each one yields every packet, in ascending order of id.
    pub fn iter(&self) -> (it: TreeAsIter<'_>)
        ensures
            it.remaining() == self@,
            self.wf() ==> strictly_ascending(it.remaining()),
    {
        proof {
            if self.wf() {
                self.lemma_ascending_and_balanced();
            }
        }
        TreeAsIter { parents: Vec::new(), curr: &self.root }
    }

    /// The packets of the index in ascending order of id.
    pub fn to_vec(&self) -> (v: Vec<MessagePacket>)
        ensures
            v@ == self@,
            self.wf() ==> strictly_ascending(v@),
    {
        let mut out: Vec<MessagePacket> = Vec::new();
        let mut it = self.iter();
        loop
            invariant
                out@ + it.remaining() == self@,
                self.wf() ==> strictly_ascending(self@),
            decreases it.remaining().len(),
        {
            match it.next() {
                Some(p) => {
                    out.push(*p);
                },
                None => {
                    return out;
                },
            }
        }
    }
}

/// An in-order walk over the index, kept as the path of nodes that still
/// have to be visited: a subtree to descend into, and below it the stack of
/// nodes whose left subtree is done.
pub struct TreeAsIter<'a> {
    pub parents: Vec<&'a TreeNode>,
    pub curr: &'a Link,
}

/// What a stack of parents still has to yield: from the top of the stack
/// down, each node and then its right subtree.
pub open spec fn pending(parents: Seq<&TreeNode>) -> Seq<MessagePacket>
    decreases parents.len(),
{
    if parents.len() == 0 {
        Seq::empty()
    } else {
        seq![parents.last().item] + items(parents.last().right) + pending(parents.drop_last())
    }
}

impl<'a> TreeAsIter<'a> {
    /// The packets that the walk has not yielded yet, in the order in which
    /// it will yield them.
    pub open spec fn remaining(&self) -> Seq<MessagePacket> {
        items(*self.curr) + pending(self.parents@)
    }

    /// Yields the next packet of the walk; `None` when the walk is over.
    pub fn next(&mut self) -> (r: Option<&'a MessagePacket>)
        ensures
            old(self).remaining().len() == 0 ==> r is None && final(self).remaining().len() == 0,
            old(self).remaining().len() > 0 ==> r == Some(&old(self).remaining()[0])
                && final(self).remaining() == old(self).remaining().skip(1),
    {
        let ghost all = self.remaining();
        loop
            invariant
                items(*self.curr) + pending(self.parents@) == all,
            ensures
                items(*self.curr) + pending(self.parents@) == all,
                *self.curr is None,
            decreases *self.curr,
        {
            match self.curr {
                None => {
                    break;
                },
                Some(n) => {
                    let ghost below = self.parents@;
                    self.parents.push(&**n);
                    self.curr = &n.left;
                    proof {
                        assert(self.parents@.drop_last() =~= below);
                    }
                },
            }
        }
        match self.parents.pop() {
            Some(n) => {
                self.curr = &n.right;
                Some(&n.item)
            },
            None => None,
        }
    }
}

} // verus!
