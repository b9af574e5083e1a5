use guwah::msg::avl_tree::tree_node::TreeNode;
use guwah::msg::avl_tree::{AvlTree, TreeErrCode};
use guwah::msg::packet::{MessagePacket, Packet};
use guwah::sim::instr::MsgInstr;
use std::collections::BTreeMap;

fn packet(id: u32) -> MessagePacket {
    MessagePacket { timestamp: id / 3, start_node: id + 1, current_node: id + 1, end_node: id + 2, id }
}

fn walk(tree: &AvlTree) -> Vec<MessagePacket> {
    let mut out = Vec::new();
    let mut it = tree.iter();
    while let Some(p) = it.next() {
        out.push(*p);
    }
    assert_eq!(it.next(), None);
    out
}

/// The true height of a subtree; panics where a cached height is wrong or a
/// node is out of balance or out of order.
fn audit(node: &Option<Box<TreeNode>>, lo: Option<u32>, hi: Option<u32>) -> u64 {
    match node {
        None => 0,
        Some(n) => {
            let id = n.get().id;
            assert!(lo.map_or(true, |l| l < id));
            assert!(hi.map_or(true, |h| id < h));
            let hl = audit(&n.left, lo, Some(id));
            let hr = audit(&n.right, Some(id), hi);
            assert!(hl <= hr + 1 && hr <= hl + 1, "node {} has subtrees of height {} and {}", id, hl, hr);
            let h = 1 + hl.max(hr);
            assert_eq!(n.height, h);
            h
        }
    }
}

fn check(tree: &AvlTree, model: &BTreeMap<u32, MessagePacket>) {
    let h = audit(&tree.root, None, None);
    assert_eq!(tree.height(), h);
    let expected: Vec<MessagePacket> = model.values().copied().collect();
    assert_eq!(walk(tree), expected);
    assert_eq!(tree.to_vec(), expected);
    for w in expected.windows(2) {
        assert!(w[0].id < w[1].id);
    }
}

#[test]
fn empty_index() {
    let tree = AvlTree::new();
    assert_eq!(tree.height(), 0);
    assert_eq!(walk(&tree), vec![]);
    assert_eq!(tree.find(0), None);
    assert!(tree.root.is_none());
}

#[test]
fn insert_then_find() {
    let mut tree = AvlTree::new();
    assert_eq!(tree.insert(packet(5)), Ok(()));
    assert_eq!(tree.insert(packet(2)), Ok(()));
    assert_eq!(tree.insert(packet(9)), Ok(()));
    assert_eq!(tree.find(5), Some(&packet(5)));
    assert_eq!(tree.find(2), Some(&packet(2)));
    assert_eq!(tree.find(9), Some(&packet(9)));
    assert_eq!(tree.find(3), None);
    assert_eq!(walk(&tree), vec![packet(2), packet(5), packet(9)]);
    assert_eq!(tree.height(), 2);
}

#[test]
fn duplicate_id_is_refused_and_changes_nothing() {
    let mut tree = AvlTree::new();
    tree.insert(packet(5)).unwrap();
    tree.insert(packet(2)).unwrap();
    let other = MessagePacket { timestamp: 99, start_node: 0, current_node: 0, end_node: 0, id: 5 };
    assert_eq!(tree.insert(other), Err(TreeErrCode::DuplicateId));
    assert_eq!(walk(&tree), vec![packet(2), packet(5)]);
    assert_eq!(tree.find(5), Some(&packet(5)));
}

#[test]
fn remove_hands_the_packet_back() {
    let mut tree = AvlTree::new();
    for id in [5, 2, 9, 1, 3] {
        tree.insert(packet(id)).unwrap();
    }
    assert_eq!(tree.remove(2), Some(packet(2)));
    assert_eq!(tree.find(2), None);
    assert_eq!(walk(&tree), vec![packet(1), packet(3), packet(5), packet(9)]);
    assert_eq!(tree.remove(2), None);
    assert_eq!(tree.remove(7), None);
    assert_eq!(walk(&tree), vec![packet(1), packet(3), packet(5), packet(9)]);
    audit(&tree.root, None, None);
}

#[test]
fn removing_a_node_with_two_subtrees_promotes_its_successor() {
    let mut tree = AvlTree::new();
    for id in [50, 30, 70, 20, 40, 60, 80, 65] {
        tree.insert(packet(id)).unwrap();
    }
    assert_eq!(tree.root.as_ref().unwrap().get().id, 50);
    assert_eq!(tree.remove(50), Some(packet(50)));
    assert_eq!(tree.root.as_ref().unwrap().get().id, 60);
    assert_eq!(
        walk(&tree),
        vec![packet(20), packet(30), packet(40), packet(60), packet(65), packet(70), packet(80)]
    );
    audit(&tree.root, None, None);
}

#[test]
fn ascending_inserts_stay_balanced() {
    let mut tree = AvlTree::new();
    let mut model = BTreeMap::new();
    for id in 1..=1023u32 {
        tree.insert(packet(id)).unwrap();
        model.insert(id, packet(id));
    }
    check(&tree, &model);
    assert_eq!(tree.height(), 10);
}

#[test]
fn descending_inserts_stay_balanced() {
    let mut tree = AvlTree::new();
    let mut model = BTreeMap::new();
    for id in (1..=1023u32).rev() {
        tree.insert(packet(id)).unwrap();
        model.insert(id, packet(id));
    }
    check(&tree, &model);
    assert_eq!(tree.height(), 10);
}

#[test]
fn each_rotation_case() {
    for ids in [[3u32, 2, 1], [1, 2, 3], [3, 1, 2], [1, 3, 2]] {
        let mut tree = AvlTree::new();
        for id in ids {
            tree.insert(packet(id)).unwrap();
        }
        assert_eq!(tree.height(), 2, "inserting {:?}", ids);
        assert_eq!(tree.root.as_ref().unwrap().get().id, 2, "inserting {:?}", ids);
        assert_eq!(walk(&tree), vec![packet(1), packet(2), packet(3)]);
    }
}

#[test]
fn mixed_inserts_and_removes_agree_with_an_ordered_map() {
    let mut tree = AvlTree::new();
    let mut model: BTreeMap<u32, MessagePacket> = BTreeMap::new();
    let mut state: u64 = 0x9e3779b97f4a7c15;
    for step in 0..6000u32 {
        state = state.wrapping_mul(6364136223846793005).wrapping_add(1442695040888963407);
        let id = ((state >> 33) % 257) as u32;
        if (state >> 20) % 3 == 0 {
            assert_eq!(tree.remove(id), model.remove(&id), "step {}", step);
        } else {
            let fresh = !model.contains_key(&id);
            let r = tree.insert(packet(id));
            assert_eq!(r.is_ok(), fresh, "step {}", step);
            if fresh {
                model.insert(id, packet(id));
            }
        }
        assert_eq!(tree.find(id), model.get(&id), "step {}", step);
        if step % 97 == 0 {
            check(&tree, &model);
        }
    }
    check(&tree, &model);
    let ids: Vec<u32> = model.keys().copied().collect();
    for id in ids {
        assert_eq!(tree.remove(id), model.remove(&id));
        audit(&tree.root, None, None);
    }
    assert_eq!(walk(&tree), vec![]);
    assert_eq!(tree.height(), 0);
}

#[test]
fn extreme_ids() {
    let mut tree = AvlTree::new();
    tree.insert(packet(u32::MAX - 2)).unwrap();
    tree.insert(packet(0)).unwrap();
    let top = MessagePacket { timestamp: 1, start_node: 2, current_node: 2, end_node: 3, id: u32::MAX };
    tree.insert(top).unwrap();
    assert_eq!(walk(&tree), vec![packet(0), packet(u32::MAX - 2), top]);
    assert_eq!(tree.remove(u32::MAX), Some(top));
    assert_eq!(tree.remove(0), Some(packet(0)));
    assert_eq!(walk(&tree), vec![packet(u32::MAX - 2)]);
}

#[test]
fn walks_can_be_started_again() {
    let mut tree = AvlTree::new();
    for id in [4, 1, 3, 2] {
        tree.insert(packet(id)).unwrap();
    }
    let first = walk(&tree);
    let second = walk(&tree);
    assert_eq!(first, second);
    let mut a = tree.iter();
    let mut b = tree.iter();
    assert_eq!(a.next(), Some(&packet(1)));
    assert_eq!(a.next(), Some(&packet(2)));
    assert_eq!(b.next(), Some(&packet(1)));
}

#[test]
fn a_new_node_is_a_leaf() {
    let n = TreeNode::new(packet(7));
    assert_eq!(*n.get(), packet(7));
    assert_eq!(n.height, 1);
    assert!(n.left.is_none() && n.right.is_none());
}

#[test]
fn packet_of_a_send_instruction() {
    let m = MsgInstr::new(4, 7, 1, 2);
    let p: Packet = MessagePacket::from(&m);
    assert_eq!(
        p,
        MessagePacket { timestamp: 4, start_node: 1, current_node: 1, end_node: 2, id: 7 }
    );
}
