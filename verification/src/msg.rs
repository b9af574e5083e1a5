//! Messages in transit and the index that holds them.

pub mod avl_tree;
pub mod packet;
