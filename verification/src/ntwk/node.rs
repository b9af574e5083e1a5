//! One vertex of the network.

use super::file_utils::NtwkErrCode;
use vstd::prelude::*;

verus! {

/// A node of the topology: its id, the number of connections that its block
/// declares, the neighbours read so far, and its queue delay.
#[derive(Debug, Clone, PartialEq, Eq)]
pub struct NtwkNode {
    pub id: u32,
    pub conn_count: usize,
    pub conn_list: Vec<u32>,
    pub queue_delay: u32,
}

/// What a node is: the same fields, with the neighbours as a sequence.
pub struct NodeModel {
    pub id: u32,
    pub conn_count: nat,
    pub conn_list: Seq<u32>,
    pub queue_delay: u32,
}

impl NodeModel {
    /// A node is complete when it has as many neighbours as it declared, and
    /// it declared at least one.
    pub open spec fn complete(self) -> bool {
        self.conn_count > 0 && self.conn_list.len() == self.conn_count
    }

    /// The node with one more neighbour at the end of its list.
    pub open spec fn with_conn(self, conn: u32) -> NodeModel {
        NodeModel { conn_list: self.conn_list.push(conn), ..self }
    }

    /// The node that a block header opens: no neighbour yet.
    pub open spec fn opened(id: u32, conn_count: u32, queue_delay: u32) -> NodeModel {
        NodeModel { id, conn_count: conn_count as nat, conn_list: Seq::empty(), queue_delay }
    }
}

impl View for NtwkNode {
    type V = NodeModel;

    open spec fn view(&self) -> NodeModel {
        NodeModel {
            id: self.id,
            conn_count: self.conn_count as nat,
            conn_list: self.conn_list@,
            queue_delay: self.queue_delay,
        }
    }
}

impl NtwkNode {
    /// Opens a node. A node that declares no connection is refused.
    pub fn new(id: u32, conn_count: u32, queue_delay: u32) -> (r: Result<NtwkNode, NtwkErrCode>)
        ensures
            match r {
                Ok(n) => conn_count != 0 && n@ == NodeModel::opened(id, conn_count, queue_delay),
                Err(e) => conn_count == 0 && e == NtwkErrCode::HasZeroConnections,
            },
    {
        if conn_count == 0 {
            return Err(NtwkErrCode::HasZeroConnections);
        }
        Ok(NtwkNode { id, conn_count: conn_count as usize, conn_list: Vec::new(), queue_delay })
    }

    pub fn id(&self) -> (id: u32)
        ensures
            id == self@.id,
    {
        self.id
    }

    /// The number of connections that the node declared.
    pub fn conn_count(&self) -> (n: usize)
        ensures
            n == self@.conn_count,
    {
        self.conn_count
    }

    /// The number of neighbours read so far.
    pub fn conn_len(&self) -> (n: usize)
        ensures
            n == self@.conn_list.len(),
    {
        self.conn_list.len()
    }

    pub fn queue_delay(&self) -> (d: u32)
        ensures
            d == self@.queue_delay,
    {
        self.queue_delay
    }

    /// Adds a neighbour at the end of the list.
    pub fn push(&mut self, conn: u32)
        ensures
            final(self)@ == old(self)@.with_conn(conn),
    {
        self.conn_list.push(conn);
    }
}

} // verus!
