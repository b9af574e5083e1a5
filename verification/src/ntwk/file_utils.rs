//! The grammar of a topology text and the transitions of its parser.
//!
//! A topology is a run of node blocks closed by the line `endNet`. A block
//! is a header `id,connCount,queueDelay`, then one neighbour id per line, as
//! many as the header declares, then the line `endNode`. White space around
//! a number does not count; the two closing lines are taken to the letter.

use super::node::{NodeModel, NtwkNode};
use super::{Ntwk, NtwkModel};
use crate::text::{
    bytes_eq, bytes_of, find_byte, first_at, parse_u32, parse_u32_spec, trim, trim_spec, COMMA,
};
use vstd::prelude::*;
use vstd::slice::slice_subrange;

verus! {

/// What can go wrong while a topology is loaded. `Okay` says that nothing
/// did.
#[derive(Debug, Clone, Copy, PartialEq, Eq, Structural)]
pub enum NtwkErrCode {
    Okay,
    /// A block declares that its node has no connection.
    HasZeroConnections,
    /// A block is not closed by `endNode`.
    MismatchEndNodeToken,
    /// The text could not be read.
    BadFile,
    /// A line is neither the header nor the neighbour id that is due.
    BadLine,
    /// The text ends before `endNet`.
    UnterminatedBlock,
}

/// Where the parser stands: which kind of line it waits for.
#[derive(Debug, Clone, Copy, PartialEq, Eq, Structural)]
pub enum NtwkParseState {
    /// A block header.
    NewNode,
    /// A neighbour id of the open node.
    GetConnections,
    /// The line `endNode`.
    EndNode,
    /// The line `endNet`, or the header of one more block.
    EndNet,
    /// Nothing: the topology is closed.
    Done,
}

/// The line that closes a block.
pub open spec fn end_node_token() -> Seq<u8> {
    bytes_of("endNode"@)
}

/// The line that closes the topology.
pub open spec fn end_net_token() -> Seq<u8> {
    bytes_of("endNet"@)
}

/// The number that a piece of a topology line denotes: white space around
/// it does not count.
pub open spec fn number_spec(s: Seq<u8>) -> Option<u32> {
    parse_u32_spec(trim_spec(s))
}

/// The three numbers of a block header: the text up to the first comma, the
/// text between the first and the second comma, and all the rest, each of
/// them a number.
pub open spec fn header_spec(s: Seq<u8>) -> Option<(u32, u32, u32)> {
    let e0 = first_at(s, COMMA);
    let r1 = s.skip(e0 + 1);
    let e1 = first_at(r1, COMMA);
    let r2 = r1.skip(e1 + 1);
    if e0 < s.len() && e1 < r1.len() {
        match (number_spec(s.take(e0)), number_spec(r1.take(e1)), number_spec(r2)) {
            (Some(id), Some(conn_count), Some(queue_delay)) => Some((id, conn_count, queue_delay)),
            _ => None,
        }
    } else {
        None
    }
}

/// Reads a number from a piece of a topology line.
pub fn parse_number(s: &[u8]) -> (r: Option<u32>)
    ensures
        r == number_spec(s@),
{
    parse_u32(trim(s))
}

/// Reads the three numbers of a block header.
pub fn parse_header(s: &[u8]) -> (r: Option<(u32, u32, u32)>)
    ensures
        r == header_spec(s@),
{
    let e0 = find_byte(s, COMMA);
    if e0 == s.len() {
        return None;
    }
    let r1 = slice_subrange(s, e0 + 1, s.len());
    let e1 = find_byte(r1, COMMA);
    if e1 == r1.len() {
        return None;
    }
    let r2 = slice_subrange(r1, e1 + 1, r1.len());
    let id = parse_number(slice_subrange(s, 0, e0));
    let conn_count = parse_number(slice_subrange(r1, 0, e1));
    let queue_delay = parse_number(r2);
    match (id, conn_count, queue_delay) {
        (Some(a), Some(b), Some(c)) => Some((a, b, c)),
        _ => None,
    }
}

/// What a header line does to the topology under construction: it opens a
/// node, unless the line is no header or declares no connection.
pub open spec fn new_node_spec(t: NtwkModel, line: Seq<u8>) -> (
    NtwkErrCode,
    NtwkParseState,
    NtwkModel,
) {
    match header_spec(line) {
        None => (NtwkErrCode::BadLine, NtwkParseState::GetConnections, t),
        Some((id, conn_count, queue_delay)) => if conn_count == 0 {
            (NtwkErrCode::HasZeroConnections, NtwkParseState::GetConnections, t)
        } else {
            (
                NtwkErrCode::Okay,
                NtwkParseState::GetConnections,
                NtwkModel {
                    open: Some(NodeModel::opened(id, conn_count, queue_delay)),
                    ..t
                },
            )
        },
    }
}

/// What a neighbour line does: the id joins the open node; once the node has
/// as many neighbours as it declared it joins the topology, and the parser
/// waits for `endNode`.
pub open spec fn conn_list_spec(t: NtwkModel, line: Seq<u8>) -> (
    NtwkErrCode,
    NtwkParseState,
    NtwkModel,
)
    recommends
        t.open is Some,
{
    match number_spec(line) {
        None => (NtwkErrCode::BadLine, NtwkParseState::GetConnections, t),
        Some(conn) => {
            let node = t.open.unwrap().with_conn(conn);
            if node.conn_list.len() >= node.conn_count {
                (
                    NtwkErrCode::Okay,
                    NtwkParseState::EndNode,
                    NtwkModel { nodes: t.nodes.push(node), open: None },
                )
            } else {
                (
                    NtwkErrCode::Okay,
                    NtwkParseState::GetConnections,
                    NtwkModel { open: Some(node), ..t },
                )
            }
        },
    }
}

/// What the line after a node's last neighbour does: it must be `endNode`.
pub open spec fn end_node_spec(line: Seq<u8>) -> (NtwkErrCode, NtwkParseState) {
    if line == end_node_token() {
        (NtwkErrCode::Okay, NtwkParseState::EndNet)
    } else {
        (NtwkErrCode::MismatchEndNodeToken, NtwkParseState::EndNet)
    }
}

/// What the line after `endNode` does: `endNet` closes the topology, and
/// anything else is read as the header of one more block.
pub open spec fn end_net_spec(t: NtwkModel, line: Seq<u8>) -> (
    NtwkErrCode,
    NtwkParseState,
    NtwkModel,
) {
    if line == end_net_token() {
        (NtwkErrCode::Okay, NtwkParseState::Done, t)
    } else {
        new_node_spec(t, line)
    }
}

/// One transition of the parser: from a state, the topology under
/// construction and a line, to an error code, the next state and the
/// topology after the line.
pub open spec fn step_spec(state: NtwkParseState, t: NtwkModel, line: Seq<u8>) -> (
    NtwkErrCode,
    NtwkParseState,
    NtwkModel,
) {
    match state {
        NtwkParseState::NewNode => new_node_spec(t, line),
        NtwkParseState::GetConnections => conn_list_spec(t, line),
        NtwkParseState::EndNode => (end_node_spec(line).0, end_node_spec(line).1, t),
        NtwkParseState::EndNet => end_net_spec(t, line),
        NtwkParseState::Done => (NtwkErrCode::Okay, NtwkParseState::Done, t),
    }
}

impl NtwkParseState {
    /// Reads the line that should close the topology or open one more block.
    pub fn handle_end_net(ntwk: &mut Ntwk, str: &String) -> (r: (NtwkErrCode, NtwkParseState))
        ensures
            (r.0, r.1, final(ntwk)@) == end_net_spec(old(ntwk)@, bytes_of(str@)),
    {
        if bytes_eq(str.as_str().as_bytes(), "endNet".as_bytes()) {
            (NtwkErrCode::Okay, NtwkParseState::Done)
        } else {
            Self::parse_new_node(ntwk, str)
        }
    }

    /// Reads the line that should close a block.
    pub fn handle_end_node(str: &String) -> (r: (NtwkErrCode, NtwkParseState))
        ensures
            r == end_node_spec(bytes_of(str@)),
    {
        if bytes_eq(str.as_str().as_bytes(), "endNode".as_bytes()) {
            (NtwkErrCode::Okay, NtwkParseState::EndNet)
        } else {
            (NtwkErrCode::MismatchEndNodeToken, NtwkParseState::EndNet)
        }
    }

    /// Reads one neighbour id of the open node.
    pub fn parse_conn_list(ntwk: &mut Ntwk, str: &String) -> (r: (NtwkErrCode, NtwkParseState))
        requires
            old(ntwk).open is Some,
        ensures
            (r.0, r.1, final(ntwk)@) == conn_list_spec(old(ntwk)@, bytes_of(str@)),
    {
        let conn = match parse_number(str.as_str().as_bytes()) {
            Some(c) => c,
            None => { return (NtwkErrCode::BadLine, NtwkParseState::GetConnections); },
        };
        let mut node = ntwk.open.take().unwrap();
        node.push(conn);
        if node.conn_len() >= node.conn_count() {
            ntwk.node_list.push(node);
            assert(ntwk@.nodes =~= old(ntwk)@.nodes.push(node@));
            (NtwkErrCode::Okay, NtwkParseState::EndNode)
        } else {
            ntwk.open = Some(node);
            (NtwkErrCode::Okay, NtwkParseState::GetConnections)
        }
    }

    /// Reads a block header and opens its node.
    pub fn parse_new_node(ntwk: &mut Ntwk, str: &String) -> (r: (NtwkErrCode, NtwkParseState))
        ensures
            (r.0, r.1, final(ntwk)@) == new_node_spec(old(ntwk)@, bytes_of(str@)),
    {
        let (id, conn_count, queue_delay) = match parse_header(str.as_str().as_bytes()) {
            Some(h) => h,
            None => { return (NtwkErrCode::BadLine, NtwkParseState::GetConnections); },
        };
        match NtwkNode::new(id, conn_count, queue_delay) {
            Ok(node) => {
                ntwk.open = Some(node);
                (NtwkErrCode::Okay, NtwkParseState::GetConnections)
            },
            Err(e) => (e, NtwkParseState::GetConnections),
        }
    }
}

} // verus!
