//! The shape of a well-formed topology text, and what the loader makes of
//! one: a node for each block, each with the neighbours that its block
//! lists.

use super::file_utils::{
    conn_list_spec, end_net_token, end_node_token, header_spec, new_node_spec, number_spec,
    step_spec, NtwkErrCode, NtwkParseState,
};
use super::node::NodeModel;
use super::{load_spec, run_spec, NtwkModel};
use crate::text::{clean, lemma_clean_members, lemma_first_at_unique, strip_comment_spec, COMMA};
use vstd::prelude::*;

verus! {

/// `lines` is the block of the node `n`: a header with the node's id, the
/// number of its neighbours and its queue delay, then one line for each
/// neighbour in turn, then `endNode`.
pub open spec fn is_block(lines: Seq<Seq<u8>>, n: NodeModel) -> bool {
    &&& n.complete()
    &&& n.conn_count <= u32::MAX
    &&& lines.len() == n.conn_count + 2
    &&& header_spec(lines[0]) == Some((n.id, n.conn_count as u32, n.queue_delay))
    &&& forall|i: int|
        0 <= i < n.conn_count ==> number_spec(#[trigger] lines[1 + i]) == Some(n.conn_list[i])
    &&& lines[lines.len() - 1] == end_node_token()
}

/// `blocks` holds the blocks of the nodes `nodes`, one for one.
pub open spec fn are_blocks(blocks: Seq<Seq<Seq<u8>>>, nodes: Seq<NodeModel>) -> bool {
    &&& blocks.len() == nodes.len()
    &&& forall|i: int| 0 <= i < blocks.len() ==> is_block(#[trigger] blocks[i], nodes[i])
}

/// The lines of a run of blocks, one block after the other.
pub open spec fn blocks_text(blocks: Seq<Seq<Seq<u8>>>) -> Seq<Seq<u8>>
    decreases blocks.len(),
{
    if blocks.len() == 0 {
        Seq::empty()
    } else {
        blocks[0] + blocks_text(blocks.skip(1))
    }
}

/// A run that reads `a` without error and without closing the topology goes
/// on over `b` from where `a` left it.
pub proof fn lemma_run_concat(
    state: NtwkParseState,
    t: NtwkModel,
    a: Seq<Seq<u8>>,
    b: Seq<Seq<u8>>,
)
    requires
        run_spec(state, t, a).0 == NtwkErrCode::Okay,
        !(run_spec(state, t, a).1 is Done),
    ensures
        run_spec(state, t, a + b) == run_spec(
            run_spec(state, t, a).1,
            run_spec(state, t, a).2,
            b,
        ),
    decreases a.len(),
{
    if a.len() > 0 {
        let next = step_spec(state, t, a[0]);
        assert((a + b).skip(1) =~= a.skip(1) + b);
        lemma_run_concat(next.1, next.2, a.skip(1), b);
    }
}

/// `endNet` is no block header: it holds no comma.
pub proof fn lemma_end_net_is_no_header()
    ensures
        header_spec(end_net_token()) is None,
{
    let s = "endNet";
    reveal_strlit("endNet");
    vstd::utf8::is_ascii_chars_encode_utf8(s@);
    let b = end_net_token();
    lemma_first_at_unique(b, COMMA, b.len() as int);
}

/// From the `k`-th neighbour line on, the rest of a block completes the
/// open node and closes the block.
proof fn lemma_run_conns(t: NtwkModel, block: Seq<Seq<u8>>, n: NodeModel, k: int)
    requires
        is_block(block, n),
        0 <= k < n.conn_count,
        t.open == Some(NodeModel { conn_list: n.conn_list.take(k), ..n }),
    ensures
        run_spec(NtwkParseState::GetConnections, t, block.skip(1 + k)) == (
            NtwkErrCode::Okay,
            NtwkParseState::EndNet,
            NtwkModel { nodes: t.nodes.push(n), open: None },
        ),
    decreases n.conn_count - k,
{
    let rest = block.skip(1 + k);
    assert(rest.skip(1) =~= block.skip(2 + k));
    let next = conn_list_spec(t, rest[0]);
    let grown = t.open.unwrap().with_conn(n.conn_list[k]);
    assert(grown.conn_list =~= n.conn_list.take(k + 1));
    if k + 1 < n.conn_count {
        lemma_run_conns(next.2, block, n, k + 1);
    } else {
        assert(n.conn_list.take(k + 1) =~= n.conn_list);
        let last = block.skip(2 + k);
        let closed = NtwkModel { nodes: t.nodes.push(n), open: None };
        assert(run_spec(NtwkParseState::EndNet, closed, last.skip(1)) == (
            NtwkErrCode::Okay,
            NtwkParseState::EndNet,
            closed,
        ));
        assert(run_spec(NtwkParseState::EndNode, closed, last) == (
            NtwkErrCode::Okay,
            NtwkParseState::EndNet,
            closed,
        ));
    }
}

/// Where a block may begin, a block adds its node to the topology and
/// leaves the parser where the next block, or `endNet`, may begin.
pub proof fn lemma_run_block(state: NtwkParseState, t: NtwkModel, block: Seq<Seq<u8>>, n: NodeModel)
    requires
        state is NewNode || state is EndNet,
        t.open is None,
        is_block(block, n),
    ensures
        run_spec(state, t, block) == (
            NtwkErrCode::Okay,
            NtwkParseState::EndNet,
            NtwkModel { nodes: t.nodes.push(n), open: None },
        ),
{
    lemma_end_net_is_no_header();
    let opened = new_node_spec(t, block[0]);
    assert(n.conn_list.take(0) =~= Seq::<u32>::empty());
    lemma_run_conns(opened.2, block, n, 0);
}

/// A run of blocks adds one node for each block, in the order of the text.
pub proof fn lemma_run_blocks(
    state: NtwkParseState,
    t: NtwkModel,
    blocks: Seq<Seq<Seq<u8>>>,
    nodes: Seq<NodeModel>,
)
    requires
        state is NewNode || state is EndNet,
        t.open is None,
        are_blocks(blocks, nodes),
    ensures
        run_spec(state, t, blocks_text(blocks)) == (
            NtwkErrCode::Okay,
            if blocks.len() == 0 {
                state
            } else {
                NtwkParseState::EndNet
            },
            NtwkModel { nodes: t.nodes + nodes, open: None },
        ),
    decreases blocks.len(),
{
    if blocks.len() > 0 {
        let rest = blocks.skip(1);
        let after = NtwkModel { nodes: t.nodes.push(nodes[0]), open: None };
        lemma_run_block(state, t, blocks[0], nodes[0]);
        lemma_run_concat(state, t, blocks[0], blocks_text(rest));
        lemma_run_blocks(NtwkParseState::EndNet, after, rest, nodes.skip(1));
        assert(after.nodes + nodes.skip(1) =~= t.nodes + nodes);
    }
}

/// A well-formed topology text loads, and gives one node for each of its
/// blocks, each with as many neighbours as it declares: a text whose lines
/// that count are one or more blocks and then `endNet` denotes the nodes of
/// the blocks, in their order, whatever follows `endNet`.
pub proof fn lemma_load_blocks(
    lines: Seq<Seq<u8>>,
    blocks: Seq<Seq<Seq<u8>>>,
    nodes: Seq<NodeModel>,
    tail: Seq<Seq<u8>>,
)
    requires
        blocks.len() > 0,
        are_blocks(blocks, nodes),
        clean(lines) == blocks_text(blocks) + seq![end_net_token()] + tail,
    ensures
        load_spec(lines) == Ok::<Seq<NodeModel>, NtwkErrCode>(nodes),
        nodes.len() == blocks.len(),
        forall|i: int|
            0 <= i < nodes.len() ==> (#[trigger] nodes[i]).conn_list.len() == nodes[i].conn_count,
{
    assert forall|i: int| 0 <= i < nodes.len() implies (#[trigger] nodes[i]).conn_list.len()
        == nodes[i].conn_count by {
        assert(is_block(blocks[i], nodes[i]));
    }
    let start = NtwkModel::empty();
    let body = blocks_text(blocks);
    let close = seq![end_net_token()] + tail;
    let full = NtwkModel { nodes: nodes, open: None };
    lemma_run_blocks(NtwkParseState::NewNode, start, blocks, nodes);
    lemma_run_concat(NtwkParseState::NewNode, start, body, close);
    assert(body + seq![end_net_token()] + tail =~= body + close);
    assert(run_spec(NtwkParseState::Done, full, close.skip(1)) == (
        NtwkErrCode::Okay,
        NtwkParseState::Done,
        full,
    ));
}

/// After any run of blocks, a header that declares no connection stops the
/// load with `HasZeroConnections`.
pub proof fn lemma_load_zero_connections(
    lines: Seq<Seq<u8>>,
    blocks: Seq<Seq<Seq<u8>>>,
    nodes: Seq<NodeModel>,
    header: Seq<u8>,
    tail: Seq<Seq<u8>>,
)
    requires
        are_blocks(blocks, nodes),
        header_spec(header) is Some,
        header_spec(header).unwrap().1 == 0,
        clean(lines) == blocks_text(blocks) + seq![header] + tail,
    ensures
        load_spec(lines) == Err::<Seq<NodeModel>, NtwkErrCode>(NtwkErrCode::HasZeroConnections),
{
    let start = NtwkModel::empty();
    let body = blocks_text(blocks);
    let rest = seq![header] + tail;
    lemma_end_net_is_no_header();
    lemma_run_blocks(NtwkParseState::NewNode, start, blocks, nodes);
    lemma_run_concat(NtwkParseState::NewNode, start, body, rest);
    assert(body + seq![header] + tail =~= body + rest);
}

/// Only `endNet` closes a topology: a text without a line that is `endNet`
/// once its comment is gone does not load.
pub proof fn lemma_load_needs_end_net(lines: Seq<Seq<u8>>)
    requires
        forall|i: int|
            0 <= i < lines.len() ==> strip_comment_spec(#[trigger] lines[i]) != end_net_token(),
    ensures
        load_spec(lines) is Err,
{
    lemma_clean_members(lines);
    lemma_run_needs_end_net(NtwkParseState::NewNode, NtwkModel::empty(), clean(lines));
}

/// A run over lines that hold no `endNet` ends in an error or short of
/// `Done`.
proof fn lemma_run_needs_end_net(state: NtwkParseState, t: NtwkModel, lines: Seq<Seq<u8>>)
    requires
        !(state is Done),
        forall|i: int| 0 <= i < lines.len() ==> #[trigger] lines[i] != end_net_token(),
    ensures
        run_spec(state, t, lines).0 != NtwkErrCode::Okay || !(run_spec(state, t, lines).1 is Done),
    decreases lines.len(),
{
    if lines.len() > 0 {
        let next = step_spec(state, t, lines[0]);
        if next.0 == NtwkErrCode::Okay {
            lemma_run_needs_end_net(next.1, next.2, lines.skip(1));
        }
    }
}

} // verus!
