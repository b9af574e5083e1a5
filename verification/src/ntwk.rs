//! The network topology and its loader.

use vstd::prelude::*;

pub mod blocks;
pub mod file_utils;
pub mod node;

use self::file_utils::{step_spec, NtwkErrCode, NtwkParseState};
use self::node::{NodeModel, NtwkNode};
use crate::text::{clean, lines_bytes, strip_comment};

verus! {

/// A topology: the nodes whose blocks are complete, in the order of the
/// text, and the node whose block is being read, if there is one.
#[derive(Debug, Clone, PartialEq, Eq)]
pub struct Ntwk {
    pub node_list: Vec<NtwkNode>,
    pub open: Option<NtwkNode>,
}

/// What a topology is: the same, over the models of its nodes.
pub struct NtwkModel {
    pub nodes: Seq<NodeModel>,
    pub open: Option<NodeModel>,
}

impl View for Ntwk {
    type V = NtwkModel;

    open spec fn view(&self) -> NtwkModel {
        NtwkModel {
            nodes: Seq::new(self.node_list@.len(), |i: int| self.node_list@[i]@),
            open: match self.open {
                Some(n) => Some(n@),
                None => None,
            },
        }
    }
}

impl NtwkModel {
    /// The topology before the first line: no node, none open.
    pub open spec fn empty() -> NtwkModel {
        NtwkModel { nodes: Seq::empty(), open: None }
    }

    /// Every node of the topology is complete.
    pub open spec fn all_complete(self) -> bool {
        forall|i: int| 0 <= i < self.nodes.len() ==> (#[trigger] self.nodes[i]).complete()
    }

    /// The topology fits the state of its parser: a node is open exactly
    /// while its neighbours are being read, it still lacks at least one of
    /// them, and every other node is complete.
    pub open spec fn fits(self, state: NtwkParseState) -> bool {
        &&& self.all_complete()
        &&& self.open is Some <==> state is GetConnections
        &&& self.open is Some ==> self.open.unwrap().conn_list.len()
            < self.open.unwrap().conn_count
    }
}

/// The parser run from a given state over lines that count: the first
/// error stops the run, and nothing is read once the topology is closed.
pub open spec fn run_spec(state: NtwkParseState, t: NtwkModel, lines: Seq<Seq<u8>>) -> (
    NtwkErrCode,
    NtwkParseState,
    NtwkModel,
)
    decreases lines.len(),
{
    if lines.len() == 0 || state is Done {
        (NtwkErrCode::Okay, state, t)
    } else {
        let next = step_spec(state, t, lines[0]);
        if next.0 != NtwkErrCode::Okay {
            next
        } else {
            run_spec(next.1, next.2, lines.skip(1))
        }
    }
}

/// The nodes that the lines that count denote, or the error that stops
/// their load. Lines that end before `endNet` are an error.
pub open spec fn load_clean(lines: Seq<Seq<u8>>) -> Result<Seq<NodeModel>, NtwkErrCode> {
    let end = run_spec(NtwkParseState::NewNode, NtwkModel::empty(), lines);
    if end.0 != NtwkErrCode::Okay {
        Err(end.0)
    } else if end.1 != NtwkParseState::Done {
        Err(NtwkErrCode::UnterminatedBlock)
    } else {
        Ok(end.2.nodes)
    }
}

/// The nodes that a text denotes, or the error that stops its load:
/// comments and empty lines do not count.
pub open spec fn load_spec(lines: Seq<Seq<u8>>) -> Result<Seq<NodeModel>, NtwkErrCode> {
    load_clean(clean(lines))
}

/// A transition without error keeps the topology fit for the parser's state.
pub proof fn lemma_step_fits(state: NtwkParseState, t: NtwkModel, line: Seq<u8>)
    requires
        t.fits(state),
        step_spec(state, t, line).0 == NtwkErrCode::Okay,
    ensures
        step_spec(state, t, line).2.fits(step_spec(state, t, line).1),
{
}

impl Ntwk {
    /// A loaded topology: no node is open, and every node is complete.
    pub open spec fn wf(&self) -> bool {
        self@.open is None && self@.all_complete()
    }

    /// A topology without nodes, ready to be filled by the parser.
    pub fn new() -> (t: Ntwk)
        ensures
            t@ == NtwkModel::empty(),
    {
        let t = Ntwk { node_list: Vec::new(), open: None };
        assert(t@.nodes =~= Seq::<NodeModel>::empty());
        t
    }

    /// The number of nodes.
    pub fn len(&self) -> (n: usize)
        ensures
            n == self@.nodes.len(),
    {
        self.node_list.len()
    }

    /// Looks a node up by its id. Where several nodes share the id, the
    /// first of them in the order of the text is the one found.
    pub fn find(&self, id: u32) -> (r: Option<&NtwkNode>)
        ensures
            match r {
                Some(n) => exists|i: int|
                    0 <= i < self@.nodes.len() && #[trigger] self@.nodes[i] == n@ && n@.id == id
                        && forall|j: int| 0 <= j < i ==> (#[trigger] self@.nodes[j]).id != id,
                None => forall|j: int|
                    0 <= j < self@.nodes.len() ==> (#[trigger] self@.nodes[j]).id != id,
            },
    {
        let mut i: usize = 0;
        while i < self.node_list.len()
            invariant
                i <= self.node_list.len(),
                forall|j: int| 0 <= j < i ==> (#[trigger] self@.nodes[j]).id != id,
            decreases self.node_list.len() - i,
        {
            if self.node_list[i].id() == id {
                assert(self@.nodes[i as int] == self.node_list[i as int]@);
                return Some(&self.node_list[i]);
            }
            i += 1;
        }
        None
    }

    /// `r` is what the load of a text gives: the nodes that the text
    /// denotes in a sound topology, or the error that stops the load.
    pub open spec fn is_load_of(r: Result<Ntwk, NtwkErrCode>, lines: Seq<Seq<u8>>) -> bool {
        match r {
            Ok(t) => t.wf() && load_spec(lines) == Ok::<Seq<NodeModel>, NtwkErrCode>(t@.nodes),
            Err(e) => load_spec(lines) == Err::<Seq<NodeModel>, NtwkErrCode>(e),
        }
    }

    /// Loads a topology from the lines of its text.
    pub fn from_lines(lines: &Vec<String>) -> (r: Result<Ntwk, NtwkErrCode>)
        ensures
            Ntwk::is_load_of(r, lines_bytes(lines@)),
    {
        let ghost all = lines_bytes(lines@);
        let mut ntwk = Ntwk::new();
        let mut state = NtwkParseState::NewNode;
        let mut i: usize = 0;
        assert(all.skip(0) =~= all);
        while i < lines.len() && state != NtwkParseState::Done
            invariant
                i <= lines.len(),
                all == lines_bytes(lines@),
                ntwk@.fits(state),
                run_spec(NtwkParseState::NewNode, NtwkModel::empty(), clean(all)) == run_spec(
                    state,
                    ntwk@,
                    clean(all.skip(i as int)),
                ),
            decreases lines.len() - i,
        {
            let ghost rest = all.skip(i as int);
            assert(rest.skip(1) =~= all.skip(i + 1));
            let s = strip_comment(lines[i].clone());
            i += 1;
            if s.as_str().as_bytes().len() == 0 {
                continue ;
            }
            let (status, next) = match state {
                NtwkParseState::NewNode => NtwkParseState::parse_new_node(&mut ntwk, &s),
                NtwkParseState::GetConnections => NtwkParseState::parse_conn_list(&mut ntwk, &s),
                NtwkParseState::EndNode => NtwkParseState::handle_end_node(&s),
                NtwkParseState::EndNet => NtwkParseState::handle_end_net(&mut ntwk, &s),
                NtwkParseState::Done => (NtwkErrCode::Okay, NtwkParseState::Done),
            };
            if status != NtwkErrCode::Okay {
                return Err(status);
            }
            proof {
                let counted = clean(rest);
                assert(counted.skip(1) =~= clean(rest.skip(1)));
            }
            state = next;
        }
        if state != NtwkParseState::Done {
            return Err(NtwkErrCode::UnterminatedBlock);
        }
        Ok(ntwk)
    }
}

/// Loading is repeatable: two loads of one text agree. Both fail with the
/// same error, or both give topologies with the same nodes.
pub proof fn lemma_load_repeatable(
    lines: Seq<Seq<u8>>,
    first: Result<Ntwk, NtwkErrCode>,
    second: Result<Ntwk, NtwkErrCode>,
)
    requires
        Ntwk::is_load_of(first, lines),
        Ntwk::is_load_of(second, lines),
    ensures
        first is Ok == second is Ok,
        first is Ok ==> first->Ok_0@ == second->Ok_0@,
        first is Err ==> first->Err_0 == second->Err_0,
{
}

} // verus!
