//! The instructions of a simulation script.

use vstd::prelude::*;

verus! {

/// Sends a message from one node to another.
#[derive(Debug, Clone, Copy, PartialEq, Eq, Structural)]
pub struct MsgInstr {
    pub timestamp: u32,
    pub msg_id: u32,
    pub start_node: u32,
    pub end_node: u32,
}

/// Asks for a report: on one message when `msg_id` is given, on every
/// message in flight when it is not.
#[derive(Debug, Clone, Copy, PartialEq, Eq)]
pub struct RepInstr {
    pub timestamp: u32,
    pub msg_id: Option<u32>,
}

/// Ends the simulation.
#[derive(Debug, Clone, Copy, PartialEq, Eq, Structural)]
pub struct EndInstr(pub u32);

/// One scripted action. Every instruction carries the tick at which it
/// takes effect.
#[derive(Debug, Clone, Copy, PartialEq, Eq)]
pub enum Instr {
    Msg(MsgInstr),
    Rep(RepInstr),
    EndSim(EndInstr),
}

impl MsgInstr {
    pub fn new(timestamp: u32, msg_id: u32, start_node: u32, end_node: u32) -> (r: MsgInstr)
        ensures
            r == (MsgInstr { timestamp, msg_id, start_node, end_node }),
    {
        MsgInstr { timestamp, msg_id, start_node, end_node }
    }

    pub fn timestamp(&self) -> (t: u32)
        ensures
            t == self.timestamp,
    {
        self.timestamp
    }

    pub fn start_node(&self) -> (n: u32)
        ensures
            n == self.start_node,
    {
        self.start_node
    }

    pub fn end_node(&self) -> (n: u32)
        ensures
            n == self.end_node,
    {
        self.end_node
    }

    pub fn msg_id(&self) -> (id: u32)
        ensures
            id == self.msg_id,
    {
        self.msg_id
    }

    pub fn is_endsim(&self) -> (b: bool)
        ensures
            !b,
    {
        false
    }
}

impl RepInstr {
    pub fn new(timestamp: u32, msg_id: Option<u32>) -> (r: RepInstr)
        ensures
            r == (RepInstr { timestamp, msg_id }),
    {
        RepInstr { timestamp, msg_id }
    }

    pub fn timestamp(&self) -> (t: u32)
        ensures
            t == self.timestamp,
    {
        self.timestamp
    }

    pub fn is_endsim(&self) -> (b: bool)
        ensures
            !b,
    {
        false
    }

    pub fn msg_id(&self) -> (id: Option<u32>)
        ensures
            id == self.msg_id,
    {
        self.msg_id
    }
}

impl EndInstr {
    pub fn new(timestamp: u32) -> (r: EndInstr)
        ensures
            r == EndInstr(timestamp),
    {
        EndInstr(timestamp)
    }

    pub fn timestamp(&self) -> (t: u32)
        ensures
            t == self.0,
    {
        self.0
    }

    pub fn is_endsim(&self) -> (b: bool)
        ensures
            b,
    {
        true
    }
}

impl Instr {
    /// The tick at which the instruction takes effect.
    pub open spec fn time(&self) -> u32 {
        match *self {
            Instr::Msg(m) => m.timestamp,
            Instr::Rep(r) => r.timestamp,
            Instr::EndSim(e) => e.0,
        }
    }

    /// Whether the instruction ends the simulation.
    pub open spec fn ends_sim(&self) -> bool {
        self is EndSim
    }

    #[verifier::when_used_as_spec(time)]
    pub fn timestamp(&self) -> (t: u32)
        ensures
            t == self.time(),
    {
        match self {
            Instr::Msg(m) => m.timestamp(),
            Instr::Rep(r) => r.timestamp(),
            Instr::EndSim(e) => e.timestamp(),
        }
    }

    #[verifier::when_used_as_spec(ends_sim)]
    pub fn is_endsim(&self) -> (b: bool)
        ensures
            b == self.ends_sim(),
    {
        match self {
            Instr::Msg(m) => m.is_endsim(),
            Instr::Rep(r) => r.is_endsim(),
            Instr::EndSim(e) => e.is_endsim(),
        }
    }
}

} // verus!
