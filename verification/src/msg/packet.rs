//! A message travelling through the network.

use crate::sim::instr::MsgInstr;
use vstd::prelude::*;
use vstd::std_specs::convert::FromSpecImpl;

verus! {

/// A message in transit. `timestamp` is the tick at which it was sent, and
/// `id` is the key under which the in-flight index holds it.
#[derive(Debug, Clone, Copy, PartialEq, Eq, Structural)]
pub struct MessagePacket {
    pub timestamp: u32,
    pub start_node: u32,
    pub current_node: u32,
    pub end_node: u32,
    pub id: u32,
}

/// The only kind of packet that travels: a message.
pub type Packet = MessagePacket;

impl MessagePacket {
    /// The packet that a send instruction puts into the network: it starts
    /// at the sender, at the tick of the instruction.
    pub open spec fn of_instr(m: MsgInstr) -> MessagePacket {
        MessagePacket {
            timestamp: m.timestamp,
            start_node: m.start_node,
            current_node: m.start_node,
            end_node: m.end_node,
            id: m.msg_id,
        }
    }
}

impl<'a> From<&'a MsgInstr> for MessagePacket {
    fn from(value: &'a MsgInstr) -> (r: Self) {
        MessagePacket {
            timestamp: value.timestamp(),
            start_node: value.start_node(),
            current_node: value.start_node(),
            end_node: value.end_node(),
            id: value.msg_id(),
        }
    }
}

impl<'a> FromSpecImpl<&'a MsgInstr> for MessagePacket {
    open spec fn obeys_from_spec() -> bool {
        true
    }

    open spec fn from_spec(value: &'a MsgInstr) -> Self {
        MessagePacket::of_instr(*value)
    }
}

} // verus!
