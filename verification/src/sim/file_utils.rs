//! The grammar of one line of a simulation script.
//!
//! A line is a list of comma-separated fields, read by position:
//! `time,kind,id,startNode,endNode`. Fields after the fifth are ignored.

use super::instr::{EndInstr, Instr, MsgInstr, RepInstr};
use crate::text::{bytes_eq, bytes_of, find_byte, first_at, parse_u32, parse_u32_spec, COMMA};
use vstd::prelude::*;
use vstd::slice::slice_subrange;

verus! {

/// What can go wrong while a simulation script is loaded.
#[derive(Debug, Clone, Copy, PartialEq, Eq, Structural)]
pub enum SimErrCode {
    Okay,
    /// The last instruction of the script is not `endSim`.
    MismatchEndSimToken,
    /// The kind of a line is none of `msg`, `rep`, `endSim`.
    UnknownInstrKind,
    /// A `msg` line without a message id.
    NoId,
    /// A line without a timestamp.
    NoTimestamp,
    /// A `msg` line without a start node.
    NoStartNode,
    /// A `msg` line without an end node.
    NoEndNode,
    /// The script could not be read.
    BadFile,
    /// A line without a kind.
    BadLine,
    /// The script holds no instruction.
    EmptyContents,
}

/// The `k`-th comma-separated field of a line, counted from zero.
///
/// A line always has a field 0, which reaches to the first comma or to the
/// end of the line, and has a field `k + 1` exactly when a comma follows
/// field `k`. A field may be empty.
pub open spec fn field(s: Seq<u8>, k: nat) -> Option<Seq<u8>>
    decreases k,
{
    let e = first_at(s, COMMA);
    if k == 0 {
        Some(s.take(e))
    } else if e == s.len() {
        None
    } else {
        field(s.skip(e + 1), (k - 1) as nat)
    }
}

/// The `k`-th field read as a number; `None` when the field is absent or is
/// not a number.
pub open spec fn field_u32(s: Seq<u8>, k: nat) -> Option<u32> {
    match field(s, k) {
        Some(t) => parse_u32_spec(t),
        None => None,
    }
}

/// The instruction that a `msg` line with the given timestamp denotes.
pub open spec fn parse_msg_spec(s: Seq<u8>, time: u32) -> Result<Instr, SimErrCode> {
    match field_u32(s, 2) {
        None => Err(SimErrCode::NoId),
        Some(msg_id) => match field_u32(s, 3) {
            None => Err(SimErrCode::NoStartNode),
            Some(start_node) => match field_u32(s, 4) {
                None => Err(SimErrCode::NoEndNode),
                Some(end_node) => Ok(
                    Instr::Msg(MsgInstr { timestamp: time, msg_id, start_node, end_node }),
                ),
            },
        },
    }
}

/// The instruction that a line denotes, or the reason why it denotes none.
///
/// The timestamp is looked at first: without one the line is rejected
/// whatever else it holds. The kind then decides which fields are needed.
pub open spec fn parse_instr_spec(s: Seq<u8>) -> Result<Instr, SimErrCode> {
    match field_u32(s, 0) {
        None => Err(SimErrCode::NoTimestamp),
        Some(time) => match field(s, 1) {
            None => Err(SimErrCode::BadLine),
            Some(kind) => if kind == bytes_of("msg"@) {
                parse_msg_spec(s, time)
            } else if kind == bytes_of("rep"@) {
                Ok(Instr::Rep(RepInstr { timestamp: time, msg_id: field_u32(s, 2) }))
            } else if kind == bytes_of("endSim"@) {
                Ok(Instr::EndSim(EndInstr(time)))
            } else {
                Err(SimErrCode::UnknownInstrKind)
            },
        },
    }
}

/// Cuts the `k`-th field out of a line.
pub fn nth_field<'a>(s: &'a [u8], k: usize) -> (r: Option<&'a [u8]>)
    ensures
        match r {
            Some(t) => field(s@, k as nat) == Some(t@),
            None => field(s@, k as nat) is None,
        },
    decreases k,
{
    let e = find_byte(s, COMMA);
    if k == 0 {
        Some(slice_subrange(s, 0, e))
    } else if e == s.len() {
        None
    } else {
        nth_field(slice_subrange(s, e + 1, s.len()), k - 1)
    }
}

/// Reads the `k`-th field of a line as a number.
pub fn nth_field_u32(s: &[u8], k: usize) -> (r: Option<u32>)
    ensures
        r == field_u32(s@, k as nat),
{
    match nth_field(s, k) {
        Some(t) => parse_u32(t),
        None => None,
    }
}

/// Reads one number from a token: an optional `+`, then decimal digits.
pub fn parse_tok(tok: &str) -> (r: Option<u32>)
    ensures
        r == parse_u32_spec(bytes_of(tok@)),
{
    parse_u32(tok.as_bytes())
}

/// Reads one instruction from a line.
pub fn parse_instr(str: &String) -> (r: Result<Instr, SimErrCode>)
    ensures
        r == parse_instr_spec(bytes_of(str@)),
{
    let line = str.as_str().as_bytes();
    let time = match nth_field_u32(line, 0) {
        Some(t) => t,
        None => { return Err(SimErrCode::NoTimestamp); },
    };
    let kind = match nth_field(line, 1) {
        Some(k) => k,
        None => { return Err(SimErrCode::BadLine); },
    };
    if bytes_eq(kind, "msg".as_bytes()) {
        let msg_id = match nth_field_u32(line, 2) {
            Some(n) => n,
            None => { return Err(SimErrCode::NoId); },
        };
        let start_node = match nth_field_u32(line, 3) {
            Some(n) => n,
            None => { return Err(SimErrCode::NoStartNode); },
        };
        let end_node = match nth_field_u32(line, 4) {
            Some(n) => n,
            None => { return Err(SimErrCode::NoEndNode); },
        };
        Ok(Instr::Msg(MsgInstr::new(time, msg_id, start_node, end_node)))
    } else if bytes_eq(kind, "rep".as_bytes()) {
        Ok(Instr::Rep(RepInstr::new(time, nth_field_u32(line, 2))))
    } else if bytes_eq(kind, "endSim".as_bytes()) {
        Ok(Instr::EndSim(EndInstr::new(time)))
    } else {
        Err(SimErrCode::UnknownInstrKind)
    }
}

} // verus!
