//! The clock driver: it walks the tick-aligned sequence of a script and
//! applies each instruction to the in-flight index.

use crate::msg::avl_tree::ordered::{has_id, inserted, packet_of, removed};
use crate::msg::avl_tree::AvlTree;
use crate::msg::packet::MessagePacket;
use crate::ntwk::file_utils::NtwkErrCode;
use crate::ntwk::Ntwk;
use crate::sim::file_utils::SimErrCode;
use crate::sim::instr::Instr;
use crate::sim::{InstrSet, Sim};
use crate::text::lines_bytes;
use vstd::prelude::*;

verus! {

/// What the driver reports while it runs.
#[derive(Debug, Clone, PartialEq, Eq)]
pub enum SimEvent {
    /// A report asked for a message that was in flight: the message is
    /// delivered and leaves the index.
    Delivered { tick: u32, packet: MessagePacket },
    /// A report asked for a message that was not in flight.
    QueryMiss { tick: u32, msg_id: u32 },
    /// A report asked for everything: all messages in flight, in ascending
    /// order of id. They stay in flight.
    Snapshot { tick: u32, packets: Vec<MessagePacket> },
}

/// What an event is: the same, with the snapshot as a sequence.
pub enum EventModel {
    Delivered { tick: u32, packet: MessagePacket },
    QueryMiss { tick: u32, msg_id: u32 },
    Snapshot { tick: u32, packets: Seq<MessagePacket> },
}

impl View for SimEvent {
    type V = EventModel;

    open spec fn view(&self) -> EventModel {
        match *self {
            SimEvent::Delivered { tick, packet } => EventModel::Delivered { tick, packet },
            SimEvent::QueryMiss { tick, msg_id } => EventModel::QueryMiss { tick, msg_id },
            SimEvent::Snapshot { tick, packets } => EventModel::Snapshot { tick, packets: packets@ },
        }
    }
}

/// Whether the driver still pulls ticks.
#[derive(Debug, Clone, Copy, PartialEq, Eq, Structural)]
pub enum DriverState {
    Running,
    Terminated,
}

/// How a run ended. `Okay` says that nothing went wrong.
#[derive(Debug, Clone, Copy, PartialEq, Eq, Structural)]
pub enum TimelineErrCode {
    Okay,
    /// A message was sent under the id of a message that is in flight.
    DuplicateId,
}

/// Why a simulation did not start.
#[derive(Debug, Clone, Copy, PartialEq, Eq)]
pub enum LoadErrCode {
    /// The topology did not load.
    Ntwk(NtwkErrCode),
    /// The topology loaded and the script did not.
    Sim(SimErrCode),
}

/// The driver: its state, how it ended if it did, the in-flight index, and
/// the events reported so far.
pub struct ClockDriver {
    pub state: DriverState,
    pub status: TimelineErrCode,
    pub tree: AvlTree,
    pub events: Vec<SimEvent>,
}

/// What a driver is: the same, with the index as its packets in ascending
/// order of id and the events as a sequence.
pub struct DriverModel {
    pub state: DriverState,
    pub status: TimelineErrCode,
    pub in_flight: Seq<MessagePacket>,
    pub events: Seq<EventModel>,
}

impl View for ClockDriver {
    type V = DriverModel;

    open spec fn view(&self) -> DriverModel {
        DriverModel {
            state: self.state,
            status: self.status,
            in_flight: self.tree@,
            events: Seq::new(self.events@.len(), |i: int| self.events@[i]@),
        }
    }
}

impl DriverModel {
    /// A driver before its first tick: running, nothing in flight, nothing
    /// reported.
    pub open spec fn start() -> DriverModel {
        DriverModel {
            state: DriverState::Running,
            status: TimelineErrCode::Okay,
            in_flight: Seq::empty(),
            events: Seq::empty(),
        }
    }

    /// The driver after one instruction.
    ///
    /// A send puts a packet in flight; under an id that is in flight already
    /// it stops the driver with `DuplicateId`. A report on one id delivers
    /// that packet, or reports a miss and changes nothing else. A report
    /// without id reports everything in flight and changes nothing else. The
    /// end of the simulation stops the driver, whatever is in flight. A
    /// driver that has stopped takes no instruction.
    pub open spec fn apply(self, instr: Instr) -> DriverModel {
        if self.state is Terminated {
            self
        } else {
            match instr {
                Instr::Msg(m) => {
                    let p = MessagePacket::of_instr(m);
                    if has_id(self.in_flight, p.id) {
                        DriverModel {
                            state: DriverState::Terminated,
                            status: TimelineErrCode::DuplicateId,
                            ..self
                        }
                    } else {
                        DriverModel { in_flight: inserted(self.in_flight, p), ..self }
                    }
                },
                Instr::Rep(r) => match r.msg_id {
                    Some(id) => if has_id(self.in_flight, id) {
                        DriverModel {
                            in_flight: removed(self.in_flight, id),
                            events: self.events.push(
                                EventModel::Delivered {
                                    tick: r.timestamp,
                                    packet: packet_of(self.in_flight, id),
                                },
                            ),
                            ..self
                        }
                    } else {
                        DriverModel {
                            events: self.events.push(
                                EventModel::QueryMiss { tick: r.timestamp, msg_id: id },
                            ),
                            ..self
                        }
                    },
                    None => DriverModel {
                        events: self.events.push(
                            EventModel::Snapshot { tick: r.timestamp, packets: self.in_flight },
                        ),
                        ..self
                    },
                },
                Instr::EndSim(_) => DriverModel { state: DriverState::Terminated, ..self },
            }
        }
    }

    /// The driver after the instructions of a bucket, in their order.
    pub open spec fn apply_all(self, instrs: Seq<Instr>) -> DriverModel
        decreases instrs.len(),
    {
        if instrs.len() == 0 {
            self
        } else {
            self.apply(instrs[0]).apply_all(instrs.skip(1))
        }
    }

    /// The driver after a run of ticks: a tick with a bucket applies the
    /// bucket, and a tick without one changes nothing.
    pub open spec fn run_ticks(self, ticks: Seq<Option<Seq<Instr>>>) -> DriverModel
        decreases ticks.len(),
    {
        if ticks.len() == 0 {
            self
        } else {
            match ticks[0] {
                Some(bucket) => self.apply_all(bucket).run_ticks(ticks.skip(1)),
                None => self.run_ticks(ticks.skip(1)),
            }
        }
    }

    /// The driver, stopped.
    pub open spec fn stopped(self) -> DriverModel {
        DriverModel { state: DriverState::Terminated, ..self }
    }

    /// The driver after a whole script: every tick of its timeline, and then
    /// a stop even if no instruction asked for one.
    pub open spec fn run(self, buckets: Seq<Seq<Instr>>) -> DriverModel {
        self.run_ticks(crate::sim::ticks_from(buckets, 0, 0)).stopped()
    }
}

impl ClockDriver {
    /// The in-flight index of the driver is sound.
    pub open spec fn wf(&self) -> bool {
        self.tree.wf()
    }

    /// A driver before its first tick.
    pub fn new() -> (d: ClockDriver)
        ensures
            d.wf(),
            d@ == DriverModel::start(),
    {
        let d = ClockDriver {
            state: DriverState::Running,
            status: TimelineErrCode::Okay,
            tree: AvlTree::new(),
            events: Vec::new(),
        };
        assert(d@.events =~= Seq::<EventModel>::empty());
        d
    }

    /// Applies one instruction.
    pub fn apply(&mut self, instr: &Instr)
        requires
            old(self).wf(),
        ensures
            final(self).wf(),
            final(self)@ == old(self)@.apply(*instr),
    {
        if self.state == DriverState::Terminated {
            return ;
        }
        match instr {
            Instr::Msg(m) => {
                let p = MessagePacket::from(m);
                match self.tree.insert(p) {
                    Ok(()) => {},
                    Err(_) => {
                        self.state = DriverState::Terminated;
                        self.status = TimelineErrCode::DuplicateId;
                    },
                }
            },
            Instr::Rep(r) => {
                let tick = r.timestamp();
                match r.msg_id() {
                    Some(id) => {
                        let event = match self.tree.find(id) {
                            Some(found) => {
                                let packet = *found;
                                self.tree.remove(id);
                                SimEvent::Delivered { tick, packet }
                            },
                            None => SimEvent::QueryMiss { tick, msg_id: id },
                        };
                        self.events.push(event);
                        assert(self@.events =~= old(self)@.events.push(event@));
                    },
                    None => {
                        let event = SimEvent::Snapshot { tick, packets: self.tree.to_vec() };
                        self.events.push(event);
                        assert(self@.events =~= old(self)@.events.push(event@));
                    },
                }
            },
            Instr::EndSim(_) => {
                self.state = DriverState::Terminated;
            },
        }
    }

    /// Applies the instructions of a bucket in their order. Once the driver
    /// has stopped, the rest of the bucket is passed over.
    pub fn apply_set(&mut self, set: &InstrSet)
        requires
            old(self).wf(),
        ensures
            final(self).wf(),
            final(self)@ == old(self)@.apply_all(set@),
    {
        let mut it = set.iter();
        assert(set@.skip(0) =~= set@);
        loop
            invariant
                self.wf(),
                it.instr_set == set,
                it.index <= set@.len(),
                old(self)@.apply_all(set@) == self@.apply_all(set@.skip(it.index as int)),
            decreases set@.len() - it.index,
        {
            let ghost rest = set@.skip(it.index as int);
            match it.next() {
                Some(instr) => {
                    assert(rest.skip(1) =~= set@.skip(it.index as int));
                    self.apply(instr);
                },
                None => {
                    return ;
                },
            }
        }
    }

    /// Runs a script: pulls ticks until an instruction stops the driver or
    /// the timeline is over, and says how the run ended.
    pub fn run(&mut self, sims: &Sim) -> (r: Result<(), TimelineErrCode>)
        requires
            old(self).wf(),
            sims.wf(),
        ensures
            final(self).wf(),
            final(self)@ == old(self)@.run(sims@),
            r is Ok == (final(self)@.status == TimelineErrCode::Okay),
            r is Err ==> r == Err::<(), TimelineErrCode>(final(self)@.status),
    {
        let mut ticks = sims.into_timeline();
        let ghost all = sims.timeline();
        loop
            invariant
                self.wf(),
                ticks.wf(),
                ticks.sim == sims,
                sims.wf(),
                old(self)@.run_ticks(all) == self@.run_ticks(ticks.remaining()),
            ensures
                self.wf(),
                self@.stopped() == old(self)@.run_ticks(all).stopped(),
            decreases ticks.remaining().len(),
        {
            if self.state == DriverState::Terminated {
                proof {
                    lemma_run_ticks_stopped(self@, ticks.remaining());
                }
                break ;
            }
            match ticks.next() {
                Some(Some(set)) => {
                    self.apply_set(set);
                },
                Some(None) => {},
                None => {
                    break ;
                },
            }
        }
        self.state = DriverState::Terminated;
        match self.status {
            TimelineErrCode::Okay => Ok(()),
            e => Err(e),
        }
    }
}

/// A driver that has stopped stays as it is, whatever instructions follow.
pub proof fn lemma_apply_all_stopped(m: DriverModel, instrs: Seq<Instr>)
    requires
        m.state is Terminated,
    ensures
        m.apply_all(instrs) == m,
    decreases instrs.len(),
{
    if instrs.len() > 0 {
        lemma_apply_all_stopped(m, instrs.skip(1));
    }
}

/// A driver that has stopped stays as it is, whatever ticks follow.
pub proof fn lemma_run_ticks_stopped(m: DriverModel, ticks: Seq<Option<Seq<Instr>>>)
    requires
        m.state is Terminated,
    ensures
        m.run_ticks(ticks) == m,
    decreases ticks.len(),
{
    if ticks.len() > 0 {
        match ticks[0] {
            Some(bucket) => {
                lemma_apply_all_stopped(m, bucket);
            },
            None => {},
        }
        lemma_run_ticks_stopped(m, ticks.skip(1));
    }
}

/// Loads a topology and a script and runs the script.
///
/// The topology is loaded first, then the script. If either fails to load
/// the driver does not start, and the error says which load failed and why.
/// Otherwise the driver that comes back has run the whole script; its
/// status says whether the run ended well.
pub fn start(ntwk_lines: &Vec<String>, sim_lines: &Vec<String>) -> (r: Result<
    ClockDriver,
    LoadErrCode,
>)
    ensures
        match r {
            Ok(d) => {
                &&& d.wf()
                &&& crate::ntwk::load_spec(lines_bytes(ntwk_lines@)) is Ok
                &&& crate::sim::load_spec(lines_bytes(sim_lines@)) is Ok
                &&& d@ == DriverModel::start().run(
                    crate::sim::load_spec(lines_bytes(sim_lines@))->Ok_0,
                )
            },
            Err(LoadErrCode::Ntwk(e)) => crate::ntwk::load_spec(lines_bytes(ntwk_lines@)) == Err::<
                Seq<crate::ntwk::node::NodeModel>,
                NtwkErrCode,
            >(e),
            Err(LoadErrCode::Sim(e)) => crate::ntwk::load_spec(lines_bytes(ntwk_lines@)) is Ok
                && crate::sim::load_spec(lines_bytes(sim_lines@)) == Err::<
                Seq<Seq<Instr>>,
                SimErrCode,
            >(e),
        },
{
    match Ntwk::from_lines(ntwk_lines) {
        Ok(_) => {},
        Err(e) => {
            return Err(LoadErrCode::Ntwk(e));
        },
    }
    let sims = match Sim::from_lines(sim_lines) {
        Ok(s) => s,
        Err(e) => {
            return Err(LoadErrCode::Sim(e));
        },
    };
    let mut driver = ClockDriver::new();
    let _ = driver.run(&sims);
    Ok(driver)
}

} // verus!
