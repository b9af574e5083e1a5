use guwah::msg::packet::MessagePacket;
use guwah::ntwk::file_utils::NtwkErrCode;
use guwah::sim::file_utils::SimErrCode;
use guwah::sim::instr::{EndInstr, Instr, MsgInstr, RepInstr};
use guwah::sim::{InstrSet, Sim};
use guwah::timeline::{start, ClockDriver, DriverState, LoadErrCode, SimEvent, TimelineErrCode};

fn lines(text: &str) -> Vec<String> {
    text.lines().map(String::from).collect()
}

fn packet(tick: u32, id: u32, from: u32, to: u32) -> MessagePacket {
    MessagePacket { timestamp: tick, start_node: from, current_node: from, end_node: to, id }
}

const TOPOLOGY: &str = "1,2,0\n2\n3\nendNode\n2,1,5\n1\nendNode\nendNet\n";

fn run(script: &str) -> (ClockDriver, Result<(), TimelineErrCode>) {
    let sims = Sim::from_lines(&lines(script)).unwrap();
    let mut driver = ClockDriver::new();
    let r = driver.run(&sims);
    (driver, r)
}

#[test]
fn delivers_one_message_and_ends_with_the_other_in_flight() {
    let d = start(&lines(TOPOLOGY), &lines("0,msg,7,1,2\n0,msg,8,2,1\n1,rep,7\n2,endSim\n")).unwrap();
    assert_eq!(d.events, vec![SimEvent::Delivered { tick: 1, packet: packet(0, 7, 1, 2) }]);
    assert_eq!(d.state, DriverState::Terminated);
    assert_eq!(d.status, TimelineErrCode::Okay);
    assert_eq!(d.tree.to_vec(), vec![packet(0, 8, 2, 1)]);
}

#[test]
fn a_new_driver_is_running_and_empty() {
    let d = ClockDriver::new();
    assert_eq!(d.state, DriverState::Running);
    assert_eq!(d.status, TimelineErrCode::Okay);
    assert!(d.events.is_empty());
    assert_eq!(d.tree.to_vec(), vec![]);
}

#[test]
fn send_puts_a_packet_in_flight_at_its_start_node() {
    let mut d = ClockDriver::new();
    d.apply(&Instr::Msg(MsgInstr::new(3, 9, 4, 5)));
    assert_eq!(d.tree.to_vec(), vec![packet(3, 9, 4, 5)]);
    assert_eq!(d.state, DriverState::Running);
    assert!(d.events.is_empty());
}

#[test]
fn duplicate_id_stops_the_driver() {
    let (d, r) = run("0,msg,7,1,2\n1,msg,7,2,1\n1,rep\n2,endSim\n");
    assert_eq!(r, Err(TimelineErrCode::DuplicateId));
    assert_eq!(d.status, TimelineErrCode::DuplicateId);
    assert_eq!(d.state, DriverState::Terminated);
    assert!(d.events.is_empty());
    assert_eq!(d.tree.to_vec(), vec![packet(0, 7, 1, 2)]);
}

#[test]
fn an_id_can_be_used_again_once_its_message_is_delivered() {
    let (d, r) = run("0,msg,7,1,2\n1,rep,7\n2,msg,7,2,1\n3,endSim\n");
    assert_eq!(r, Ok(()));
    assert_eq!(d.events, vec![SimEvent::Delivered { tick: 1, packet: packet(0, 7, 1, 2) }]);
    assert_eq!(d.tree.to_vec(), vec![packet(2, 7, 2, 1)]);
}

#[test]
fn report_on_a_message_that_is_not_in_flight_is_a_miss() {
    let (d, r) = run("0,msg,7,1,2\n1,rep,8\n1,rep,7\n1,rep,7\n2,endSim\n");
    assert_eq!(r, Ok(()));
    assert_eq!(
        d.events,
        vec![
            SimEvent::QueryMiss { tick: 1, msg_id: 8 },
            SimEvent::Delivered { tick: 1, packet: packet(0, 7, 1, 2) },
            SimEvent::QueryMiss { tick: 1, msg_id: 7 },
        ]
    );
    assert_eq!(d.tree.to_vec(), vec![]);
}

#[test]
fn report_without_id_lists_everything_in_order_and_keeps_it() {
    let (d, r) = run("0,msg,9,1,2\n0,msg,3,2,1\n1,msg,5,1,2\n2,rep\n3,rep,5\n4,rep\n5,endSim\n");
    assert_eq!(r, Ok(()));
    assert_eq!(
        d.events,
        vec![
            SimEvent::Snapshot {
                tick: 2,
                packets: vec![packet(0, 3, 2, 1), packet(1, 5, 1, 2), packet(0, 9, 1, 2)],
            },
            SimEvent::Delivered { tick: 3, packet: packet(1, 5, 1, 2) },
            SimEvent::Snapshot { tick: 4, packets: vec![packet(0, 3, 2, 1), packet(0, 9, 1, 2)] },
        ]
    );
    assert_eq!(d.tree.to_vec(), vec![packet(0, 3, 2, 1), packet(0, 9, 1, 2)]);
}

#[test]
fn snapshot_of_nothing() {
    let (d, _) = run("0,rep\n0,endSim\n");
    assert_eq!(d.events, vec![SimEvent::Snapshot { tick: 0, packets: vec![] }]);
}

#[test]
fn nothing_is_applied_after_the_end_of_the_simulation() {
    let mut sims = Sim::new();
    sims.insert(Instr::Msg(MsgInstr::new(0, 1, 1, 2)));
    sims.insert(Instr::EndSim(EndInstr::new(0)));
    sims.insert(Instr::Msg(MsgInstr::new(0, 2, 1, 2)));
    sims.insert(Instr::Rep(RepInstr::new(1, None)));
    let mut d = ClockDriver::new();
    assert_eq!(d.run(&sims), Ok(()));
    assert_eq!(d.state, DriverState::Terminated);
    assert!(d.events.is_empty());
    assert_eq!(d.tree.to_vec(), vec![packet(0, 1, 1, 2)]);
}

#[test]
fn a_script_without_end_still_terminates() {
    let mut sims = Sim::new();
    sims.insert(Instr::Msg(MsgInstr::new(2, 1, 1, 2)));
    let mut d = ClockDriver::new();
    assert_eq!(d.run(&sims), Ok(()));
    assert_eq!(d.state, DriverState::Terminated);
    assert_eq!(d.tree.to_vec(), vec![packet(2, 1, 1, 2)]);
}

#[test]
fn a_stopped_driver_takes_no_instruction() {
    let mut d = ClockDriver::new();
    d.apply(&Instr::EndSim(EndInstr::new(0)));
    assert_eq!(d.state, DriverState::Terminated);
    d.apply(&Instr::Msg(MsgInstr::new(0, 1, 1, 2)));
    d.apply(&Instr::Rep(RepInstr::new(0, None)));
    assert!(d.events.is_empty());
    assert_eq!(d.tree.to_vec(), vec![]);
}

#[test]
fn a_bucket_is_applied_in_the_order_of_the_script() {
    let mut set = InstrSet::new();
    set.push(Instr::Rep(RepInstr::new(4, Some(1))));
    set.push(Instr::Msg(MsgInstr::new(4, 1, 6, 7)));
    set.push(Instr::Rep(RepInstr::new(4, Some(1))));
    let mut d = ClockDriver::new();
    d.apply_set(&set);
    assert_eq!(
        d.events,
        vec![
            SimEvent::QueryMiss { tick: 4, msg_id: 1 },
            SimEvent::Delivered { tick: 4, packet: packet(4, 1, 6, 7) },
        ]
    );
    assert_eq!(d.state, DriverState::Running);
}

#[test]
fn a_topology_that_does_not_load_keeps_the_driver_from_starting() {
    let r = start(&lines("1,0,0\nendNode\nendNet\n"), &lines("0,endSim\n"));
    assert_eq!(r.err(), Some(LoadErrCode::Ntwk(NtwkErrCode::HasZeroConnections)));
    let r = start(&lines("1,1,0\n2\nendNode\n"), &lines(""));
    assert_eq!(r.err(), Some(LoadErrCode::Ntwk(NtwkErrCode::UnterminatedBlock)));
}

#[test]
fn a_script_that_does_not_load_keeps_the_driver_from_starting() {
    let r = start(&lines(TOPOLOGY), &lines(""));
    assert_eq!(r.err(), Some(LoadErrCode::Sim(SimErrCode::EmptyContents)));
    let r = start(&lines(TOPOLOGY), &lines("0,msg,1,1,2\n"));
    assert_eq!(r.err(), Some(LoadErrCode::Sim(SimErrCode::MismatchEndSimToken)));
}

#[test]
fn start_reports_a_duplicate_id_in_the_driver() {
    let d = start(&lines(TOPOLOGY), &lines("0,msg,7,1,2\n0,msg,7,1,2\n1,endSim\n")).unwrap();
    assert_eq!(d.status, TimelineErrCode::DuplicateId);
    assert_eq!(d.state, DriverState::Terminated);
}
