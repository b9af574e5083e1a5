use guwah::sim::file_utils::SimErrCode;
use guwah::sim::instr::{EndInstr, Instr, MsgInstr, RepInstr};
use guwah::sim::{InstrSet, Sim};

fn lines(text: &str) -> Vec<String> {
    text.lines().map(String::from).collect()
}

fn buckets(sim: &Sim) -> Vec<Vec<Instr>> {
    sim.instr_set_set.iter().map(|set| set.0.clone()).collect()
}

fn ticks(sim: &Sim) -> Vec<Option<Vec<Instr>>> {
    let mut out = Vec::new();
    let mut it = sim.into_timeline();
    while let Some(tick) = it.next() {
        out.push(tick.map(|set| set.0.clone()));
    }
    assert_eq!(it.next(), None);
    out
}

fn msg(t: u32, id: u32, a: u32, b: u32) -> Instr {
    Instr::Msg(MsgInstr::new(t, id, a, b))
}

fn rep(t: u32, id: Option<u32>) -> Instr {
    Instr::Rep(RepInstr::new(t, id))
}

fn end(t: u32) -> Instr {
    Instr::EndSim(EndInstr::new(t))
}

#[test]
fn instructions_are_bucketed_by_timestamp() {
    let sim = Sim::from_lines(&lines("0,msg,7,1,2\n0,msg,8,2,1\n1,rep,7\n2,endSim\n")).unwrap();
    assert_eq!(
        buckets(&sim),
        vec![vec![msg(0, 7, 1, 2), msg(0, 8, 2, 1)], vec![rep(1, Some(7))], vec![end(2)]]
    );
    assert_eq!(
        ticks(&sim),
        vec![
            Some(vec![msg(0, 7, 1, 2), msg(0, 8, 2, 1)]),
            Some(vec![rep(1, Some(7))]),
            Some(vec![end(2)]),
        ]
    );
}

#[test]
fn gaps_between_timestamps_are_empty_ticks() {
    let sim = Sim::from_lines(&lines("2,msg,1,1,2\n5,rep\n5,endSim\n")).unwrap();
    assert_eq!(buckets(&sim), vec![vec![msg(2, 1, 1, 2)], vec![rep(5, None), end(5)]]);
    assert_eq!(
        ticks(&sim),
        vec![
            None,
            None,
            Some(vec![msg(2, 1, 1, 2)]),
            None,
            None,
            Some(vec![rep(5, None), end(5)]),
        ]
    );
}

#[test]
fn timeline_is_one_longer_than_the_last_timestamp() {
    for last in [0u32, 1, 2, 17, 1000] {
        let text = format!("0,rep\n{},endSim\n", last);
        let sim = Sim::from_lines(&lines(&text)).unwrap();
        let t = ticks(&sim);
        assert_eq!(t.len() as u64, last as u64 + 1);
        for (at, tick) in t.iter().enumerate() {
            assert_eq!(tick.is_some(), at == 0 || at as u32 == last, "tick {}", at);
        }
    }
}

#[test]
fn a_tick_holds_a_bucket_exactly_when_an_instruction_has_its_time() {
    let text = "1,msg,1,1,2\n1,msg,2,1,2\n4,rep\n4,rep,1\n9,endSim\n";
    let sim = Sim::from_lines(&lines(text)).unwrap();
    let t = ticks(&sim);
    assert_eq!(t.len(), 10);
    for (at, tick) in t.iter().enumerate() {
        assert_eq!(tick.is_some(), [1usize, 4, 9].contains(&at), "tick {}", at);
        if let Some(bucket) = tick {
            for instr in bucket {
                assert_eq!(instr.timestamp() as usize, at);
            }
        }
    }
}

#[test]
fn bad_lines_are_passed_over() {
    let text = "0,msg,7,1,2\nnot an instruction\n0,msg\n,rep\n0,ping\n5\n1,endSim\n";
    let sim = Sim::from_lines(&lines(text)).unwrap();
    assert_eq!(buckets(&sim), vec![vec![msg(0, 7, 1, 2)], vec![end(1)]]);
}

#[test]
fn script_comments_and_blank_lines_do_not_count() {
    let text = "# script\n\n0,rep# everything\n\n#1,msg,1,2,3\n1,endSim#done\n";
    let sim = Sim::from_lines(&lines(text)).unwrap();
    assert_eq!(buckets(&sim), vec![vec![rep(0, None)], vec![end(1)]]);
}

#[test]
fn empty_script_is_fatal() {
    assert_eq!(Sim::from_lines(&lines("")), Err(SimErrCode::EmptyContents));
    assert_eq!(Sim::from_lines(&lines("# nothing\n\n")), Err(SimErrCode::EmptyContents));
    assert_eq!(Sim::from_lines(&lines("bad\n5\n1,msg\n")), Err(SimErrCode::EmptyContents));
}

#[test]
fn script_must_end_with_end_sim() {
    assert_eq!(Sim::from_lines(&lines("0,msg,7,1,2\n")), Err(SimErrCode::MismatchEndSimToken));
    assert_eq!(
        Sim::from_lines(&lines("0,endSim\n1,rep\n")),
        Err(SimErrCode::MismatchEndSimToken)
    );
    assert!(Sim::from_lines(&lines("0,endSim\n1,rep\nbad line\n")).is_err());
    assert!(Sim::from_lines(&lines("0,rep\n1,endSim\nbad line\n")).is_ok());
}

#[test]
fn loading_twice_gives_equal_scripts() {
    let text = lines("0,msg,7,1,2\n0,msg,8,2,1\n1,rep,7\n2,endSim\n");
    assert_eq!(Sim::from_lines(&text), Sim::from_lines(&text));
    let bad = lines("0,msg,7,1,2\n");
    assert_eq!(Sim::from_lines(&bad), Sim::from_lines(&bad));
}

#[test]
fn insert_joins_the_last_bucket_or_starts_one() {
    let mut sim = Sim::new();
    sim.insert(rep(3, None));
    sim.insert(rep(3, Some(1)));
    sim.insert(rep(4, None));
    sim.insert(rep(3, None));
    assert_eq!(
        buckets(&sim),
        vec![vec![rep(3, None), rep(3, Some(1))], vec![rep(4, None)], vec![rep(3, None)]]
    );
}

#[test]
fn timeline_ends_at_a_bucket_behind_the_clock() {
    let sim = Sim::from_lines(&lines("1,rep\n0,rep\n2,endSim\n")).unwrap();
    assert_eq!(buckets(&sim), vec![vec![rep(1, None)], vec![rep(0, None)], vec![end(2)]]);
    assert_eq!(ticks(&sim), vec![None, Some(vec![rep(1, None)])]);
}

#[test]
fn timeline_reaches_the_last_tick_there_is() {
    let mut sim = Sim::new();
    sim.insert(end(u32::MAX));
    let mut it = sim.into_timeline();
    it.time = u32::MAX as u64 - 1;
    assert_eq!(it.next(), Some(None));
    assert_eq!(it.next().map(|t| t.map(|set| set.0.clone())), Some(Some(vec![end(u32::MAX)])));
    assert_eq!(it.time, 1u64 << 32);
    assert_eq!(it.next(), None);
    assert_eq!(it.next(), None);
}

#[test]
fn bucket_walk_yields_each_instruction_once() {
    let mut set = InstrSet::new();
    assert_eq!(set.len(), 0);
    set.push(rep(1, None));
    set.push(end(1));
    assert_eq!(set.len(), 2);
    assert_eq!(set.timestamp(), 1);
    let mut it = set.iter();
    assert_eq!(it.next(), Some(&rep(1, None)));
    assert_eq!(it.next(), Some(&end(1)));
    assert_eq!(it.next(), None);
    assert_eq!(it.next(), None);
    let mut again = set.iter();
    assert_eq!(again.next(), Some(&rep(1, None)));
}
