//! The simulation script: instructions bucketed by timestamp, and the
//! tick-aligned sequence over the buckets.

use vstd::prelude::*;

pub mod file_utils;
pub mod instr;
pub mod order;

use self::file_utils::{parse_instr, parse_instr_spec, SimErrCode};
use self::instr::Instr;
use crate::text::{clean, lemma_clean_push, lines_bytes, strip_comment};

verus! {

/// A bucket: the instructions of one tick, in the order of the script.
#[derive(Debug, Clone, PartialEq, Eq)]
pub struct InstrSet(pub Vec<Instr>);

impl View for InstrSet {
    type V = Seq<Instr>;

    open spec fn view(&self) -> Seq<Instr> {
        self.0@
    }
}

/// The tick of a bucket: that of its first instruction.
pub open spec fn bucket_time(b: Seq<Instr>) -> u32
    recommends
        b.len() > 0,
{
    b[0].time()
}

/// A bucket is sound when it holds an instruction and all of its
/// instructions share one tick.
pub open spec fn bucket_wf(b: Seq<Instr>) -> bool {
    &&& b.len() > 0
    &&& forall|i: int| 0 <= i < b.len() ==> (#[trigger] b[i]).time() == bucket_time(b)
}

impl InstrSet {
    /// An empty bucket.
    pub fn new() -> (s: InstrSet)
        ensures
            s@ == Seq::<Instr>::empty(),
    {
        InstrSet(Vec::new())
    }

    /// Starts a walk over the instructions of the bucket, first to last.
    pub fn iter<'a>(&'a self) -> (it: InstrAsIter<'a>)
        ensures
            it.instr_set == self,
            it.index == 0,
    {
        InstrAsIter { instr_set: self, index: 0 }
    }

    pub fn push(&mut self, instr: Instr)
        ensures
            final(self)@ == old(self)@.push(instr),
    {
        self.0.push(instr)
    }

    pub fn len(&self) -> (n: usize)
        ensures
            n == self@.len(),
    {
        self.0.len()
    }

    /// The tick that the instructions of the bucket share.
    pub fn timestamp(&self) -> (t: u32)
        requires
            self@.len() > 0,
        ensures
            t == bucket_time(self@),
    {
        self.0[0].timestamp()
    }
}

/// A walk over the instructions of a bucket.
pub struct InstrAsIter<'a> {
    pub instr_set: &'a InstrSet,
    pub index: usize,
}

impl<'a> InstrAsIter<'a> {
    /// Yields the next instruction of the bucket; `None`, and nothing else
    /// from then on, when the bucket is through.
    pub fn next(&mut self) -> (r: Option<&'a Instr>)
        ensures
            final(self).instr_set == old(self).instr_set,
            old(self).index < old(self).instr_set@.len() ==> r == Some(
                &old(self).instr_set@[old(self).index as int],
            ) && final(self).index == old(self).index + 1,
            old(self).index >= old(self).instr_set@.len() ==> r is None && final(self).index
                == old(self).index,
    {
        if self.index < self.instr_set.0.len() {
            let result = &self.instr_set.0[self.index];
            self.index += 1;
            Some(result)
        } else {
            None
        }
    }
}

/// The buckets after one more instruction: it joins the last bucket when it
/// has that bucket's tick, and starts a bucket of its own when it has not.
pub open spec fn push_instr(buckets: Seq<Seq<Instr>>, instr: Instr) -> Seq<Seq<Instr>> {
    if buckets.len() > 0 && bucket_time(buckets.last()) == instr.time() {
        buckets.update(buckets.len() - 1, buckets.last().push(instr))
    } else {
        buckets.push(seq![instr])
    }
}

/// The buckets of a run of instructions: each maximal run of consecutive
/// instructions with one tick is a bucket.
pub open spec fn group(instrs: Seq<Instr>) -> Seq<Seq<Instr>>
    decreases instrs.len(),
{
    if instrs.len() == 0 {
        Seq::empty()
    } else {
        push_instr(group(instrs.drop_last()), instrs.last())
    }
}

/// The instructions that lines that count denote, in their order. A line
/// that denotes no instruction is passed over.
pub open spec fn instrs_of(lines: Seq<Seq<u8>>) -> Seq<Instr>
    decreases lines.len(),
{
    if lines.len() == 0 {
        Seq::empty()
    } else {
        let before = instrs_of(lines.drop_last());
        match parse_instr_spec(lines.last()) {
            Ok(instr) => before.push(instr),
            Err(_) => before,
        }
    }
}

/// The buckets of a run of instructions, or the error that stops the load:
/// a script must hold an instruction, and its last one must end the
/// simulation.
pub open spec fn load_instrs(instrs: Seq<Instr>) -> Result<Seq<Seq<Instr>>, SimErrCode> {
    if instrs.len() == 0 {
        Err(SimErrCode::EmptyContents)
    } else if !instrs.last().ends_sim() {
        Err(SimErrCode::MismatchEndSimToken)
    } else {
        Ok(group(instrs))
    }
}

/// The buckets that a text denotes, or the error that stops its load:
/// comments and empty lines do not count.
pub open spec fn load_spec(lines: Seq<Seq<u8>>) -> Result<Seq<Seq<Instr>>, SimErrCode> {
    load_instrs(instrs_of(clean(lines)))
}

/// Buckets are sound when each of them is, and no bucket has the tick of
/// the bucket before it.
pub open spec fn buckets_wf(buckets: Seq<Seq<Instr>>) -> bool {
    &&& forall|i: int| 0 <= i < buckets.len() ==> bucket_wf(#[trigger] buckets[i])
    &&& forall|i: int|
        0 < i < buckets.len() ==> bucket_time(buckets[i - 1]) != bucket_time(#[trigger] buckets[i])
}

/// One more instruction keeps sound buckets sound.
pub proof fn lemma_push_instr_wf(buckets: Seq<Seq<Instr>>, instr: Instr)
    requires
        buckets_wf(buckets),
    ensures
        buckets_wf(push_instr(buckets, instr)),
        push_instr(buckets, instr).len() > 0,
        push_instr(buckets, instr).last().last() == instr,
{
}

/// A simulation script, loaded: its instructions in buckets.
#[derive(Debug, Clone, PartialEq, Eq)]
pub struct Sim {
    pub instr_set_set: Vec<InstrSet>,
}

impl View for Sim {
    type V = Seq<Seq<Instr>>;

    open spec fn view(&self) -> Seq<Seq<Instr>> {
        Seq::new(self.instr_set_set@.len(), |i: int| self.instr_set_set@[i]@)
    }
}

impl Sim {
    /// The buckets of the script are sound.
    pub open spec fn wf(&self) -> bool {
        buckets_wf(self@)
    }

    /// A script without instructions.
    pub fn new() -> (s: Sim)
        ensures
            s@ == Seq::<Seq<Instr>>::empty(),
            s.wf(),
    {
        Sim { instr_set_set: Vec::new() }
    }

    /// Adds an instruction at the end of the script.
    pub fn insert(&mut self, instr: Instr)
        requires
            old(self).wf(),
        ensures
            final(self).wf(),
            final(self)@ == push_instr(old(self)@, instr),
    {
        let n = self.instr_set_set.len();
        proof {
            lemma_push_instr_wf(self@, instr);
        }
        if n > 0 && self.instr_set_set[n - 1].timestamp() == instr.timestamp() {
            self.instr_set_set[n - 1].push(instr);
            assert(self@ =~= push_instr(old(self)@, instr));
        } else {
            let mut set = InstrSet::new();
            set.push(instr);
            self.instr_set_set.push(set);
            assert(self@ =~= push_instr(old(self)@, instr));
        }
    }

    /// The last instruction of the last bucket ends the simulation.
    pub open spec fn closed(&self) -> bool {
        self@.len() > 0 && self@.last().len() > 0 && self@.last().last().ends_sim()
    }

    /// `r` is what the load of a text gives: the buckets that the text
    /// denotes in a sound script that ends with the end of the simulation,
    /// or the error that stops the load.
    pub open spec fn is_load_of(r: Result<Sim, SimErrCode>, lines: Seq<Seq<u8>>) -> bool {
        match r {
            Ok(s) => s.wf() && s.closed() && load_spec(lines) == Ok::<
                Seq<Seq<Instr>>,
                SimErrCode,
            >(s@),
            Err(e) => load_spec(lines) == Err::<Seq<Seq<Instr>>, SimErrCode>(e),
        }
    }

    /// Loads a script from the lines of its text.
    pub fn from_lines(lines: &Vec<String>) -> (r: Result<Sim, SimErrCode>)
        ensures
            Sim::is_load_of(r, lines_bytes(lines@)),
    {
        let ghost all = lines_bytes(lines@);
        let mut sims = Sim::new();
        let mut i: usize = 0;
        while i < lines.len()
            invariant
                i <= lines.len(),
                all == lines_bytes(lines@),
                sims.wf(),
                sims@ == group(instrs_of(clean(all.take(i as int)))),
                instrs_of(clean(all.take(i as int))).len() > 0 ==> sims@.len() > 0
                    && sims@.last().last() == instrs_of(clean(all.take(i as int))).last(),
                instrs_of(clean(all.take(i as int))).len() == 0 ==> sims@.len() == 0,
            decreases lines.len() - i,
        {
            let ghost seen = all.take(i as int);
            let ghost now = all.take(i + 1);
            proof {
                assert(now =~= seen.push(all[i as int]));
                lemma_clean_push(seen, all[i as int]);
            }
            let s = strip_comment(lines[i].clone());
            i += 1;
            if s.as_str().as_bytes().len() == 0 {
                continue ;
            }
            match parse_instr(&s) {
                Ok(instr) => {
                    proof {
                        assert(clean(now).drop_last() =~= clean(seen));
                        assert(instrs_of(clean(now)).drop_last() =~= instrs_of(clean(seen)));
                    }
                    sims.insert(instr);
                },
                Err(_) => {
                    assert(clean(now).drop_last() =~= clean(seen));
                },
            }
        }
        assert(all.take(i as int) =~= all);
        let n = sims.instr_set_set.len();
        if n == 0 {
            return Err(SimErrCode::EmptyContents);
        }
        let last = &sims.instr_set_set[n - 1];
        if !last.0[last.0.len() - 1].is_endsim() {
            return Err(SimErrCode::MismatchEndSimToken);
        }
        Ok(sims)
    }
}

/// One more than the largest tick: where the clock stands after a bucket
/// at the last tick there is.
pub const TICK_LIMIT: u64 = 0x1_0000_0000;

/// The ticks that are still to come when the clock stands at `time` and the
/// buckets before `index` are through.
///
/// A tick yields the bucket at `index` when that bucket's tick has come, and
/// nothing when it has not come yet. The sequence ends when every bucket is
/// through. It also ends at a bucket whose tick lies behind the clock: such
/// a bucket can never be reached, and only a script whose timestamps
/// decrease somewhere has one.
pub open spec fn ticks_from(buckets: Seq<Seq<Instr>>, index: int, time: int) -> Seq<
    Option<Seq<Instr>>,
>
    decreases buckets.len() - index, bucket_time(buckets[index]) - time,
{
    if index < 0 || index >= buckets.len() || time > bucket_time(buckets[index]) {
        Seq::empty()
    } else if bucket_time(buckets[index]) == time {
        seq![Some(buckets[index])] + ticks_from(buckets, index + 1, time + 1)
    } else {
        seq![None] + ticks_from(buckets, index, time + 1)
    }
}

/// What a tick yields, as a sequence of instructions.
pub open spec fn tick_view(tick: Option<&InstrSet>) -> Option<Seq<Instr>> {
    match tick {
        Some(set) => Some(set@),
        None => None,
    }
}

/// The tick-aligned sequence over the buckets of a script: one item per
/// tick from tick 0 on, a bucket or nothing. It is lazy and cannot be
/// restarted.
pub struct SimIntoTimeline<'a> {
    pub sim: &'a Sim,
    pub index: usize,
    pub time: u64,
}

impl<'a> SimIntoTimeline<'a> {
    /// The clock has not run past the last tick there is.
    pub open spec fn wf(&self) -> bool {
        self.time <= TICK_LIMIT
    }

    /// The ticks that the sequence has not yielded yet.
    pub open spec fn remaining(&self) -> Seq<Option<Seq<Instr>>> {
        ticks_from(self.sim@, self.index as int, self.time as int)
    }

    /// Yields the next tick: `Some(Some(bucket))` at the tick of a bucket,
    /// `Some(None)` at a tick without one, and `None` when the sequence is
    /// over.
    pub fn next(&mut self) -> (r: Option<Option<&'a InstrSet>>)
        requires
            old(self).wf(),
            old(self).sim.wf(),
        ensures
            final(self).wf(),
            final(self).sim == old(self).sim,
            old(self).remaining().len() == 0 ==> r is None && final(self).remaining().len() == 0,
            old(self).remaining().len() > 0 ==> r is Some && tick_view(r.unwrap()) == old(
                self,
            ).remaining()[0] && final(self).remaining() == old(self).remaining().skip(1),
    {
        if self.index >= self.sim.instr_set_set.len() {
            return None;
        }
        let set = &self.sim.instr_set_set[self.index];
        assert(bucket_wf(self.sim@[self.index as int]));
        let at = set.timestamp() as u64;
        if at < self.time {
            None
        } else if at == self.time {
            self.index += 1;
            self.time += 1;
            Some(Some(set))
        } else {
            self.time += 1;
            Some(None)
        }
    }
}

impl Sim {
    /// The whole tick-aligned sequence of the script, from tick 0.
    pub open spec fn timeline(&self) -> Seq<Option<Seq<Instr>>> {
        ticks_from(self@, 0, 0)
    }

    /// Starts the tick-aligned sequence over the buckets of the script.
    pub fn into_timeline<'a>(&'a self) -> (it: SimIntoTimeline<'a>)
        ensures
            it.wf(),
            it.sim == self,
            it.remaining() == self.timeline(),
    {
        SimIntoTimeline { sim: self, index: 0, time: 0 }
    }
}

/// Loading is repeatable: two loads of one text agree. Both fail with the
/// same error, or both give scripts with the same buckets.
pub proof fn lemma_load_repeatable(
    lines: Seq<Seq<u8>>,
    first: Result<Sim, SimErrCode>,
    second: Result<Sim, SimErrCode>,
)
    requires
        Sim::is_load_of(first, lines),
        Sim::is_load_of(second, lines),
    ensures
        first is Ok == second is Ok,
        first is Ok ==> first->Ok_0@ == second->Ok_0@,
        first is Err ==> first->Err_0 == second->Err_0,
{
}

} // verus!
