//! What holds of a script whose timestamps never decrease: its buckets
//! ascend, and its timeline has one tick for each time up to the last
//! timestamp, with a bucket exactly at the times that an instruction has.

use super::instr::Instr;
use super::{bucket_time, bucket_wf, buckets_wf, group, instrs_of, load_spec, ticks_from};
use crate::text::clean;
use vstd::prelude::*;

verus! {

/// No instruction has an earlier tick than one before it.
pub open spec fn non_decreasing(instrs: Seq<Instr>) -> bool {
    forall|i: int, j: int| 0 <= i <= j < instrs.len() ==> instrs[i].time() <= instrs[j].time()
}

/// Each bucket has a later tick than every bucket before it.
pub open spec fn ascending(buckets: Seq<Seq<Instr>>) -> bool {
    forall|i: int, j: int|
        0 <= i < j < buckets.len() ==> bucket_time(buckets[i]) < bucket_time(buckets[j])
}

/// Some instruction has the tick `t`.
pub open spec fn has_time(instrs: Seq<Instr>, t: int) -> bool {
    exists|i: int| 0 <= i < instrs.len() && instrs[i].time() == t
}

/// Some bucket from `from` on has the tick `t`.
pub open spec fn has_bucket_at(buckets: Seq<Seq<Instr>>, from: int, t: int) -> bool {
    exists|k: int| from <= k < buckets.len() && bucket_time(buckets[k]) == t
}

/// The buckets of instructions whose ticks never decrease are sound and
/// ascend; the last bucket has the tick of the last instruction; and the
/// ticks of the buckets are the ticks of the instructions.
pub proof fn lemma_group_ordered(instrs: Seq<Instr>)
    requires
        non_decreasing(instrs),
    ensures
        buckets_wf(group(instrs)),
        ascending(group(instrs)),
        instrs.len() == 0 ==> group(instrs).len() == 0,
        instrs.len() > 0 ==> group(instrs).len() > 0 && bucket_time(group(instrs).last())
            == instrs.last().time(),
        forall|t: int| has_bucket_at(group(instrs), 0, t) == has_time(instrs, t),
    decreases instrs.len(),
{
    if instrs.len() > 0 {
        let c = instrs.drop_last();
        let x = instrs.last();
        let before = group(c);
        let after = group(instrs);
        lemma_group_ordered(c);
        super::lemma_push_instr_wf(before, x);
        let joins = before.len() > 0 && bucket_time(before.last()) == x.time();
        assert forall|t: int| has_bucket_at(after, 0, t) == has_time(instrs, t) by {
            assert(has_bucket_at(before, 0, t) == has_time(c, t));
            if has_time(instrs, t) {
                let i = choose|i: int| 0 <= i < instrs.len() && instrs[i].time() == t;
                if i < c.len() {
                    assert(c[i].time() == t);
                    let k = choose|k: int| 0 <= k < before.len() && bucket_time(before[k]) == t;
                    assert(bucket_time(after[k]) == t);
                }
            }
        }
    }
}

/// Over ascending buckets, from a bucket whose tick the clock has not
/// passed, the timeline runs to the tick of the last bucket, and it yields a
/// bucket exactly at the ticks that a bucket has: that bucket.
pub proof fn lemma_ticks_ascending(buckets: Seq<Seq<Instr>>, index: int, time: int)
    requires
        ascending(buckets),
        0 <= index < buckets.len(),
        0 <= time <= bucket_time(buckets[index]),
    ensures
        ticks_from(buckets, index, time).len() == bucket_time(buckets.last()) + 1 - time,
        forall|j: int|
            0 <= j < ticks_from(buckets, index, time).len() ==> (#[trigger] ticks_from(
                buckets,
                index,
                time,
            )[j] is Some) == has_bucket_at(buckets, index, time + j),
        forall|j: int|
            0 <= j < ticks_from(buckets, index, time).len() && (#[trigger] ticks_from(
                buckets,
                index,
                time,
            )[j]) is Some ==> bucket_time(ticks_from(buckets, index, time)[j].unwrap()) == time
                + j,
    decreases buckets.len() - index, bucket_time(buckets[index]) - time,
{
    let here = ticks_from(buckets, index, time);
    if bucket_time(buckets[index]) == time {
        if index + 1 < buckets.len() {
            lemma_ticks_ascending(buckets, index + 1, time + 1);
        }
        assert(here.len() == 1 + ticks_from(buckets, index + 1, time + 1).len());
    } else {
        lemma_ticks_ascending(buckets, index, time + 1);
        assert(here.len() == 1 + ticks_from(buckets, index, time + 1).len());
    }
}

/// The timeline of a script whose timestamps never decrease and whose last
/// instruction ends the simulation has one tick for each time from 0 to the
/// last timestamp, and the tick at time `t` holds a bucket exactly when some
/// instruction of the script has the timestamp `t`; the bucket then has the
/// tick `t`.
pub proof fn lemma_timeline_of_ordered_script(lines: Seq<Seq<u8>>)
    requires
        load_spec(lines) is Ok,
        non_decreasing(instrs_of(clean(lines))),
    ensures
        ticks_from(load_spec(lines)->Ok_0, 0, 0).len() == instrs_of(clean(lines)).last().time()
            + 1,
        forall|t: int|
            0 <= t < ticks_from(load_spec(lines)->Ok_0, 0, 0).len() ==> (#[trigger] ticks_from(
                load_spec(lines)->Ok_0,
                0,
                0,
            )[t] is Some) == has_time(instrs_of(clean(lines)), t),
        forall|t: int|
            0 <= t < ticks_from(load_spec(lines)->Ok_0, 0, 0).len() && (#[trigger] ticks_from(
                load_spec(lines)->Ok_0,
                0,
                0,
            )[t]) is Some ==> bucket_wf(ticks_from(load_spec(lines)->Ok_0, 0, 0)[t].unwrap())
                && bucket_time(ticks_from(load_spec(lines)->Ok_0, 0, 0)[t].unwrap()) == t,
{
    let instrs = instrs_of(clean(lines));
    let buckets = group(instrs);
    let ticks = ticks_from(buckets, 0, 0);
    lemma_group_ordered(instrs);
    lemma_ticks_ascending(buckets, 0, 0);
    assert forall|t: int| 0 <= t < ticks.len() && (#[trigger] ticks[t]) is Some implies bucket_wf(
        ticks[t].unwrap(),
    ) by {
        lemma_ticks_are_buckets(buckets, 0, 0, t);
    }
}

/// Whatever the timeline yields is one of the buckets.
pub proof fn lemma_ticks_are_buckets(buckets: Seq<Seq<Instr>>, index: int, time: int, j: int)
    requires
        0 <= j < ticks_from(buckets, index, time).len(),
        ticks_from(buckets, index, time)[j] is Some,
    ensures
        exists|k: int|
            0 <= k < buckets.len() && ticks_from(buckets, index, time)[j] == Some(
                #[trigger] buckets[k],
            ),
    decreases buckets.len() - index, bucket_time(buckets[index]) - time,
{
    if bucket_time(buckets[index]) == time {
        if j > 0 {
            lemma_ticks_are_buckets(buckets, index + 1, time + 1, j - 1);
        }
    } else {
        lemma_ticks_are_buckets(buckets, index, time + 1, j - 1);
    }
}

} // verus!
