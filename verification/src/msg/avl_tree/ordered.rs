//! Sequences of packets in ascending order of id: what it means to find,
//! put in and take out a packet by its id.

use crate::msg::packet::MessagePacket;
use vstd::prelude::*;

verus! {

/// One more than the largest packet id: the upper bound of every id.
pub const ID_LIMIT: u64 = 0x1_0000_0000;

/// The ids of `s` grow strictly from each packet to the next.
pub open spec fn strictly_ascending(s: Seq<MessagePacket>) -> bool {
    forall|i: int, j: int| 0 <= i < j < s.len() ==> s[i].id < s[j].id
}

/// Some packet of `s` has the id `id`.
pub open spec fn has_id(s: Seq<MessagePacket>, id: u32) -> bool {
    exists|i: int| 0 <= i < s.len() && s[i].id == id
}

/// The packet of `s` that has the id `id`, where `s` has one.
pub open spec fn packet_of(s: Seq<MessagePacket>, id: u32) -> MessagePacket
    recommends
        has_id(s, id),
{
    s[choose|i: int| 0 <= i < s.len() && s[i].id == id]
}

/// The packets of `s` whose id lies strictly between `lo` and `hi`, in the
/// order in which `s` holds them.
pub open spec fn within(s: Seq<MessagePacket>, lo: int, hi: int) -> Seq<MessagePacket>
    decreases s.len(),
{
    if s.len() == 0 {
        s
    } else if lo < s.last().id < hi {
        within(s.drop_last(), lo, hi).push(s.last())
    } else {
        within(s.drop_last(), lo, hi)
    }
}

/// Every id of `s` lies strictly between `lo` and `hi`.
pub open spec fn all_within(s: Seq<MessagePacket>, lo: int, hi: int) -> bool {
    forall|i: int| 0 <= i < s.len() ==> lo < (#[trigger] s[i]).id < hi
}

/// `s` with `p` put between the packets of smaller id and those of larger id.
pub open spec fn inserted(s: Seq<MessagePacket>, p: MessagePacket) -> Seq<MessagePacket> {
    within(s, -1, p.id as int) + seq![p] + within(s, p.id as int, ID_LIMIT as int)
}

/// `s` without the packets whose id is `id`.
pub open spec fn removed(s: Seq<MessagePacket>, id: u32) -> Seq<MessagePacket> {
    within(s, -1, id as int) + within(s, id as int, ID_LIMIT as int)
}

/// In a sequence that ascends strictly no two packets share an id, so a
/// packet of the sequence is the one that its id names.
pub proof fn lemma_packet_of(s: Seq<MessagePacket>, p: MessagePacket)
    requires
        strictly_ascending(s),
        s.contains(p),
    ensures
        has_id(s, p.id),
        packet_of(s, p.id) == p,
{
}

/// `within` looks at each packet on its own, so it distributes over `+`.
pub proof fn lemma_within_concat(a: Seq<MessagePacket>, b: Seq<MessagePacket>, lo: int, hi: int)
    ensures
        within(a + b, lo, hi) == within(a, lo, hi) + within(b, lo, hi),
    decreases b.len(),
{
    if b.len() > 0 {
        let c = b.drop_last();
        assert((a + b).drop_last() =~= a + c);
        lemma_within_concat(a, c, lo, hi);
    }
}

/// `within` keeps a sequence whole when every id lies between the bounds.
pub proof fn lemma_within_all(s: Seq<MessagePacket>, lo: int, hi: int)
    requires
        forall|i: int| 0 <= i < s.len() ==> lo < (#[trigger] s[i]).id < hi,
    ensures
        within(s, lo, hi) == s,
    decreases s.len(),
{
    if s.len() > 0 {
        let c = s.drop_last();
        lemma_within_all(c, lo, hi);
    }
}

/// `within` keeps nothing when no id lies between the bounds.
pub proof fn lemma_within_none(s: Seq<MessagePacket>, lo: int, hi: int)
    requires
        forall|i: int| 0 <= i < s.len() ==> !(lo < (#[trigger] s[i]).id < hi),
    ensures
        within(s, lo, hi) == Seq::<MessagePacket>::empty(),
    decreases s.len(),
{
    if s.len() > 0 {
        let c = s.drop_last();
        lemma_within_none(c, lo, hi);
    }
}

/// An id occurs in `a + b` exactly when it occurs in `a` or in `b`.
pub proof fn lemma_has_id_concat(a: Seq<MessagePacket>, b: Seq<MessagePacket>, id: u32)
    ensures
        has_id(a + b, id) == (has_id(a, id) || has_id(b, id)),
{
    if has_id(a, id) {
        let i = choose|i: int| 0 <= i < a.len() && a[i].id == id;
        assert((a + b)[i].id == id);
    }
    if has_id(b, id) {
        let i = choose|i: int| 0 <= i < b.len() && b[i].id == id;
        assert((a + b)[a.len() + i].id == id);
    }
}

/// Around a node that separates `l` from `r`, an id below the node's is
/// looked for, put in and taken out on the left, and one above it on the
/// right; the node's own id is found at the node.
pub proof fn lemma_split(l: Seq<MessagePacket>, m: MessagePacket, r: Seq<MessagePacket>, id: u32)
    requires
        all_within(l, -1, m.id as int),
        all_within(r, m.id as int, ID_LIMIT as int),
    ensures
        id < m.id ==> {
            &&& has_id(l + seq![m] + r, id) == has_id(l, id)
            &&& within(l + seq![m] + r, -1, id as int) == within(l, -1, id as int)
            &&& within(l + seq![m] + r, id as int, ID_LIMIT as int) == within(
                l,
                id as int,
                ID_LIMIT as int,
            ) + seq![m] + r
        },
        id > m.id ==> {
            &&& has_id(l + seq![m] + r, id) == has_id(r, id)
            &&& within(l + seq![m] + r, -1, id as int) == l + seq![m] + within(r, -1, id as int)
            &&& within(l + seq![m] + r, id as int, ID_LIMIT as int) == within(
                r,
                id as int,
                ID_LIMIT as int,
            )
        },
        id == m.id ==> {
            &&& has_id(l + seq![m] + r, id)
            &&& within(l + seq![m] + r, -1, id as int) == l
            &&& within(l + seq![m] + r, id as int, ID_LIMIT as int) == r
        },
{
    let mid = seq![m];
    let top = ID_LIMIT as int;
    lemma_has_id_concat(l + mid, r, id);
    lemma_has_id_concat(l, mid, id);
    lemma_within_concat(l + mid, r, -1, id as int);
    lemma_within_concat(l, mid, -1, id as int);
    lemma_within_concat(l + mid, r, id as int, top);
    lemma_within_concat(l, mid, id as int, top);
    if id < m.id {
        lemma_within_none(mid, -1, id as int);
        lemma_within_none(r, -1, id as int);
        lemma_within_all(mid, id as int, top);
        lemma_within_all(r, id as int, top);
    } else if id > m.id {
        lemma_within_all(mid, -1, id as int);
        lemma_within_all(l, -1, id as int);
        lemma_within_none(mid, id as int, top);
        lemma_within_none(l, id as int, top);
    } else {
        lemma_within_all(l, -1, id as int);
        lemma_within_none(mid, -1, id as int);
        lemma_within_none(r, -1, id as int);
        lemma_within_none(l, id as int, top);
        lemma_within_none(mid, id as int, top);
        lemma_within_all(r, id as int, top);
    }
}

/// `within` keeps the ids that lie between the bounds and no others.
pub proof fn lemma_within_has_id(s: Seq<MessagePacket>, lo: int, hi: int, id: u32)
    ensures
        has_id(within(s, lo, hi), id) == (has_id(s, id) && lo < id < hi),
    decreases s.len(),
{
    if s.len() > 0 {
        let c = s.drop_last();
        let p = s.last();
        lemma_within_has_id(c, lo, hi, id);
        assert(s =~= c + seq![p]);
        if lo < p.id < hi {
            assert(within(s, lo, hi) =~= within(c, lo, hi) + seq![p]);
            lemma_has_id_concat(within(c, lo, hi), seq![p], id);
        }
    }
}

/// Putting a packet in adds its id and leaves every other id as it was.
pub proof fn lemma_inserted_has_id(s: Seq<MessagePacket>, p: MessagePacket, id: u32)
    ensures
        has_id(inserted(s, p), id) == (id == p.id || has_id(s, id)),
{
    let low = within(s, -1, p.id as int);
    let high = within(s, p.id as int, ID_LIMIT as int);
    lemma_within_has_id(s, -1, p.id as int, id);
    lemma_within_has_id(s, p.id as int, ID_LIMIT as int, id);
    lemma_has_id_concat(low + seq![p], high, id);
    lemma_has_id_concat(low, seq![p], id);
    if id == p.id {
        assert(seq![p][0].id == id);
    }
}

/// Taking an id out removes that id and leaves every other id as it was.
pub proof fn lemma_removed_has_id(s: Seq<MessagePacket>, gone: u32, id: u32)
    ensures
        has_id(removed(s, gone), id) == (id != gone && has_id(s, id)),
{
    lemma_within_has_id(s, -1, gone as int, id);
    lemma_within_has_id(s, gone as int, ID_LIMIT as int, id);
    lemma_has_id_concat(within(s, -1, gone as int), within(s, gone as int, ID_LIMIT as int), id);
}

} // verus!
