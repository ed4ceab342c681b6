//! What the report of a group says of its members, and when it is made.
use crate::clock::Instant;
use crate::daemon::TelemetryView;
use crate::event::{Group, NcclOpView, OpInfo};
use crate::nccl_metadata::OpDescr;
use crate::polling_model::{
    all_ungrouped, group_report, is_recv, is_send, latest_end, ordered, peers, placed, sent_bytes,
    CtxView,
};
use crate::reclaim_laws::law_reports_are_sorted;
use vstd::prelude::*;

verus! {

// ---------------------------------------------------------------- its members

/// The rank at the other end of a transfer.
pub open spec fn peer_of(c: NcclOpView) -> i32 {
    c.info.descr->P2p_0.peer
}

/// Whether `cs` are sends and receives.
pub open spec fn are_transfers(cs: Seq<NcclOpView>) -> bool {
    forall|i: int| 0 <= i < cs.len() ==> (#[trigger] cs[i]).info.descr is P2p
}

/// The bytes that a transfer sends.
spec fn bytes_sent(c: NcclOpView) -> nat {
    match c.info.descr {
        OpDescr::P2p(d) => if d.is_send {
            c.info.byte_count as nat
        } else {
            0
        },
        OpDescr::Coll(_) => 0,
    }
}

proof fn lemma_ungrouped_push(cs: Seq<NcclOpView>, c: NcclOpView)
    ensures
        all_ungrouped(cs.push(c)) == all_ungrouped(cs).push(c.ungrouped()),
        sent_bytes(all_ungrouped(cs.push(c))) == sent_bytes(all_ungrouped(cs)) + bytes_sent(c),
{
    assert(all_ungrouped(cs.push(c)) =~= all_ungrouped(cs).push(c.ungrouped()));
    assert(all_ungrouped(cs).push(c.ungrouped()).drop_last() =~= all_ungrouped(cs));
}

proof fn lemma_placed(cs: Seq<NcclOpView>, c: NcclOpView)
    ensures
        all_ungrouped(placed(cs, c)).to_multiset() =~= all_ungrouped(cs).to_multiset().insert(
            c.ungrouped(),
        ),
        sent_bytes(all_ungrouped(placed(cs, c))) == sent_bytes(all_ungrouped(cs)) + bytes_sent(c),
    decreases cs.len(),
{
    broadcast use vstd::seq_lib::group_to_multiset_ensures;

    if cs.len() == 0 {
        assert(cs =~= Seq::empty());
        assert(placed(cs, c) =~= cs.push(c));
        lemma_ungrouped_push(cs, c);
        assert(all_ungrouped(cs) =~= Seq::empty());
    } else {
        let front = cs.drop_last();
        assert(cs =~= front.push(cs.last()));
        lemma_ungrouped_push(front, cs.last());
        lemma_ungrouped_push(cs, c);
        lemma_placed(front, c);
        lemma_ungrouped_push(placed(front, c), cs.last());
    }
}

proof fn lemma_ordered(cs: Seq<NcclOpView>)
    ensures
        all_ungrouped(ordered(cs)).to_multiset() =~= all_ungrouped(cs).to_multiset(),
        sent_bytes(all_ungrouped(ordered(cs))) == sent_bytes(all_ungrouped(cs)),
        ordered(cs).len() == cs.len(),
    decreases cs.len(),
{
    broadcast use vstd::seq_lib::group_to_multiset_ensures;

    law_reports_are_sorted(cs);
    if cs.len() > 0 {
        let front = cs.drop_last();
        lemma_ordered(front);
        lemma_placed(ordered(front), cs.last());
        assert(cs =~= front.push(cs.last()));
        lemma_ungrouped_push(front, cs.last());
    }
}

/// A report lists the members of its group and no others, each as often as it
/// was there, without the group that they were issued in.
pub proof fn law_reports_list_their_members(
    gid: u64,
    cs: Seq<NcclOpView>,
    partial: bool,
    self_copy_size: usize,
)
    requires
        cs.len() <= usize::MAX,
    ensures
        ({
            let r = group_report(gid, cs, partial, self_copy_size);
            &&& r.children.to_multiset() =~= Seq::new(
                cs.len(),
                |i: int| cs[i].ungrouped(),
            ).to_multiset()
            &&& r.children.len() == cs.len()
            &&& r.n_children == cs.len()
            &&& r.group_id == gid
            &&& r.partial == partial
            &&& r.self_copy_size == self_copy_size
        }),
{
    lemma_ordered(cs);
    assert(all_ungrouped(cs) =~= Seq::new(cs.len(), |i: int| cs[i].ungrouped()));
}

/// A report lists its members by their start, and those that started together by
/// their id. It starts with the first of them, on whose rank and communicator it
/// is.
pub proof fn law_reports_start_with_their_first_member(
    gid: u64,
    cs: Seq<NcclOpView>,
    partial: bool,
    self_copy_size: usize,
)
    requires
        cs.len() > 0,
    ensures
        ({
            let r = group_report(gid, cs, partial, self_copy_size);
            &&& forall|i: int, j: int|
                0 <= i < j < r.children.len() ==> (#[trigger] r.children[i]).info.start_time < (
                #[trigger] r.children[j]).info.start_time || (r.children[i].info.start_time
                    == r.children[j].info.start_time && r.children[i].info.id
                    <= r.children[j].info.id)
            &&& forall|i: int|
                0 <= i < r.children.len() ==> r.start_time <= (
                #[trigger] r.children[i]).info.start_time
            &&& r.start_time == r.children[0].info.start_time
            &&& r.rank == r.children[0].info.rank
            &&& r.comm_hash == r.children[0].info.comm_hash
        }),
{
    law_reports_are_sorted(cs);
    let o = ordered(cs);
    let r = group_report(gid, cs, partial, self_copy_size);
    assert forall|i: int, j: int| 0 <= i < j < r.children.len() implies (
    #[trigger] r.children[i]).info.start_time < (#[trigger] r.children[j]).info.start_time || (
    r.children[i].info.start_time == r.children[j].info.start_time && r.children[i].info.id
        <= r.children[j].info.id) by {
        assert(r.children[i].info.id == o[i].info.id);
        assert(r.children[j].info.id == o[j].info.id);
    }
    assert forall|i: int| 0 <= i < r.children.len() implies r.start_time <= (
    #[trigger] r.children[i]).info.start_time by {
        if i > 0 {
            assert(r.children[0].info.start_time <= r.children[i].info.start_time);
        }
    }
}

proof fn lemma_latest_end(cs: Seq<NcclOpView>, floor: Instant)
    ensures
        latest_end(cs, floor) >= floor,
        forall|i: int|
            0 <= i < cs.len() ==> ((#[trigger] cs[i]).info.end_time matches Some(e) ==> e
                <= latest_end(cs, floor)),
        latest_end(cs, floor) == floor || exists|i: int|
            0 <= i < cs.len() && (#[trigger] cs[i]).info.end_time == Some(latest_end(cs, floor)),
    decreases cs.len(),
{
    if cs.len() > 0 {
        let front = cs.drop_last();
        lemma_latest_end(front, floor);
        let t = latest_end(cs, floor);
        assert forall|i: int| 0 <= i < cs.len() implies ((
        #[trigger] cs[i]).info.end_time matches Some(e) ==> e <= t) by {
            if i < front.len() {
                assert(front[i] == cs[i]);
            }
        }
        if t == latest_end(front, floor) {
            if t != floor {
                let i = choose|i: int|
                    0 <= i < front.len() && (#[trigger] front[i]).info.end_time == Some(t);
                assert(cs[i] == front[i]);
            }
        } else {
            assert(cs[cs.len() - 1].info.end_time == Some(t));
        }
    }
}

/// No member of a group ends after its report, and the report ends with one of
/// them, or where it starts if none ends later.
pub proof fn law_reports_end_with_their_last_member(
    gid: u64,
    cs: Seq<NcclOpView>,
    partial: bool,
    self_copy_size: usize,
)
    ensures
        ({
            let r = group_report(gid, cs, partial, self_copy_size);
            &&& r.start_time <= r.end_time
            &&& forall|i: int|
                0 <= i < r.children.len() ==> ((
                #[trigger] r.children[i]).info.end_time matches Some(e) ==> e <= r.end_time)
            &&& r.end_time == r.start_time || exists|i: int|
                0 <= i < r.children.len() && (#[trigger] r.children[i]).info.end_time == Some(
                    r.end_time,
                )
        }),
{
    let r = group_report(gid, cs, partial, self_copy_size);
    lemma_latest_end(r.children, r.start_time);
}

/// The size of a group is what its sends send: a send adds its bytes, as far as
/// they can be counted, and a receive adds none.
pub proof fn law_sends_make_up_the_size(
    gid: u64,
    cs: Seq<NcclOpView>,
    c: NcclOpView,
    partial: bool,
    self_copy_size: usize,
)
    requires
        c.info.descr is P2p,
    ensures
        ({
            let before = group_report(gid, cs, partial, self_copy_size).size;
            let after = group_report(gid, cs.push(c), partial, self_copy_size).size;
            &&& cs.len() == 0 ==> before == 0
            &&& !c.info.descr->P2p_0.is_send ==> after == before
            &&& c.info.descr->P2p_0.is_send && before + c.info.byte_count <= usize::MAX ==> after
                == before + c.info.byte_count
            &&& c.info.descr->P2p_0.is_send && before + c.info.byte_count > usize::MAX ==> after
                == usize::MAX
        }),
{
    lemma_ordered(cs);
    lemma_ordered(cs.push(c));
    lemma_ungrouped_push(cs, c);
}

proof fn lemma_peers(cs: Seq<NcclOpView>)
    requires
        are_transfers(cs),
    ensures
        peers(cs).finite(),
        peers(cs).len() <= cs.len(),
        forall|p: i32|
            #![trigger peers(cs).contains(p)]
            peers(cs).contains(p) ==> exists|i: int|
                0 <= i < cs.len() && peer_of(#[trigger] cs[i]) == p,
        forall|i: int| 0 <= i < cs.len() ==> peers(cs).contains(peer_of(#[trigger] cs[i])),
    decreases cs.len(),
{
    if cs.len() > 0 {
        let front = cs.drop_last();
        assert(are_transfers(front)) by {
            assert forall|i: int| 0 <= i < front.len() implies (
            #[trigger] front[i]).info.descr is P2p by {
                assert(front[i] == cs[i]);
            }
        }
        lemma_peers(front);
        assert(cs[cs.len() - 1].info.descr is P2p);
        assert(peers(cs) == peers(front).insert(peer_of(cs.last())));
        assert forall|p: i32| #[trigger] peers(cs).contains(p) implies exists|i: int|
            0 <= i < cs.len() && peer_of(#[trigger] cs[i]) == p by {
            if p == peer_of(cs.last()) {
                assert(peer_of(cs[cs.len() - 1]) == p);
            } else {
                assert(peers(front).contains(p));
                let i = choose|i: int| 0 <= i < front.len() && peer_of(#[trigger] front[i]) == p;
                assert(peer_of(cs[i]) == p);
            }
        }
        assert forall|i: int| 0 <= i < cs.len() implies peers(cs).contains(
            peer_of(#[trigger] cs[i]),
        ) by {
            if i < front.len() {
                assert(peers(front).contains(peer_of(front[i])));
            }
        }
    }
}

/// Members of a report are transfers where those of its group are.
proof fn lemma_report_transfers(gid: u64, cs: Seq<NcclOpView>, partial: bool, copied: usize)
    requires
        are_transfers(cs),
    ensures
        are_transfers(group_report(gid, cs, partial, copied).children),
{
    broadcast use vstd::seq_lib::group_to_multiset_ensures;

    law_reports_are_sorted(cs);
    let o = ordered(cs);
    let k = group_report(gid, cs, partial, copied).children;
    assert forall|i: int| 0 <= i < k.len() implies (#[trigger] k[i]).info.descr is P2p by {
        assert(o.contains(o[i]));
        assert(o.to_multiset().contains(o[i]));
        assert(cs.to_multiset().contains(o[i]));
        assert(cs.contains(o[i]));
        let j = choose|j: int| 0 <= j < cs.len() && cs[j] == o[i];
        assert(cs[j].info.descr is P2p);
    }
}

/// A report counts each rank at the other end once.
pub proof fn law_reports_count_their_peers(
    gid: u64,
    cs: Seq<NcclOpView>,
    partial: bool,
    self_copy_size: usize,
)
    requires
        are_transfers(cs),
        cs.len() <= usize::MAX,
    ensures
        ({
            let r = group_report(gid, cs, partial, self_copy_size);
            r.n_peers == Seq::new(
                r.children.len(),
                |i: int| r.children[i].info.descr->P2p_0.peer,
            ).to_set().len()
        }),
{
    let r = group_report(gid, cs, partial, self_copy_size);
    lemma_report_transfers(gid, cs, partial, self_copy_size);
    lemma_peers(r.children);
    law_reports_are_sorted(cs);
    let ps = Seq::new(r.children.len(), |i: int| r.children[i].info.descr->P2p_0.peer);
    assert(peers(r.children) =~= ps.to_set()) by {
        assert forall|p: i32| peers(r.children).contains(p) <==> ps.to_set().contains(p) by {
            if peers(r.children).contains(p) {
                let i = choose|i: int|
                    0 <= i < r.children.len() && peer_of(#[trigger] r.children[i]) == p;
                assert(ps[i] == p);
            }
            if ps.contains(p) {
                let i = choose|i: int| 0 <= i < ps.len() && ps[i] == p;
                assert(peers(r.children).contains(peer_of(r.children[i])));
            }
        }
    }
}

proof fn lemma_several(s: Set<i32>, a: i32, b: i32)
    requires
        s.finite(),
        s.contains(a),
        s.contains(b),
        a != b,
    ensures
        s.len() >= 2,
{
    assert(s.remove(a).contains(b));
    assert(s.remove(a).len() > 0) by {
        if s.remove(a).len() == 0 {
            assert(s.remove(a) =~= Set::empty());
        }
    }
}

proof fn lemma_one(s: Set<i32>)
    requires
        s.finite(),
        forall|a: i32, b: i32| #[trigger] s.contains(a) && #[trigger] s.contains(b) ==> a == b,
    ensures
        s.len() <= 1,
{
    if s.len() >= 2 {
        let a = s.choose();
        assert(s.contains(a)) by {
            if s =~= Set::empty() {
            }
        }
        let t = s.remove(a);
        assert(t.len() >= 1);
        let b = t.choose();
        assert(t.contains(b)) by {
            if t =~= Set::empty() {
            }
        }
        assert(s.contains(b));
    }
}

/// Transfers with several peers are an exchange among all of them; with one, an
/// exchange with it if they go both ways, else sends or receives.
pub proof fn law_reports_are_named_by_their_transfers(
    gid: u64,
    cs: Seq<NcclOpView>,
    partial: bool,
    self_copy_size: usize,
)
    requires
        are_transfers(cs),
        cs.len() > 0,
    ensures
        ({
            let r = group_report(gid, cs, partial, self_copy_size);
            let k = r.children;
            let several = exists|i: int, j: int|
                0 <= i < k.len() && 0 <= j < k.len() && (
                #[trigger] k[i]).info.descr->P2p_0.peer != (
                #[trigger] k[j]).info.descr->P2p_0.peer;
            let sends = exists|i: int|
                0 <= i < k.len() && (#[trigger] k[i]).info.descr->P2p_0.is_send;
            let recvs = exists|i: int|
                0 <= i < k.len() && !(#[trigger] k[i]).info.descr->P2p_0.is_send;
            &&& several ==> r.name == "all_to_all"
            &&& !several && sends && recvs ==> r.name == "sendrecv"
            &&& !several && sends && !recvs ==> r.name == "send"
            &&& !several && !sends ==> r.name == "recv"
        }),
{
    let r = group_report(gid, cs, partial, self_copy_size);
    let k = r.children;
    lemma_report_transfers(gid, cs, partial, self_copy_size);
    lemma_peers(k);
    let several = exists|i: int, j: int|
        0 <= i < k.len() && 0 <= j < k.len() && (#[trigger] k[i]).info.descr->P2p_0.peer != (
        #[trigger] k[j]).info.descr->P2p_0.peer;
    if several {
        let (i, j) = choose|i: int, j: int|
            0 <= i < k.len() && 0 <= j < k.len() && (#[trigger] k[i]).info.descr->P2p_0.peer != (
            #[trigger] k[j]).info.descr->P2p_0.peer;
        lemma_several(peers(k), peer_of(k[i]), peer_of(k[j]));
    } else {
        assert forall|a: i32, b: i32| #[trigger] peers(k).contains(a) && #[trigger] peers(
            k,
        ).contains(b) implies a == b by {
            let i = choose|i: int| 0 <= i < k.len() && peer_of(#[trigger] k[i]) == a;
            let j = choose|j: int| 0 <= j < k.len() && peer_of(#[trigger] k[j]) == b;
            assert(k[i].info.descr->P2p_0.peer == k[j].info.descr->P2p_0.peer);
        }
        lemma_one(peers(k));
    }
    assert forall|i: int| 0 <= i < k.len() implies is_send(#[trigger] k[i])
        == k[i].info.descr->P2p_0.is_send && is_recv(k[i]) == !k[i].info.descr->P2p_0.is_send by {
        assert(k[i].info.descr is P2p);
    }
}

// ------------------------------------------------------------ when it is made

/// A transfer that is announced in a group is expected in its report. Other
/// groups do not expect it, and a collective is expected in none.
pub proof fn law_announced_transfers_are_expected(c: CtxView, op: OpInfo, gid: u64)
    requires
        c.group(gid).expected < usize::MAX,
    ensures
        ({
            let joins = op.descr is P2p && op.parent_group_id == Some(gid);
            &&& joins ==> c.counted(op).group(gid).expected == c.group(gid).expected + 1
            &&& !joins ==> c.counted(op).group(gid).expected == c.group(gid).expected
            &&& c.counted(op).group(gid).children == c.group(gid).children
            &&& c.counted(op).group(gid).ended == c.group(gid).ended
            &&& c.counted(op).ncclops == c.ncclops
            &&& c.counted(op).pending == c.pending
        }),
{
}

/// A group with members is reported once it ended, all that were announced in it
/// have left, and none of its transfers is in flight; until then it waits.
pub proof fn law_groups_are_reported_when_complete(c: CtxView, gid: u64)
    requires
        c.groups.contains_key(gid),
    ensures
        ({
            let g = c.groups[gid];
            let d = c.group_tried(gid, false);
            let inflight = exists|id: usize| #[trigger]
                c.ncclops.contains_key(id) && c.ncclops[id].info.descr is P2p
                    && c.ncclops[id].info.parent_group_id == Some(gid);
            let complete = g.ended && g.children.len() > 0 && g.children.len() >= g.expected
                && !inflight;
            &&& complete ==> d.pending.len() == c.pending.len() + 1 && d.pending.drop_last()
                == c.pending && (d.pending.last() matches TelemetryView::P2pParent(r)
                && r.group_id == gid && !r.partial && r.self_copy_size == g.self_copy_size
                && r == group_report(gid, g.children, false, g.self_copy_size))
                && !d.groups.contains_key(gid)
            &&& !complete ==> d == c
        }),
{
    let g = c.groups[gid];
    let d = c.group_tried(gid, false);
    if c.group_is_ready(gid, false) {
        assert(d.pending.drop_last() =~= c.pending);
    }
}

/// When the daemon stops, a group with members is reported as it is. The report
/// is marked where the group did not end or lacks members.
pub proof fn law_incomplete_groups_are_marked(c: CtxView, gid: u64)
    requires
        c.groups.contains_key(gid),
        c.groups[gid].children.len() > 0,
    ensures
        ({
            let g = c.groups[gid];
            let d = c.group_tried(gid, true);
            &&& !d.groups.contains_key(gid)
            &&& d.pending.drop_last() == c.pending
            &&& d.pending.last() matches TelemetryView::P2pParent(r) && r.group_id == gid && (
            r.partial <==> !g.ended || g.children.len() < g.expected) && r.self_copy_size
                == g.self_copy_size && r == group_report(
                gid,
                g.children,
                r.partial,
                g.self_copy_size,
            )
        }),
{
    let d = c.group_tried(gid, true);
    assert(d.pending.drop_last() =~= c.pending);
}

/// The end of a group is noted, with the larger of the sizes that it copied
/// within the rank, and is told where groups are tracked.
pub proof fn law_ends_of_groups_are_noted(c: CtxView, g: Group, track: bool)
    ensures
        ({
            let d = c.group_ended(g, track);
            let old = c.group(g.id);
            &&& d.groups.contains_key(g.id) ==> d.groups[g.id].ended && d.groups[g.id].expected
                == old.expected && d.groups[g.id].children == old.children
                && d.groups[g.id].self_copy_size >= g.self_copy_size
                && d.groups[g.id].self_copy_size >= old.self_copy_size && (
            d.groups[g.id].self_copy_size == g.self_copy_size || d.groups[g.id].self_copy_size
                == old.self_copy_size)
            &&& old.children.len() == 0 ==> d.groups.contains_key(g.id)
            &&& track ==> d.pending.len() > 0 && d.pending.last() == TelemetryView::Group(g)
            &&& !track && old.children.len() == 0 ==> d.pending == c.pending
            &&& d.ncclops == c.ncclops
            &&& forall|other: u64|
                other != g.id && #[trigger] c.groups.contains_key(other)
                    ==> d.groups.contains_key(other) && d.groups[other] == c.groups[other]
        }),
{
}

/// An operation that leaves closes its open markers. A collective is told as it
/// is; a transfer of a group waits there behind the others; a transfer on its
/// own is told as a group of one, complete, and with no number.
pub proof fn law_operations_leave_as_what_they_are(c: CtxView, op: NcclOpView, now: Instant)
    ensures
        ({
            let d = c.reclaimed(op, now);
            &&& !d.active.contains_key(op.info.id)
            &&& d.ncclops == c.ncclops
            &&& c.pending.is_prefix_of(d.pending)
            &&& op.info.descr is Coll ==> d.pending.last() == TelemetryView::NcclOp(op) && d.groups
                == c.groups
            &&& op.info.descr is P2p && op.info.parent_group_id is None ==> d.groups == c.groups && (
            d.pending.last() matches TelemetryView::P2pParent(r) && r.group_id == 0 && !r.partial
                && r.self_copy_size == 0 && r.children == seq![op.ungrouped()] && r.n_children == 1)
            &&& (op.info.descr is P2p && op.info.parent_group_id matches Some(gid)) ==> {
                let gid = op.info.parent_group_id->0;
                let waits = c.group(gid).children.push(op);
                ||| d.groups.contains_key(gid) && d.groups[gid].children == waits
                    && d.groups[gid].expected == c.group(gid).expected && d.groups[gid].ended
                    == c.group(gid).ended
                ||| !d.groups.contains_key(gid) && c.group(gid).ended && (
                d.pending.last() matches TelemetryView::P2pParent(r) && r == group_report(
                    gid,
                    waits,
                    false,
                    c.group(gid).self_copy_size,
                ))
            }
        }),
{
    let d = c.reclaimed(op, now);
    lemma_closing_order(c, op, now);
    if op.info.descr is P2p && op.info.parent_group_id is None {
        let one = seq![op];
        assert(one.drop_last() =~= Seq::<NcclOpView>::empty());
        assert(ordered(one.drop_last()) =~= Seq::<NcclOpView>::empty());
        assert(ordered(one) =~= seq![op]);
        assert(all_ungrouped(ordered(one)) =~= seq![op.ungrouped()]);
    }
}

proof fn lemma_closing_order(c: CtxView, op: NcclOpView, now: Instant)
    ensures
        c.pending.is_prefix_of(c.reclaimed(op, now).pending),
{
    let end = match op.info.end_time {
        Some(t) => t,
        None => now,
    };
    let closed = c.finished(op.info.id, end);
    let d = c.reclaimed(op, now);
    assert(closed.pending.take(c.pending.len() as int) =~= c.pending);
    assert(d.pending.take(c.pending.len() as int) =~= c.pending);
}

/// The markers that an operation leaves open are told as closed when it ended,
/// or now if its end is not known.
pub proof fn law_leaving_closes_markers(c: CtxView, op: NcclOpView, now: Instant, i: int)
    requires
        c.active.contains_key(op.info.id),
        0 <= i < c.active[op.info.id].len(),
    ensures
        ({
            let d = c.reclaimed(op, now);
            let told = d.pending[c.pending.len() + i];
            &&& told matches TelemetryView::StepProgress(m) && m.stage is Complete && m.observed_at
                == (match op.info.end_time {
                Some(t) => t,
                None => now,
            }) && m.source == c.active[op.info.id][i].source && m.peer
                == c.active[op.info.id][i].peer && m.parent_start
                == c.active[op.info.id][i].parent_start
        }),
{
    let end = match op.info.end_time {
        Some(t) => t,
        None => now,
    };
    let closed = c.finished(op.info.id, end);
    let d = c.reclaimed(op, now);
    assert(closed.pending.is_prefix_of(d.pending)) by {
        assert(d.pending.take(closed.pending.len() as int) =~= closed.pending);
    }
    assert(d.pending[c.pending.len() + i] == closed.pending[c.pending.len() + i]);
}

} // verus!
