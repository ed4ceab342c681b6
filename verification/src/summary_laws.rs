//! What summaries count, and what heartbeats say.
use crate::daemon::TelemetryView;
use crate::event::{NcclOpView, OpInfo, P2pParentView};
use crate::key_order::{in_order, law_groups_are_listed_in_order};
use crate::nccl_metadata::{CollDescr, CollOpType, NcclOpKey, OpDescr};
use crate::profiler::Communicator;
use crate::summary::{
    coll_at, count_of, counted, law_operations_count_once, lemma_tally_at, lemma_tally_at_push,
    lemma_tally_at_update, tally_at, times, ClosedComm, CollLast,
    SummaryView, TallyView,
};
use vstd::prelude::*;

verus! {

// -------------------------------------------------------------------- counting

/// How often an operation of `size` bytes that took `ns` nanoseconds was counted
/// under `key`.
pub open spec fn latency_times(ts: Seq<TallyView>, key: NcclOpKey, size: u64, ns: u64) -> u64 {
    let i = tally_at(ts, key) as int;
    if i < ts.len() && ts[i].latencies.contains_key((size, ns)) {
        ts[i].latencies[(size, ns)]
    } else {
        0
    }
}

/// An operation that is done adds one to the count of its size, under its own
/// communicator, rank and kind, and nothing to any other count.
pub proof fn law_done_operations_add_one(
    s: SummaryView,
    op: NcclOpView,
    now: u128,
    key: NcclOpKey,
    size: u64,
)
    requires
        times(s.tallies, key, size) < u64::MAX,
    ensures
        ({
            let d = s.after_record(TelemetryView::NcclOp(op), now);
            &&& key == op.info.spec_op_key() && size == op.info.byte_count as u64 ==> times(
                d.tallies,
                key,
                size,
            ) == times(s.tallies, key, size) + 1
            &&& !(key == op.info.spec_op_key() && size == op.info.byte_count as u64) ==> times(
                d.tallies,
                key,
                size,
            ) == times(s.tallies, key, size)
            &&& d.active == s.active && d.closed == s.closed
        }),
{
    law_operations_count_once(s.tallies, op.info, key, size);
}

/// Where it is known how long an operation ran, from its first child event to
/// its end, that is counted too, once, with its size. Otherwise it is not.
pub proof fn law_done_operations_add_their_latency(
    s: SummaryView,
    op: NcclOpView,
    now: u128,
    key: NcclOpKey,
    size: u64,
    ns: u64,
)
    requires
        latency_times(s.tallies, key, size, ns) < u64::MAX,
        op.info.child_start_time matches Some(a) && op.info.end_time matches Some(b) ==> a <= b && b
            - a <= u64::MAX,
    ensures
        ({
            let d = s.after_record(TelemetryView::NcclOp(op), now);
            let counts = key == op.info.spec_op_key() && size == op.info.byte_count as u64 && (
            op.info.child_start_time matches Some(a) && op.info.end_time matches Some(b) && ns == b
                - a);
            &&& counts ==> latency_times(d.tallies, key, size, ns) == latency_times(
                s.tallies,
                key,
                size,
                ns,
            ) + 1
            &&& !counts ==> latency_times(d.tallies, key, size, ns) == latency_times(
                s.tallies,
                key,
                size,
                ns,
            )
        }),
{
    let ts = s.tallies;
    let own = op.info.spec_op_key();
    let i = tally_at(ts, own) as int;
    let bytes = op.info.byte_count as u64;
    let took = op.info.spec_child_duration();
    lemma_tally_at(ts, own);
    lemma_tally_at(ts, key);
    if i < ts.len() {
        lemma_tally_at_update(ts, i, ts[i].with_op(bytes, took), key);
    } else {
        lemma_tally_at_push(ts, TallyView::fresh(own).with_op(bytes, took), key);
    }
}

/// The members of a group count one by one, as operations of their own.
pub proof fn law_members_of_groups_count(
    s: SummaryView,
    p: P2pParentView,
    last: NcclOpView,
    now: u128,
)
    ensures
        ({
            let more = P2pParentView { children: p.children.push(last), ..p };
            let before = s.after_record(TelemetryView::P2pParent(p), now);
            &&& s.after_record(TelemetryView::P2pParent(more), now) == before.after_record(
                TelemetryView::NcclOp(last),
                now,
            )
            &&& p.children.len() == 0 ==> before == s
        }),
{
    assert(p.children.push(last).drop_last() =~= p.children);
}

/// Nothing but whole operations is counted.
pub proof fn law_other_records_do_not_count(s: SummaryView, t: TelemetryView, now: u128)
    requires
        t !is NcclOp,
        t !is P2pParent,
    ensures
        s.after_record(t, now).tallies == s.tallies,
        t is Group || t is NcclOpComplete || t is P2pParentStart || t is P2pGroupSeal
            || t is StepProgress || t is KernelCopy || t is ProxyOp || t is CommInit
            ==> s.after_record(t, now) == s,
{
}

/// A value that is counted adds one to its own count and leaves others alone.
pub proof fn law_counting_adds_one<K>(m: Map<K, u64>, k: K, other: K)
    requires
        count_of(m, k) < u64::MAX,
        other != k,
    ensures
        counted(m, k).contains_key(k),
        counted(m, k)[k] == if m.contains_key(k) {
            m[k] + 1
        } else {
            1
        },
        counted(m, k).contains_key(other) <==> m.contains_key(other),
        m.contains_key(other) ==> counted(m, k)[other] == m[other],
{
}

/// No count ever falls; one that cannot grow any more stays.
pub proof fn law_counts_never_fall<K>(m: Map<K, u64>, k: K, other: K)
    ensures
        count_of(counted(m, k), other) >= count_of(m, other),
        count_of(counted(m, k), k) > 0,
{
}

// ------------------------------------------------------------------ heartbeats

proof fn lemma_entry(s: SummaryView, net: Map<u64, u64>, remote: Option<u64>, hash: u64) -> (i: int)
    requires
        s.active.dom().finite(),
        s.active.contains_key(hash),
    ensures
        0 <= i < s.heartbeat(net, remote).active.len(),
        in_order(s.active.dom())[i] == hash,
        s.heartbeat(net, remote).active[i].comm_hash == hash,
{
    let keys = in_order(s.active.dom());
    law_groups_are_listed_in_order(s.active.dom());
    assert(keys.contains(hash));
    choose|i: int| 0 <= i < keys.len() && keys[i] == hash
}

/// A heartbeat has one entry for each open communicator and for no other, in
/// ascending order, with the bytes that were counted for it. It says nothing of
/// bytes that are not counted.
pub proof fn law_heartbeats_list_open_communicators(
    s: SummaryView,
    net: Map<u64, u64>,
    remote: Option<u64>,
)
    requires
        s.active.dom().finite(),
    ensures
        ({
            let h = s.heartbeat(net, remote);
            &&& forall|i: int, j: int|
                0 <= i < j < h.active.len() ==> (#[trigger] h.active[i]).comm_hash < (
                #[trigger] h.active[j]).comm_hash
            &&& forall|i: int|
                0 <= i < h.active.len() ==> s.active.contains_key(
                    (#[trigger] h.active[i]).comm_hash,
                )
            &&& forall|k: u64| #[trigger]
                s.active.contains_key(k) ==> exists|i: int|
                    0 <= i < h.active.len() && (#[trigger] h.active[i]).comm_hash == k
            &&& forall|i: int|
                0 <= i < h.active.len() ==> ({
                    let r = #[trigger] h.active[i];
                    &&& net.contains_key(r.comm_hash) ==> r.net_bytes == Some(net[r.comm_hash])
                    &&& !net.contains_key(r.comm_hash) ==> r.net_bytes is None
                    &&& r.rank == s.active[r.comm_hash].rank
                    &&& r.colls == s.active[r.comm_hash].colls
                })
            &&& h.remote_comm_bytes == remote
        }),
{
    let h = s.heartbeat(net, remote);
    let keys = in_order(s.active.dom());
    law_groups_are_listed_in_order(s.active.dom());
    assert forall|i: int| 0 <= i < h.active.len() implies s.active.contains_key(
        (#[trigger] h.active[i]).comm_hash,
    ) by {
        assert(keys.contains(keys[i]));
    }
    assert forall|k: u64| #[trigger] s.active.contains_key(k) implies exists|i: int|
        0 <= i < h.active.len() && (#[trigger] h.active[i]).comm_hash == k by {
        let i = lemma_entry(s, net, remote, k);
        assert(h.active[i].comm_hash == k);
    }
}

proof fn lemma_coll_at(cs: Seq<CollLast>, t: CollOpType)
    ensures
        coll_at(cs, t) <= cs.len(),
        coll_at(cs, t) < cs.len() ==> cs[coll_at(cs, t) as int].op_type == t,
        coll_at(cs, t) == cs.len() ==> forall|i: int|
            0 <= i < cs.len() ==> (#[trigger] cs[i]).op_type != t,
    decreases cs.len(),
{
    if cs.len() > 0 && cs[0].op_type != t {
        let rest = cs.skip(1);
        lemma_coll_at(rest, t);
        if coll_at(cs, t) == cs.len() {
            assert forall|i: int| 0 <= i < cs.len() implies (#[trigger] cs[i]).op_type != t by {
                if i > 0 {
                    assert(rest[i - 1] == cs[i]);
                }
            }
        }
    }
}

/// A collective that was issued is in the next heartbeat: its communicator is
/// listed with the rank of the operation, and its type with the sequence number,
/// algorithm and size of this one. What was said of other types is said again.
pub proof fn law_issued_collectives_are_in_the_heartbeat(
    s: SummaryView,
    op: NcclOpView,
    c: CollDescr,
    now: u128,
    net: Map<u64, u64>,
    remote: Option<u64>,
    other: CollLast,
)
    requires
        s.active.dom().finite(),
        op.info.descr == OpDescr::Coll(c),
    ensures
        ({
            let d = s.after_record(TelemetryView::NcclOpIssued(op), now);
            let h = d.heartbeat(net, remote);
            exists|i: int|
                0 <= i < h.active.len() && (#[trigger] h.active[i]).comm_hash == op.info.comm_hash
                    && h.active[i].rank == Some(op.info.rank as i32) && h.active[i].colls.contains(
                    CollLast {
                        op_type: c.op_type,
                        seq_num: c.seq_num,
                        algo: c.algo,
                        op_size: op.info.byte_count as u64,
                    },
                ) && (s.active.contains_key(op.info.comm_hash)
                    && s.active[op.info.comm_hash].colls.contains(other) && other.op_type
                    != c.op_type ==> h.active[i].colls.contains(other))
        }),
{
    let hash = op.info.comm_hash;
    let d = s.after_record(TelemetryView::NcclOpIssued(op), now);
    let h = d.heartbeat(net, remote);
    let last = CollLast {
        op_type: c.op_type,
        seq_num: c.seq_num,
        algo: c.algo,
        op_size: op.info.byte_count as u64,
    };
    let i = lemma_entry(d, net, remote, hash);
    let before = s.comm(hash).colls;
    let after = h.active[i].colls;
    lemma_coll_at(before, c.op_type);
    let k = coll_at(before, c.op_type) as int;
    assert(after[k] == last);
    assert(after.contains(last));
    if before.contains(other) && other.op_type != c.op_type {
        let j = choose|j: int| 0 <= j < before.len() && before[j] == other;
        assert(after[j] == other);
        assert(after.contains(other));
    }
    assert(h.active[i].comm_hash == hash);
}

/// Each type of collective is listed once for a communicator.
pub proof fn law_types_are_listed_once(s: SummaryView, op: OpInfo, c: CollDescr)
    requires
        op.descr == OpDescr::Coll(c),
        forall|i: int, j: int|
            0 <= i < j < s.comm(op.comm_hash).colls.len() ==> (#[trigger] s.comm(
                op.comm_hash,
            ).colls[i]).op_type != (#[trigger] s.comm(op.comm_hash).colls[j]).op_type,
    ensures
        ({
            let cs = s.after_issue(op).active[op.comm_hash].colls;
            forall|i: int, j: int|
                0 <= i < j < cs.len() ==> (#[trigger] cs[i]).op_type != (#[trigger] cs[j]).op_type
        }),
{
    lemma_coll_at(s.comm(op.comm_hash).colls, c.op_type);
}

/// An issued collective opens its communicator if it was not, touches no other,
/// and does not change how its bytes are counted. A transfer changes nothing.
pub proof fn law_issues_touch_their_communicator(s: SummaryView, op: NcclOpView, now: u128)
    ensures
        ({
            let d = s.after_record(TelemetryView::NcclOpIssued(op), now);
            let hash = op.info.comm_hash;
            &&& op.info.descr is P2p ==> d == s
            &&& op.info.descr is Coll ==> d.active.dom() == s.active.dom().insert(hash)
                && d.active[hash].total_net_bytes == (if s.active.contains_key(hash) {
                s.active[hash].total_net_bytes
            } else {
                None
            })
            &&& forall|k: u64|
                k != hash && #[trigger] s.active.contains_key(k) ==> d.active[k] == s.active[k]
            &&& d.closed == s.closed && d.tallies == s.tallies
        }),
{
    let d = s.after_record(TelemetryView::NcclOpIssued(op), now);
    if op.info.descr is Coll {
        assert(d.active.dom() =~= s.active.dom().insert(op.info.comm_hash));
    }
}

/// A communicator that was opened is listed until it is closed, and its bytes
/// are counted with the first counter that it brought. One without a hash is not
/// listed.
pub proof fn law_opened_communicators_are_listed(s: SummaryView, comm: Communicator, now: u128)
    ensures
        ({
            let d = s.after_record(TelemetryView::CommOpen(comm), now);
            &&& comm.comm_hash is None ==> d == s
            &&& comm.comm_hash matches Some(hash) ==> ({
                &&& d.active.dom() == s.active.dom().insert(hash)
                &&& d.counting().contains(hash)
                &&& s.counting().contains(hash) ==> d.active[hash] == s.active[hash]
                &&& !s.counting().contains(hash) ==> d.active[hash].total_net_bytes == Some(
                    comm.total_net_bytes,
                )
                &&& !s.active.contains_key(hash) ==> d.active[hash].rank is None
                    && d.active[hash].colls.len() == 0
                &&& s.active.contains_key(hash) ==> d.active[hash].rank == s.active[hash].rank
                    && d.active[hash].colls == s.active[hash].colls
                &&& forall|k: u64|
                    k != hash && #[trigger] s.active.contains_key(k) ==> d.active[k] == s.active[k]
            })
            &&& d.closed == s.closed && d.tallies == s.tallies
        }),
{
    let d = s.after_record(TelemetryView::CommOpen(comm), now);
    if comm.comm_hash is Some {
        assert(d.active.dom() =~= s.active.dom().insert(comm.comm_hash->0));
    }
}

/// A communicator that was closed is not listed any more; it is noted with the
/// rank that it had and the time. One that was not open is not noted.
pub proof fn law_closed_communicators_are_noted(s: SummaryView, hash: u64, now: u128)
    ensures
        ({
            let d = s.after_record(TelemetryView::CommClose(hash), now);
            &&& !s.active.contains_key(hash) ==> d == s
            &&& s.active.contains_key(hash) ==> ({
                &&& d.active == s.active.remove(hash)
                &&& d.closed.contains_key(hash)
                &&& d.closed[hash] == (ClosedComm {
                    comm_hash: hash,
                    rank: s.active[hash].rank,
                    close_time: now,
                })
                &&& forall|k: u64|
                    k != hash && #[trigger] s.closed.contains_key(k) ==> d.closed.contains_key(k)
                        && d.closed[k] == s.closed[k]
            })
            &&& d.tallies == s.tallies
        }),
{
}

/// A heartbeat lists every communicator that is noted as closed, once and in
/// ascending order.
pub proof fn law_heartbeats_list_closed_communicators(
    s: SummaryView,
    net: Map<u64, u64>,
    remote: Option<u64>,
)
    requires
        s.closed.dom().finite(),
        forall|k: u64| #[trigger] s.closed.contains_key(k) ==> s.closed[k].comm_hash == k,
    ensures
        ({
            let h = s.heartbeat(net, remote);
            &&& forall|i: int, j: int|
                0 <= i < j < h.closed.len() ==> (#[trigger] h.closed[i]).comm_hash < (
                #[trigger] h.closed[j]).comm_hash
            &&& forall|k: u64| #[trigger]
                s.closed.contains_key(k) ==> h.closed.contains(s.closed[k])
            &&& forall|i: int|
                0 <= i < h.closed.len() ==> s.closed.contains_key(
                    (#[trigger] h.closed[i]).comm_hash,
                ) && h.closed[i] == s.closed[h.closed[i].comm_hash]
        }),
{
    let h = s.heartbeat(net, remote);
    let keys = in_order(s.closed.dom());
    law_groups_are_listed_in_order(s.closed.dom());
    assert forall|i: int| 0 <= i < h.closed.len() implies s.closed.contains_key(
        (#[trigger] h.closed[i]).comm_hash,
    ) && h.closed[i].comm_hash == keys[i] by {
        assert(keys.contains(keys[i]));
        assert(s.closed.dom().contains(keys[i]));
        assert(s.closed.contains_key(keys[i]));
    }
    assert forall|k: u64| #[trigger] s.closed.contains_key(k) implies h.closed.contains(
        s.closed[k],
    ) by {
        assert(s.closed.dom().contains(k));
        assert(keys.contains(k));
        let i = choose|i: int| 0 <= i < keys.len() && keys[i] == k;
        assert(h.closed[i] == s.closed[k]);
    }
}

/// A heartbeat ends nothing but the news of closed communicators: open ones are
/// listed again, and counts go on.
pub proof fn law_heartbeats_can_be_repeated(s: SummaryView, hash: u64)
    ensures
        s.after_heartbeat().active == s.active,
        s.after_heartbeat().tallies == s.tallies,
        !s.after_heartbeat().closed.contains_key(hash),
{
}

} // verus!
