//! What events add to the operations that they belong to.
use crate::clock::Instant;
use crate::event::{
    samples, EventStep, KernelEventStep, NcclOpView, OpInfo, PendingProgress, ProxyOpExtra,
    ProxyOpInfo, ProxyOpView, StepProgress, StepProgressStage,
};
use crate::nccl_metadata::{Algo, CollOpType, NcclOpKey, OpDescr, OpKind, P2pDescr};
use vstd::prelude::*;

verus! {

// ------------------------------------------------------------------ operations

/// A child event moves the first child start of an operation back and its end
/// forward, never the other way, and never further than the event reaches.
/// Nothing else of the operation changes.
pub proof fn law_child_events_widen_an_operation(op: OpInfo, start: Instant, end: Option<Instant>)
    ensures
        ({
            let o = op.touched(start, end);
            &&& o.child_start_time matches Some(s) && s <= start && (op.child_start_time matches Some(
                t,
            ) ==> s <= t) && (s == start || op.child_start_time == Some(s))
            &&& end is None ==> o.end_time == op.end_time
            &&& end matches Some(e) ==> (o.end_time matches Some(x) && x >= e && (
            op.end_time matches Some(t) ==> x >= t) && (x == e || op.end_time == Some(x)))
            &&& o.start_time == op.start_time
            &&& (OpInfo {
                child_start_time: op.child_start_time,
                end_time: op.end_time,
                ..o
            }) == op
        }),
{
}

/// The order of two child events makes no difference.
pub proof fn law_child_events_commute(
    op: NcclOpView,
    a: Instant,
    b: Option<Instant>,
    c: Instant,
    d: Option<Instant>,
)
    ensures
        op.touched(a, b).touched(c, d) == op.touched(c, d).touched(a, b),
        op.touched(a, b).proxyops == op.proxyops,
        op.touched(a, b).kernel_steps == op.kernel_steps,
{
}

/// What is attached to an operation goes behind what was attached before, and
/// leaves the operation itself alone.
pub proof fn law_attachments_are_kept_in_order(
    op: NcclOpView,
    ps: Seq<ProxyOpView>,
    step: KernelEventStep,
)
    ensures
        op.with_proxyops(ps).info == op.info,
        op.with_proxyops(ps).kernel_steps == op.kernel_steps,
        op.with_proxyops(ps).proxyops == op.proxyops + ps,
        op.with_kernel_step(step).info == op.info,
        op.with_kernel_step(step).proxyops == op.proxyops,
        op.with_kernel_step(step).kernel_steps == op.kernel_steps.push(step),
        op.ungrouped().info.parent_group_id is None,
        op.ungrouped().proxyops == op.proxyops,
        op.ungrouped().kernel_steps == op.kernel_steps,
        (OpInfo { parent_group_id: op.info.parent_group_id, ..op.ungrouped().info }) == op.info,
{
}

/// An operation ran on the device from its first child event to its end, where
/// both are known.
pub proof fn law_time_on_the_device(op: OpInfo)
    ensures
        op.child_start_time is None || op.end_time is None <==> op.spec_child_duration() is None,
        (op.child_start_time matches Some(s) && op.end_time matches Some(e) && s <= e)
            ==> op.spec_child_duration() == Some((op.end_time->0 - op.child_start_time->0) as u128),
{
}

/// Two operations are counted together where they run on the same communicator
/// and rank and are collectives of one type, or transfers in the same direction
/// with the same peer.
pub proof fn law_like_operations_share_a_key(a: OpInfo, b: OpInfo)
    ensures
        a.spec_op_key() == b.spec_op_key() <==> a.comm_hash == b.comm_hash && a.rank == b.rank && (
        match (a.descr, b.descr) {
            (OpDescr::Coll(c), OpDescr::Coll(d)) => c.op_type == d.op_type,
            (OpDescr::P2p(c), OpDescr::P2p(d)) => c.is_send == d.is_send && c.peer == d.peer,
            _ => false,
        }),
        a.spec_op_key().comm_hash == a.comm_hash,
        a.spec_op_key().local_rank == a.rank,
        a.descr matches OpDescr::Coll(c) ==> a.spec_op_key().kind == OpKind::Coll(c.op_type),
        a.descr matches OpDescr::P2p(d) ==> a.spec_op_key().kind == OpKind::P2p(d),
        a.spec_is_p2p() <==> a.descr is P2p,
{
}

/// A connection is known by its communicator and by the ranks at its two ends.
pub proof fn law_connections_have_keys(a: ProxyOpInfo, b: ProxyOpInfo, x: u64, y: u64)
    ensures
        a.spec_op_key(x) == b.spec_op_key(y) <==> x == y && a.rank == b.rank && a.peer == b.peer,
        a.spec_op_key(x) == (NcclOpKey {
            comm_hash: x,
            local_rank: a.rank,
            kind: OpKind::Net(a.peer),
        }),
{
}

/// What operations and algorithms are called.
pub proof fn law_names(d: P2pDescr, t: CollOpType, a: Algo)
    ensures
        d.is_send ==> d.spec_name() == "send",
        !d.is_send ==> d.spec_name() == "recv",
        t is AllGather ==> t.spec_name() == "ncclAllGather",
        t is AllReduce ==> t.spec_name() == "ncclAllReduce",
        t is Broadcast ==> t.spec_name() == "ncclBroadcast",
        t is Reduce ==> t.spec_name() == "ncclReduce",
        t is ReduceScatter ==> t.spec_name() == "ncclReduceScatter",
        t is Unknown ==> t.spec_name() == "unknown",
        a is Tree ==> a.spec_name() == "Tree",
        a is Ring ==> a.spec_name() == "Ring",
        a is CollNetDirect ==> a.spec_name() == "CollNetDirect",
        a is CollNetChain ==> a.spec_name() == "CollNetChain",
        a is Nvls ==> a.spec_name() == "NVLS",
        a is NvlsTree ==> a.spec_name() == "NVLSTree",
        a is Pat ==> a.spec_name() == "PAT",
        a is Unknown ==> a.spec_name() == "unknown",
{
}

// --------------------------------------------------------------------- markers

/// A marker says what was reported, and to which operation it belongs: when
/// that started, where it runs, its number and name, and its group.
pub proof fn law_markers_name_their_operation(op: OpInfo, p: PendingProgress)
    ensures
        ({
            let m = StepProgress::of_parent(op, p);
            &&& m.source == p.source && m.stage == p.stage && m.observed_at == p.observed_at
            &&& m.is_send == p.is_send && m.peer == p.peer && m.channel_id == p.channel_id
            &&& m.step == p.step && m.size == p.size
            &&& m.parent_start == op.start_time
            &&& m.rank == op.rank && m.comm_hash == op.comm_hash
            &&& m.parent_group_id == op.parent_group_id
            &&& op.descr matches OpDescr::Coll(c) ==> m.seq_num == c.seq_num as i64
                && m.parent_name == c.op_type.spec_name()
            &&& op.descr matches OpDescr::P2p(d) ==> m.seq_num == 0 && m.parent_name
                == d.spec_name()
        }),
{
}

/// The record that closes a marker differs from it in its stage and time alone.
pub proof fn law_markers_are_closed_as_they_were_opened(m: StepProgress, t: Instant)
    ensures
        m.closed_at(t).stage == StepProgressStage::Complete,
        m.closed_at(t).observed_at == t,
        (StepProgress { stage: m.stage, observed_at: m.observed_at, ..m.closed_at(t) }) == m,
{
}

// ----------------------------------------------------------------------- steps

/// A proxy operation starts no later than any of its steps, at the time of one of
/// them or when it was taken up, and ends with the step that came last. Step
/// times count from the start of the profiler.
pub proof fn law_proxy_operations_span_their_steps(
    op: ProxyOpView,
    steps: Seq<EventStep>,
    init: Instant,
)
    requires
        forall|i: int|
            0 <= i < steps.len() ==> init + (#[trigger] steps[i]).start_time + steps[i].dur_ns
                <= u128::MAX,
    ensures
        ({
            let o = op.with_steps(steps, init);
            &&& o.core.start_time <= op.core.start_time
            &&& forall|i: int|
                0 <= i < steps.len() ==> o.core.start_time <= init + (
                #[trigger] steps[i]).start_time
            &&& o.core.start_time == op.core.start_time || exists|i: int|
                0 <= i < steps.len() && o.core.start_time == init + (#[trigger] steps[i]).start_time
            &&& steps.len() == 0 ==> o.core.end_time == op.core.end_time
            &&& steps.len() > 0 ==> o.core.end_time == Some(
                (init + steps.last().start_time + steps.last().dur_ns) as u128,
            )
            &&& o.core.info == op.core.info
            &&& o.core.extra == op.core.extra
            &&& o.core.aggregate_steps == op.core.aggregate_steps
            &&& o.histograms == op.histograms
        }),
    decreases steps.len(),
{
    if steps.len() > 0 {
        let front = steps.drop_last();
        assert forall|i: int| 0 <= i < front.len() implies init + (#[trigger] front[i]).start_time
            + front[i].dur_ns <= u128::MAX by {
            assert(front[i] == steps[i]);
        }
        law_proxy_operations_span_their_steps(op, front, init);
        let last = steps[steps.len() - 1];
        assert(last == steps.last());
        assert(init + last.start_time + last.dur_ns <= u128::MAX);
        let o0 = op.with_steps(front, init);
        let o = op.with_steps(steps, init);
        assert forall|i: int| 0 <= i < steps.len() implies o.core.start_time <= init + (
        #[trigger] steps[i]).start_time by {
            if i < front.len() {
                assert(front[i] == steps[i]);
            }
        }
        if o.core.start_time == o0.core.start_time {
            if o0.core.start_time != op.core.start_time {
                let i = choose|i: int|
                    0 <= i < front.len() && o0.core.start_time == init + (
                    #[trigger] front[i]).start_time;
                assert(steps[i] == front[i]);
            }
        } else {
            assert(o.core.start_time == init + steps[steps.len() - 1].start_time);
        }
    }
}

/// Additional facts are noted, and say nothing of when an operation ran. The
/// latest ones stay. An operation without a step ends now.
pub proof fn law_extra_facts_are_noted(op: ProxyOpView, extra: ProxyOpExtra, now: Instant)
    ensures
        op.with_extra(Some(extra)).core.extra == Some(extra),
        op.with_extra(None) == op,
        op.with_extra(Some(extra)).core.start_time == op.core.start_time,
        op.with_extra(Some(extra)).core.end_time == op.core.end_time,
        op.with_extra(Some(extra)).core.info == op.core.info,
        op.with_extra(Some(extra)).steps == op.steps,
        op.with_extra(Some(extra)).histograms == op.histograms,
        op.core.end_time is None ==> op.end_or(now) == now,
        op.core.end_time matches Some(t) ==> op.end_or(now) == t,
{
}

/// There are as many samples as steps for each histogram.
pub proof fn law_samples_are_counted(handles: Seq<u64>, steps: Seq<EventStep>)
    ensures
        samples(handles, steps).len() == handles.len() * steps.len(),
    decreases steps.len(),
{
    let k = handles.len() as int;
    let n = steps.len() as int;
    if n == 0 {
        assert(k * n == 0) by (nonlinear_arith)
            requires
                n == 0,
        ;
    } else {
        law_samples_are_counted(handles, steps.drop_last());
        assert(k * n == k * (n - 1) + k) by (nonlinear_arith);
    }
}

/// Every histogram gets every step, oldest step first, and for each step the
/// histograms in turn.
pub proof fn law_histograms_get_every_step(
    handles: Seq<u64>,
    steps: Seq<EventStep>,
    i: int,
    j: int,
)
    requires
        0 <= i < steps.len(),
        0 <= j < handles.len(),
    ensures
        0 <= handles.len() * i + j < samples(handles, steps).len(),
        samples(handles, steps)[handles.len() * i + j] == (handles[j], steps[i]),
    decreases steps.len(),
{
    let k = handles.len() as int;
    let front = steps.drop_last();
    let n = front.len() as int;
    law_samples_are_counted(handles, steps);
    law_samples_are_counted(handles, front);
    assert(k * (n + 1) == k * n + k) by (nonlinear_arith);
    if i < n {
        law_histograms_get_every_step(handles, front, i, j);
    }
}

/// Steps go to histograms only where they are aggregated and their histograms
/// are known. Without aggregation none wait for any.
pub proof fn law_only_aggregated_steps_are_sampled(
    op: ProxyOpView,
    steps: Seq<EventStep>,
    init: Instant,
)
    ensures
        !op.core.aggregate_steps ==> op.samples_of(steps).len() == 0,
        op.histograms is None ==> op.samples_of(steps).len() == 0,
        op.core.aggregate_steps && op.histograms is Some ==> op.samples_of(steps) == samples(
            op.histograms->0,
            steps,
        ),
        !op.core.aggregate_steps ==> op.with_steps(steps, init).unsampled == op.unsampled,
    decreases steps.len(),
{
    if steps.len() > 0 {
        law_only_aggregated_steps_are_sampled(op, steps.drop_last(), init);
        lemma_flags_stay(op, steps.drop_last(), init);
    }
}

proof fn lemma_flags_stay(op: ProxyOpView, steps: Seq<EventStep>, init: Instant)
    ensures
        op.with_steps(steps, init).core.aggregate_steps == op.core.aggregate_steps,
        op.with_steps(steps, init).core.track_steps == op.core.track_steps,
    decreases steps.len(),
{
    if steps.len() > 0 {
        lemma_flags_stay(op, steps.drop_last(), init);
    }
}

} // verus!
