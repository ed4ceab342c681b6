//! What each message of a thread, and each message of another daemon, comes to.
use crate::clock::{Duration, Instant};
use crate::daemon::{
    ControlView, InterProcessMessage, Message, MessageView, TelemetryView, ThreadView, WaitingView,
};
use crate::event::{
    samples, EventStep, Group, KernelEventStep, NcclOpView, OpInfo, PendingProgress, ProxyOpExtra,
    ProxyOpInfo, ProxyOpView, Sample, StepProgress,
};
use crate::event_laws::law_proxy_operations_span_their_steps;
use crate::nccl_metadata::{NcclOpKey, OpKind};
use crate::polling_laws::law_tracked_steps_are_kept;
use crate::polling_model::{
    histograms_set, ipc_handled, ipc_key, message_handled, message_key, proxyop_added, CtxView,
};
use crate::polling_pass::expired_among;
use crate::profiler::{CommMembership, Communicator, Profiler};
use crate::views::seq_at;
use vstd::prelude::*;

verus! {

/// The earlier of what was known before, if anything was, and `t` is known now.
pub open spec fn reaches_back(before: Option<Instant>, after: Option<Instant>, t: Instant) -> bool {
    after matches Some(s) && s <= t && (before matches Some(b) ==> s <= b) && (s == t || before
        == after)
}

/// The later of what was known before, if anything was, and `t` is known now.
pub open spec fn reaches_on(before: Option<Instant>, after: Option<Instant>, t: Instant) -> bool {
    after matches Some(e) && e >= t && (before matches Some(b) ==> e >= b) && (e == t || before
        == after)
}

/// Of two states of an operation: whether they differ in no more than what is
/// known of its children and its end.
pub open spec fn is_same_operation(a: OpInfo, b: OpInfo) -> bool {
    a == (OpInfo { child_start_time: a.child_start_time, end_time: a.end_time, ..b })
}

// ------------------------------------------------------------------ operations

/// An operation that is announced is in flight as it was announced, and is told
/// at once as issued, before anything else that is told of it.
pub proof fn law_announcements_are_told(
    c: CtxView,
    t: ThreadView,
    op: NcclOpView,
    p: Profiler,
    now: Instant,
    answer: Option<Seq<u64>>,
)
    requires
        !c.early_completions.contains_key(op.info.id),
        seq_at(c.early_progress, op.info.id).len() == 0,
    ensures
        ({
            let (d, u) = message_handled((c, t), MessageView::NcclOp(op), p, now, answer);
            &&& d.pending == c.pending.push(TelemetryView::NcclOpIssued(op))
            &&& d.ncclops == c.ncclops.insert(op.info.id, op)
            &&& d.completed == c.completed
            &&& d.active == c.active
            &&& d.ipc == c.ipc
            &&& u == t
        }),
{
}

/// The kernel of an operation in flight, which ran from `start` for `dur`, ends
/// it no earlier than that and tells its completion, with the span that it had
/// then. It is told last, after its open markers were closed at the end of the
/// kernel.
pub proof fn law_kernels_complete_operations(
    c: CtxView,
    t: ThreadView,
    start: Instant,
    dur: u64,
    id: usize,
    p: Profiler,
    now: Instant,
    answer: Option<Seq<u64>>,
)
    requires
        c.ncclops.contains_key(id),
        !c.completed.contains(id),
        start + dur <= u128::MAX,
    ensures
        ({
            let (d, u) = message_handled(
                (c, t),
                MessageView::KernelCh(start, dur, id),
                p,
                now,
                answer,
            );
            let (before, op) = (c.ncclops[id], d.ncclops[id]);
            let n = seq_at(c.active, id).len();
            &&& u == t
            &&& d.ncclops.contains_key(id)
            &&& reaches_on(before.info.end_time, op.info.end_time, (start + dur) as u128)
            &&& reaches_back(before.info.child_start_time, op.info.child_start_time, start)
            &&& is_same_operation(op.info, before.info)
            &&& op.proxyops == before.proxyops && op.kernel_steps == before.kernel_steps
            &&& d.completed.contains(id)
            &&& !d.active.contains_key(id)
            &&& d.pending.len() == c.pending.len() + n + 1
            &&& d.pending.last() == TelemetryView::NcclOpComplete(op)
            &&& forall|i: int|
                0 <= i < n ==> (
                #[trigger] d.pending[c.pending.len() + i] matches TelemetryView::StepProgress(m)
                    && m.stage is Complete && m.observed_at == start + dur && m.source == seq_at(
                    c.active,
                    id,
                )[i].source && m.peer == seq_at(c.active, id)[i].peer)
            &&& d.ncclops == c.ncclops.insert(id, op)
            &&& d.groups == c.groups && d.ipc == c.ipc && d.samples == c.samples
        }),
{
}

/// A completion that comes ahead of its operation is remembered; several are
/// remembered as the span that covers them all. Nothing is told of it yet.
pub proof fn law_early_completions_are_remembered(
    c: CtxView,
    start: Instant,
    end: Instant,
    id: usize,
)
    requires
        !c.ncclops.contains_key(id),
        !c.completed.contains(id),
    ensures
        ({
            let d = c.completed_op(id, start, end);
            let (s, e) = d.early_completions[id];
            &&& d.early_completions.contains_key(id)
            &&& s <= start && e >= end
            &&& !c.early_completions.contains_key(id) ==> s == start && e == end
            &&& c.early_completions.contains_key(id) ==> s <= c.early_completions[id].0 && e
                >= c.early_completions[id].1 && (s == start || s == c.early_completions[id].0) && (e
                == end || e == c.early_completions[id].1)
            &&& d.pending == c.pending
            &&& d.ncclops == c.ncclops
            &&& d.completed == c.completed
        }),
{
}

/// The first report of progress from a source and a peer opens a marker on an
/// operation in flight, and is told. Another one from there, one that ends a
/// step, and one of an operation that completed change nothing.
pub proof fn law_progress_opens_one_marker(
    c: CtxView,
    t: ThreadView,
    id: usize,
    q: PendingProgress,
    p: Profiler,
    now: Instant,
    answer: Option<Seq<u64>>,
)
    requires
        c.ncclops.contains_key(id),
    ensures
        ({
            let (d, u) = message_handled(
                (c, t),
                MessageView::StepProgress(id, q),
                p,
                now,
                answer,
            );
            let open = seq_at(c.active, id);
            let known = exists|i: int|
                0 <= i < open.len() && (#[trigger] open[i]).source == q.source && open[i].peer
                    == q.peer;
            let opens = q.stage is Posted && !c.completed.contains(id) && !known;
            let m = StepProgress::of_parent(c.ncclops[id].info, q);
            &&& u == t
            &&& !opens ==> d == c
            &&& opens ==> d.pending == c.pending.push(TelemetryView::StepProgress(m)) && seq_at(
                d.active,
                id,
            ) == open.push(m) && d.ncclops == c.ncclops && d.completed == c.completed
        }),
{
    let open = seq_at(c.active, id);
    let known = exists|i: int|
        0 <= i < open.len() && (#[trigger] open[i]).source == q.source && open[i].peer == q.peer;
    assert(known == c.has_marker(id, q.source, q.peer));
}

/// Progress of an operation that was not announced yet waits for it, once for
/// each source and peer, and is not told.
pub proof fn law_early_progress_waits(c: CtxView, id: usize, q: PendingProgress)
    requires
        !c.ncclops.contains_key(id),
        !c.active.contains_key(id),
        !c.completed.contains(id),
        q.stage is Posted,
    ensures
        ({
            let d = c.noted(id, q);
            let early = seq_at(c.early_progress, id);
            let known = exists|i: int|
                0 <= i < early.len() && (#[trigger] early[i]).source == q.source && early[i].peer
                    == q.peer;
            &&& known ==> d == c
            &&& !known ==> seq_at(d.early_progress, id) == early.push(q)
            &&& d.pending == c.pending
            &&& d.active == c.active
        }),
{
    let early = seq_at(c.early_progress, id);
    let known = exists|i: int|
        0 <= i < early.len() && (#[trigger] early[i]).source == q.source && early[i].peer == q.peer;
    assert(known == c.has_early(id, q.source, q.peer));
    assert(seq_at(c.active, id).len() == 0);
    assert(!c.has_marker(id, q.source, q.peer));
}

/// A kernel step is attached to its operation, and to no other.
pub proof fn law_kernel_steps_are_attached(
    c: CtxView,
    t: ThreadView,
    step: KernelEventStep,
    id: usize,
    p: Profiler,
    now: Instant,
    answer: Option<Seq<u64>>,
)
    ensures
        ({
            let (d, u) = message_handled((c, t), MessageView::KernelStep(step, id), p, now, answer);
            &&& u == t
            &&& d.pending == c.pending
            &&& !c.ncclops.contains_key(id) ==> d == c
            &&& c.ncclops.contains_key(id) ==> d.ncclops.dom() == c.ncclops.dom()
                && d.ncclops[id].kernel_steps == c.ncclops[id].kernel_steps.push(step)
                && d.ncclops[id].info == c.ncclops[id].info && d.ncclops[id].proxyops
                == c.ncclops[id].proxyops
            &&& forall|other: usize|
                other != id && #[trigger] c.ncclops.contains_key(other) ==> d.ncclops[other]
                    == c.ncclops[other]
        }),
{
    let d = message_handled((c, t), MessageView::KernelStep(step, id), p, now, answer).0;
    assert(d.ncclops.dom() =~= c.ncclops.dom());
}

/// Communicators are told of as they are opened, dumped and closed.
pub proof fn law_communicators_are_told(
    c: CtxView,
    t: ThreadView,
    comm: Communicator,
    dump: CommMembership,
    hash: u64,
    p: Profiler,
    now: Instant,
    answer: Option<Seq<u64>>,
)
    ensures
        message_handled((c, t), MessageView::CommOpen(comm), p, now, answer) == (
            CtxView { pending: c.pending.push(TelemetryView::CommOpen(comm)), ..c },
            t,
        ),
        message_handled((c, t), MessageView::CommInit(dump), p, now, answer) == (
            CtxView { pending: c.pending.push(TelemetryView::CommInit(dump)), ..c },
            t,
        ),
        message_handled((c, t), MessageView::CommClose(hash), p, now, answer) == (
            CtxView { pending: c.pending.push(TelemetryView::CommClose(hash)), ..c },
            t,
        ),
{
}

/// The end of a group is told where the settings ask for groups.
pub proof fn law_groups_are_told_where_asked_for(
    c: CtxView,
    t: ThreadView,
    g: Group,
    p: Profiler,
    now: Instant,
    answer: Option<Seq<u64>>,
)
    ensures
        ({
            let (d, u) = message_handled((c, t), MessageView::Group(g), p, now, answer);
            &&& u == t
            &&& p.config.track_group ==> d.pending.len() > 0 && d.pending.last()
                == TelemetryView::Group(g)
            &&& !p.config.track_group && c.group(g.id).children.len() == 0 ==> d.pending
                == c.pending
        }),
{
}

// ------------------------------------------------------------ proxy operations

/// A whole proxy operation of an operation in flight here moves the first child
/// start of that operation back to its start at the latest, and its end to its
/// own end at the earliest.
pub proof fn law_proxy_operations_move_their_operation(
    c: CtxView,
    t: ThreadView,
    start: Instant,
    dur: u64,
    info: ProxyOpInfo,
    p: Profiler,
    now: Instant,
    answer: Option<Seq<u64>>,
)
    requires
        info.parent matches Some(id) && c.ncclops.contains_key(id),
        info.pid == p.pid,
        start + dur <= u128::MAX,
    ensures
        ({
            let (d, u) = message_handled(
                (c, t),
                MessageView::ProxyOpLite(start, dur, info),
                p,
                now,
                answer,
            );
            let id = info.parent->0;
            let (before, after) = (c.ncclops[id].info, d.ncclops[id].info);
            &&& u == t
            &&& d.ncclops.contains_key(id)
            &&& reaches_back(before.child_start_time, after.child_start_time, start)
            &&& reaches_on(before.end_time, after.end_time, (start + dur) as u128)
            &&& is_same_operation(after, before)
            &&& d.ncclops == c.ncclops.insert(id, d.ncclops[id])
            &&& d.pending == c.pending
            &&& d.ipc == c.ipc
        }),
{
}

/// The process that owns the operation hears of a proxy operation that runs
/// here: where it started and who can be answered, and when it ended.
pub proof fn law_other_processes_are_told_of_their_proxy_operations(
    c: CtxView,
    t: ThreadView,
    start: Instant,
    dur: u64,
    info: ProxyOpInfo,
    p: Profiler,
    now: Instant,
    answer: Option<Seq<u64>>,
)
    requires
        info.parent is Some,
        info.pid != p.pid,
        start + dur <= u128::MAX,
    ensures
        ({
            let (d, u) = message_handled(
                (c, t),
                MessageView::ProxyOpLite(start, dur, info),
                p,
                now,
                answer,
            );
            let id = info.parent->0;
            &&& u == t
            &&& d.ncclops == c.ncclops
            &&& seq_at(d.ipc, info.pid) == seq_at(c.ipc, info.pid).push(
                InterProcessMessage::ProxyOpStart(id, p.pid, t.idx, info.id, start),
            ).push(InterProcessMessage::ProxyOpEnd(id, (start + dur) as u128))
            &&& forall|other: i32|
                other != info.pid ==> #[trigger] seq_at(d.ipc, other) == seq_at(c.ipc, other)
        }),
{
}

/// A proxy operation that ended is recorded where proxy operations or steps are
/// tracked: with the operation that it serves if that is in flight here, else in
/// a record of its own. Otherwise it is not.
pub proof fn law_ended_proxy_operations_are_recorded(
    c: CtxView,
    end: Instant,
    info: ProxyOpInfo,
    op: ProxyOpView,
    send_ipc: bool,
    record: bool,
    pid: i32,
)
    ensures
        ({
            let d = c.proxyop_ended(end, info, seq![op], send_ipc, record, pid);
            let id = info.parent->0;
            let own = info.parent is Some && info.pid == pid;
            &&& !record ==> d.pending == c.pending
            &&& record && !own ==> d.pending == c.pending.push(TelemetryView::ProxyOp(op))
            &&& own ==> d.pending == c.pending && d.ipc == c.ipc
            &&& own && c.ncclops.contains_key(id) ==> d.ncclops[id].proxyops == if record {
                c.ncclops[id].proxyops.push(op)
            } else {
                c.ncclops[id].proxyops
            }
            &&& own && c.ncclops.contains_key(id) ==> reaches_on(
                c.ncclops[id].info.end_time,
                d.ncclops[id].info.end_time,
                end,
            ) && reaches_back(
                c.ncclops[id].info.child_start_time,
                d.ncclops[id].info.child_start_time,
                end,
            ) && is_same_operation(d.ncclops[id].info, c.ncclops[id].info) && d.ncclops
                == c.ncclops.insert(id, d.ncclops[id])
            &&& own && !c.ncclops.contains_key(id) ==> d.ncclops == c.ncclops
            &&& !own ==> d.ncclops == c.ncclops
            &&& info.parent is Some && info.pid != pid && send_ipc ==> seq_at(d.ipc, info.pid)
                == seq_at(c.ipc, info.pid).push(InterProcessMessage::ProxyOpEnd(id, end))
            &&& !send_ipc ==> d.ipc == c.ipc
        }),
{
    let d = c.proxyop_ended(end, info, seq![op], send_ipc, record, pid);
    assert(Seq::new(1, |i: int| TelemetryView::ProxyOp(seq![op][i])) =~= seq![
        TelemetryView::ProxyOp(op),
    ]);
    assert(c.pending + seq![TelemetryView::ProxyOp(op)] =~= c.pending.push(
        TelemetryView::ProxyOp(op),
    ));
    if info.parent is Some && c.ncclops.contains_key(info.parent->0) {
        let o = c.ncclops[info.parent->0];
        assert(o.proxyops + seq![op] =~= o.proxyops.push(op));
    }
}

/// The first batch of steps takes a proxy operation up: it starts with the first
/// of them, keeps steps as the gates say now, and, if it serves an operation of
/// this process, is seen by it.
pub proof fn law_first_steps_take_an_operation_up(
    c: CtxView,
    t: ThreadView,
    info: ProxyOpInfo,
    steps: Seq<EventStep>,
    p: Profiler,
    now: Instant,
    answer: Option<Seq<u64>>,
)
    requires
        !t.proxyops.contains_key(info.id),
        steps.len() > 0,
        forall|i: int|
            0 <= i < steps.len() ==> p.time_base.init_instant + (#[trigger] steps[i]).start_time
                + steps[i].dur_ns <= u128::MAX,
    ensures
        ({
            let (d, u) = message_handled(
                (c, t),
                MessageView::StepBatch(info, steps, false),
                p,
                now,
                answer,
            );
            let init = p.time_base.init_instant;
            let op = u.proxyops[info.id];
            let first = (init + steps[0].start_time) as u128;
            &&& u.proxyops.contains_key(info.id)
            &&& op.core.info == info
            &&& op.core.extra is None
            &&& op.core.track_steps == p.gates@.track_steps
            &&& op.core.aggregate_steps == (info.parent is Some && p.gates@.aggregate_steps && (
            info.pid == p.pid || p.gates@.track_interprocess_proxyop))
            &&& op.core.start_time <= first
            &&& steps.len() == 1 ==> op.core.start_time == first
            &&& op.core.end_time == Some(
                (init + steps.last().start_time + steps.last().dur_ns) as u128,
            )
            &&& op.histograms == (if message_key(
                c,
                t,
                MessageView::StepBatch(info, steps, false),
                p,
            ) is Some {
                answer
            } else {
                None
            })
            &&& op.histograms is Some && op.core.aggregate_steps ==> d.samples == c.samples
                + samples(op.histograms->0, steps)
            &&& op.histograms is None || !op.core.aggregate_steps ==> d.samples == c.samples
            &&& u.waiting == t.waiting && u.aux == t.aux && u.idx == t.idx
            &&& d.pending == c.pending
            &&& info.parent is None ==> d.ncclops == c.ncclops && d.ipc == c.ipc
            &&& (info.parent is Some && info.pid == p.pid && c.ncclops.contains_key(info.parent->0))
                ==> {
                let (before, after) = (c.ncclops[info.parent->0], d.ncclops[info.parent->0]);
                &&& reaches_back(
                    before.info.child_start_time,
                    after.info.child_start_time,
                    first,
                )
                &&& after.info.end_time == before.info.end_time
                &&& is_same_operation(after.info, before.info)
                &&& after.proxyops == before.proxyops
                &&& d.ncclops == c.ncclops.insert(info.parent->0, after)
                &&& d.ipc == c.ipc
            }
            &&& (info.parent is Some && info.pid == p.pid && !c.ncclops.contains_key(
                info.parent->0,
            )) ==> d.ncclops == c.ncclops && d.ipc == c.ipc
            &&& (info.parent is Some && info.pid != p.pid) ==> d.ncclops == c.ncclops && seq_at(d.ipc, info.pid) == seq_at(
                c.ipc,
                info.pid,
            ).push(
                InterProcessMessage::ProxyOpStart(info.parent->0, p.pid, t.idx, info.id, first),
            )
        }),
{
    let init = p.time_base.init_instant;
    let first = (init + steps[0].start_time) as u128;
    assert(init + steps[0].start_time + steps[0].dur_ns <= u128::MAX);
    let added = proxyop_added((c, t), info, first, p, answer);
    let before = added.1.proxyops[info.id];
    law_proxy_operations_span_their_steps(before, steps, init);
    law_tracked_steps_are_kept(before, steps, init);
    assert(c.samples + Seq::<Sample>::empty() =~= c.samples);
}

/// Later batches find the operation that the first took up: no start is told
/// again.
pub proof fn law_later_steps_join_their_operation(
    c: CtxView,
    t: ThreadView,
    info: ProxyOpInfo,
    steps: Seq<EventStep>,
    p: Profiler,
    now: Instant,
    answer: Option<Seq<u64>>,
)
    requires
        t.proxyops.contains_key(info.id),
    ensures
        ({
            let (d, u) = message_handled(
                (c, t),
                MessageView::StepBatch(info, steps, false),
                p,
                now,
                answer,
            );
            &&& u.proxyops.dom() == t.proxyops.dom()
            &&& u.proxyops[info.id] == t.proxyops[info.id].with_steps(
                steps,
                p.time_base.init_instant,
            )
            &&& d.ncclops == c.ncclops && d.pending == c.pending && d.ipc == c.ipc
            &&& d.samples == c.samples + t.proxyops[info.id].samples_of(steps)
            &&& forall|other: u32|
                other != info.id && #[trigger] t.proxyops.contains_key(other) ==> u.proxyops[other]
                    == t.proxyops[other]
        }),
{
    let u = message_handled((c, t), MessageView::StepBatch(info, steps, false), p, now, answer).1;
    assert(u.proxyops.dom() =~= t.proxyops.dom());
}

/// The end of a proxy operation, told by its last steps or on its own: it is not
/// followed any more, and takes the additional facts along that came last.
/// Unless it has to wait, it ends with its last step, or now if it has none, and
/// is recorded as the gates say.
pub proof fn law_ends_of_proxy_operations(
    c: CtxView,
    t: ThreadView,
    id: u32,
    p: Profiler,
    now: Instant,
    answer: Option<Seq<u64>>,
)
    requires
        t.proxyops.contains_key(id),
    ensures
        ({
            let op = t.proxyops[id];
            let (d, u) = message_handled((c, t), MessageView::ProxyOp(id), p, now, answer);
            let waits = p.config.track_interprocess_proxyop && op.core.aggregate_steps
                && op.core.info.pid != p.pid && op.core.info.parent is Some
                && op.histograms is None;
            let end = match op.core.end_time {
                Some(e) => e,
                None => now,
            };
            let whole = if t.aux.len() > 0 {
                op.with_extra(Some(t.aux.last()))
            } else {
                op
            };
            &&& u.proxyops == t.proxyops.remove(id)
            &&& t.aux.len() > 0 ==> u.aux == t.aux.drop_last()
            &&& t.aux.len() == 0 ==> u.aux == t.aux
            &&& waits ==> u.waiting == t.waiting.insert(
                id,
                WaitingView { op: whole, since: now },
            ) && d.pending == c.pending && d.ncclops == c.ncclops && seq_at(
                d.ipc,
                op.core.info.pid,
            ) == seq_at(
                c.ipc,
                op.core.info.pid,
            ).push(InterProcessMessage::ProxyOpEnd(op.core.info.parent->0, end))
            &&& !waits ==> u.waiting == t.waiting && d == c.proxyop_ended(
                end,
                op.core.info,
                seq![whole],
                true,
                p.gates@.track_proxyop || p.gates@.track_steps,
                p.pid,
            )
        }),
{
    let op = t.proxyops[id];
    let waits = p.config.track_interprocess_proxyop && op.core.aggregate_steps && op.core.info.pid
        != p.pid && op.core.info.parent is Some && op.histograms is None;
    if waits {
        assert(c.pending + Seq::<TelemetryView>::empty() =~= c.pending);
        assert(Seq::new(0, |i: int| TelemetryView::ProxyOp(Seq::<ProxyOpView>::empty()[i]))
            =~= Seq::<TelemetryView>::empty());
    }
}

/// The last batch of steps ends an operation as its end on its own does, once
/// the steps were added.
pub proof fn law_last_steps_end_an_operation(
    c: CtxView,
    t: ThreadView,
    info: ProxyOpInfo,
    steps: Seq<EventStep>,
    p: Profiler,
    now: Instant,
    answer: Option<Seq<u64>>,
    none: Option<Seq<u64>>,
)
    requires
        t.proxyops.contains_key(info.id) ==> t.proxyops[info.id].core.info == info,
    ensures
        ({
            let (c1, t1) = message_handled(
                (c, t),
                MessageView::StepBatch(info, steps, false),
                p,
                now,
                answer,
            );
            let (c2, t2) = message_handled((c1, t1), MessageView::ProxyOp(info.id), p, now, none);
            message_handled((c, t), MessageView::StepBatch(info, steps, true), p, now, answer) == (
                c2,
                t2,
            )
        }),
{
    let init = p.time_base.init_instant;
    let known = if t.proxyops.contains_key(info.id) {
        (c, t)
    } else {
        proxyop_added((c, t), info, steps[0].start_at(init), p, answer)
    };
    let ops = known.1.proxyops;
    let op = ops[info.id].with_steps(steps, init);
    lemma_info_stays(ops[info.id], steps, init);
    assert(ops.insert(info.id, op).remove(info.id) =~= ops.remove(info.id));
}

proof fn lemma_info_stays(op: ProxyOpView, steps: Seq<EventStep>, init: Instant)
    ensures
        op.with_steps(steps, init).core.info == op.core.info,
    decreases steps.len(),
{
    if steps.len() > 0 {
        lemma_info_stays(op, steps.drop_last(), init);
    }
}

/// Additional facts wait for the next proxy operation that ends. Where that one
/// is not followed they are dropped.
pub proof fn law_extra_facts_wait_for_the_next_end(
    c: CtxView,
    t: ThreadView,
    extra: ProxyOpExtra,
    id: u32,
    p: Profiler,
    now: Instant,
    answer: Option<Seq<u64>>,
)
    ensures
        ({
            let (d, u) = message_handled(
                (c, t),
                MessageView::ProxyOpExtra(extra),
                p,
                now,
                answer,
            );
            &&& d == c
            &&& u.aux == t.aux.push(extra)
            &&& u.proxyops == t.proxyops && u.waiting == t.waiting && u.idx == t.idx
            &&& !t.proxyops.contains_key(id) ==> message_handled(
                (d, u),
                MessageView::ProxyOp(id),
                p,
                now,
                answer,
            ) == (c, t)
        }),
{
    assert(t.aux.push(extra).drop_last() =~= t.aux);
}

/// A new proxy operation asks for the histograms of its connection where its
/// steps are aggregated and its operation is in flight here. One that is
/// followed already asks for none, nor does any other message.
pub proof fn law_histograms_are_asked_for(
    c: CtxView,
    t: ThreadView,
    info: ProxyOpInfo,
    steps: Seq<EventStep>,
    last: bool,
    p: Profiler,
)
    ensures
        ({
            let key = message_key(c, t, MessageView::StepBatch(info, steps, last), p);
            let asks = !t.proxyops.contains_key(info.id) && info.pid == p.pid
                && p.gates@.aggregate_steps && (info.parent matches Some(id)
                && c.ncclops.contains_key(id));
            &&& !asks ==> key is None
            &&& asks ==> key == Some(
                NcclOpKey {
                    comm_hash: c.ncclops[info.parent->0].info.comm_hash,
                    local_rank: info.rank,
                    kind: OpKind::Net(info.peer),
                },
            )
        }),
{
}

// ------------------------------------------------- messages of other daemons

/// A proxy operation that another process runs for an operation in flight here
/// is seen by that operation, and the other process is told the communicator,
/// under the thread and the number that it gave. Of an operation that is not in
/// flight nothing is known, and nothing is said.
pub proof fn law_starts_elsewhere_are_answered(
    c: CtxView,
    ts: Seq<ControlView>,
    id: usize,
    pid: i32,
    idx: usize,
    proxyop: u32,
    time: Instant,
    p: Profiler,
    now: Instant,
    answer: Option<Seq<u64>>,
)
    ensures
        ({
            let m = InterProcessMessage::ProxyOpStart(id, pid, idx, proxyop, time);
            let (d, us) = ipc_handled(c, ts, m, p, now, answer);
            &&& us == ts
            &&& d.pending == c.pending
            &&& !c.ncclops.contains_key(id) ==> d == c
            &&& c.ncclops.contains_key(id) ==> seq_at(d.ipc, pid) == seq_at(c.ipc, pid).push(
                InterProcessMessage::ReplyProxyOpComm(
                    idx,
                    proxyop,
                    c.ncclops[id].info.comm_hash,
                ),
            ) && reaches_back(
                c.ncclops[id].info.child_start_time,
                d.ncclops[id].info.child_start_time,
                time,
            ) && d.ncclops[id].info.end_time == c.ncclops[id].info.end_time && is_same_operation(
                d.ncclops[id].info,
                c.ncclops[id].info,
            ) && d.ncclops == c.ncclops.insert(id, d.ncclops[id])
            &&& forall|other: i32|
                other != pid ==> #[trigger] seq_at(d.ipc, other) == seq_at(c.ipc, other)
        }),
{
}

/// The end of a proxy operation elsewhere moves the end of its operation here.
pub proof fn law_ends_elsewhere_are_noted(
    c: CtxView,
    ts: Seq<ControlView>,
    id: usize,
    time: Instant,
    p: Profiler,
    now: Instant,
    answer: Option<Seq<u64>>,
)
    ensures
        ({
            let (d, us) = ipc_handled(
                c,
                ts,
                InterProcessMessage::ProxyOpEnd(id, time),
                p,
                now,
                answer,
            );
            &&& us == ts
            &&& d.pending == c.pending
            &&& d.ipc == c.ipc
            &&& !c.ncclops.contains_key(id) ==> d == c
            &&& c.ncclops.contains_key(id) ==> reaches_on(
                c.ncclops[id].info.end_time,
                d.ncclops[id].info.end_time,
                time,
            ) && reaches_back(
                c.ncclops[id].info.child_start_time,
                d.ncclops[id].info.child_start_time,
                time,
            ) && is_same_operation(d.ncclops[id].info, c.ncclops[id].info) && d.ncclops
                == c.ncclops.insert(id, d.ncclops[id])
        }),
{
}

/// A reply with the communicator asks for the histograms of the connection, where
/// the proxy operation is there and has none.
pub proof fn law_replies_ask_for_histograms(
    ts: Seq<ControlView>,
    idx: usize,
    id: u32,
    comm: u64,
    p: Profiler,
    op: ProxyOpView,
)
    requires
        idx < ts.len(),
        ts[idx as int].state.proxyops.contains_key(id) || ts[idx as int].state.waiting.contains_key(
            id,
        ),
        ts[idx as int].state.proxyops.contains_key(id) ==> op == ts[idx as int].state.proxyops[id],
        !ts[idx as int].state.proxyops.contains_key(id) ==> op
            == ts[idx as int].state.waiting[id].op,
    ensures
        ({
            let key = ipc_key(ts, InterProcessMessage::ReplyProxyOpComm(idx, id, comm), p);
            &&& p.config.aggregate_steps && op.histograms is None ==> key == Some(
                NcclOpKey {
                    comm_hash: comm,
                    local_rank: op.core.info.rank,
                    kind: OpKind::Net(op.core.info.peer),
                },
            )
            &&& op.histograms is Some || !p.config.aggregate_steps ==> key is None
        }),
{
}

/// A reply lets a proxy operation go that ended and waited for it, with its
/// histograms if there are any, and leaves one that is still running to run on
/// with them. The steps that waited go to the histograms.
pub proof fn law_replies_let_proxy_operations_go(
    c: CtxView,
    ts: Seq<ControlView>,
    idx: usize,
    id: u32,
    comm: u64,
    p: Profiler,
    now: Instant,
    answer: Option<Seq<u64>>,
)
    requires
        idx < ts.len(),
        p.config.aggregate_steps,
        !ts[idx as int].state.proxyops.contains_key(id),
        ts[idx as int].state.waiting.contains_key(id),
    ensures
        ({
            let (d, us) = ipc_handled(
                c,
                ts,
                InterProcessMessage::ReplyProxyOpComm(idx, id, comm),
                p,
                now,
                answer,
            );
            let op = ts[idx as int].state.waiting[id].op;
            let set = if answer is Some && op.histograms is None {
                op.with_histograms(answer->0)
            } else {
                op
            };
            &&& us.len() == ts.len()
            &&& us[idx as int].state.waiting == ts[idx as int].state.waiting.remove(id)
            &&& us[idx as int].state.proxyops == ts[idx as int].state.proxyops
            &&& us[idx as int].ncclop == ts[idx as int].ncclop && us[idx as int].fifo
                == ts[idx as int].fifo
            &&& answer is Some && op.histograms is None ==> d.samples == c.samples
                + set.samples_of(op.unsampled)
            &&& answer is None ==> d.samples == c.samples
            &&& (op.core.info.pid != p.pid || op.core.info.parent is None) && (
            p.gates@.track_proxyop || p.gates@.track_steps) ==> d.pending == c.pending.push(
                TelemetryView::ProxyOp(set),
            )
            &&& !(p.gates@.track_proxyop || p.gates@.track_steps) ==> d.pending == c.pending
            &&& d.ipc == c.ipc
        }),
{
    let state = ts[idx as int].state;
    let op = state.waiting[id].op;
    let set = if answer is Some && op.histograms is None {
        op.with_histograms(answer->0)
    } else {
        op
    };
    let t = histograms_set(state, id, answer);
    assert(t.waiting.remove(id) =~= state.waiting.remove(id));
    assert(t.waiting[id].op == set);
    assert(Seq::new(1, |i: int| TelemetryView::ProxyOp(seq![set][i])) =~= seq![
        TelemetryView::ProxyOp(set),
    ]);
    assert(c.pending + seq![TelemetryView::ProxyOp(set)] =~= c.pending.push(
        TelemetryView::ProxyOp(set),
    ));
    assert(c.samples + Seq::<Sample>::empty() =~= c.samples);
}

/// A reply for a proxy operation that is still running gives it its histograms,
/// unless it has some.
pub proof fn law_replies_reach_running_operations(
    c: CtxView,
    ts: Seq<ControlView>,
    idx: usize,
    id: u32,
    comm: u64,
    p: Profiler,
    now: Instant,
    answer: Option<Seq<u64>>,
)
    requires
        idx < ts.len(),
        p.config.aggregate_steps,
        ts[idx as int].state.proxyops.contains_key(id),
        !ts[idx as int].state.waiting.contains_key(id),
    ensures
        ({
            let (d, us) = ipc_handled(
                c,
                ts,
                InterProcessMessage::ReplyProxyOpComm(idx, id, comm),
                p,
                now,
                answer,
            );
            let op = ts[idx as int].state.proxyops[id];
            &&& d.pending == c.pending && d.ncclops == c.ncclops
            &&& us[idx as int].state.waiting == ts[idx as int].state.waiting
            &&& op.histograms is Some || answer is None ==> us[idx as int].state.proxyops[id] == op
            &&& op.histograms is None && answer is Some ==> us[idx as int].state.proxyops[id]
                == op.with_histograms(answer->0)
        }),
{
}

/// Where steps are not aggregated a reply says nothing new.
pub proof fn law_replies_without_aggregation_are_ignored(
    c: CtxView,
    ts: Seq<ControlView>,
    idx: usize,
    id: u32,
    comm: u64,
    p: Profiler,
    now: Instant,
    answer: Option<Seq<u64>>,
)
    requires
        !p.config.aggregate_steps,
    ensures
        ipc_handled(
            c,
            ts,
            InterProcessMessage::ReplyProxyOpComm(idx, id, comm),
            p,
            now,
            answer,
        ) == (c, ts),
{
}

// -------------------------------------------------------------------- waiting

/// A proxy operation that waits for its communicator is let go where it waited
/// longer than the limit, and stays where it did not. Without a limit it goes.
pub proof fn law_waiting_ends_after_the_limit(
    c: CtxView,
    t: ThreadView,
    id: u32,
    limit: Option<Duration>,
    p: Profiler,
    now: Instant,
)
    requires
        t.waiting.contains_key(id),
    ensures
        ({
            let (d, u) = expired_among((c, t), seq![id], limit, p, now);
            let op = t.waiting[id].op;
            let goes = match limit {
                Some(most) => now - t.waiting[id].since > most,
                None => true,
            };
            &&& !goes ==> d == c && u == t
            &&& goes ==> u.waiting == t.waiting.remove(id) && u.proxyops == t.proxyops && u.aux
                == t.aux
            &&& goes && op.core.info.pid != p.pid && (p.gates@.track_proxyop
                || p.gates@.track_steps) ==> d.pending == c.pending.push(TelemetryView::ProxyOp(op))
            &&& !(p.gates@.track_proxyop || p.gates@.track_steps) ==> d.pending == c.pending
            &&& d.ipc == c.ipc
        }),
{
    let one = seq![id];
    let op = t.waiting[id].op;
    assert(one.drop_last() =~= Seq::<u32>::empty());
    assert(expired_among((c, t), one.drop_last(), limit, p, now) == (c, t));
    assert(Seq::new(1, |i: int| TelemetryView::ProxyOp(seq![op][i])) =~= seq![
        TelemetryView::ProxyOp(op),
    ]);
    assert(c.pending + seq![TelemetryView::ProxyOp(op)] =~= c.pending.push(
        TelemetryView::ProxyOp(op),
    ));
}

// -------------------------------------------------------------- what was said

/// A report of progress says of which operation it is, and keeps what its
/// callback said.
pub proof fn law_progress_is_read_as_it_came(parent: usize, q: PendingProgress)
    ensures
        (Message::StepProgress {
            source: q.source,
            stage: q.stage,
            observed_at: q.observed_at,
            parent,
            is_send: q.is_send,
            peer: q.peer,
            channel_id: q.channel_id,
            step: q.step,
            size: q.size,
        })@ == MessageView::StepProgress(parent, q),
{
}

} // verus!
