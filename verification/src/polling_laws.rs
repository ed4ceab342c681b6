//! What holds of the polling daemon in every state and across its steps.
use crate::clock::{instant_after, Duration, Instant};
use crate::daemon::{
    ControlView, FifoView, InterProcessMessage, Message, MessageView, TelemetryView, ThreadView,
};
use crate::event::{
    samples, EventStep, NcclOpView, OpInfo, PendingProgress, ProxyOpInfo, ProxyOpView,
    StepProgress,
};
use crate::key_order::{in_order, lemma_distinct, lemma_listing_exists, lists_in_order};
use crate::polling_model::{
    batch_handled, closings, histograms_set, ipc_handled, message_handled, popped_extra,
    proxyop_added, proxyop_closed, records_proxyops, CtxView, Pair, ReclaimAction, ReclaimPolicy,
};
use crate::polling_pass::{
    aged_policy, events_wait, expired_among, ipc_all_handled, messages_handled, pass_received,
    passed, rest_received, taken, threads_expired, threads_passed, Answers, Queue, FIFO_RECV_BATCH,
};
use crate::profiler::Profiler;
use crate::views::seq_at;
use vstd::prelude::*;

verus! {

/// Whether no two of `ms` have the same source and peer.
pub open spec fn distinct_markers(ms: Seq<StepProgress>) -> bool {
    forall|i: int, j: int|
        0 <= i < j < ms.len() ==> (#[trigger] ms[i]).source != (#[trigger] ms[j]).source
            || ms[i].peer != ms[j].peer
}

/// Whether no two of `ps` have the same source and peer, and none reports the
/// end of a step.
pub open spec fn distinct_early(ps: Seq<PendingProgress>) -> bool {
    &&& forall|i: int, j: int|
        0 <= i < j < ps.len() ==> (#[trigger] ps[i]).source != (#[trigger] ps[j]).source
            || ps[i].peer != ps[j].peer
    &&& forall|i: int| 0 <= i < ps.len() ==> (#[trigger] ps[i]).stage !is Complete
}

impl CtxView {
    /// Whether the markers are in order: an operation that completed has none
    /// open, and no marker stands twice.
    pub open spec fn markers_wf(self) -> bool {
        &&& forall|id: usize| #[trigger]
            self.completed.contains(id) ==> !self.active.contains_key(id)
        &&& forall|id: usize| #[trigger]
            self.active.contains_key(id) ==> distinct_markers(self.active[id])
        &&& forall|id: usize| #[trigger]
            self.early_progress.contains_key(id) ==> distinct_early(self.early_progress[id])
    }

    /// What holds of the context at all times: operations stand under their
    /// ids, the markers are in order and belong to operations in flight, and
    /// nothing is kept for the announcement of an operation that was announced
    /// or completed.
    pub open spec fn wf(self) -> bool {
        &&& self.markers_wf()
        &&& forall|id: usize| #[trigger]
            self.ncclops.contains_key(id) ==> self.ncclops[id].info.id == id
        &&& forall|id: usize| #[trigger]
            self.active.contains_key(id) ==> self.ncclops.contains_key(id)
        &&& forall|id: usize| #[trigger]
            self.early_completions.contains_key(id) ==> !self.ncclops.contains_key(id)
                && !self.completed.contains(id)
        &&& forall|id: usize| #[trigger]
            self.early_progress.contains_key(id) ==> !self.ncclops.contains_key(id)
    }
}

/// A new context is in order.
pub proof fn law_fresh_context_is_wf()
    ensures
        CtxView::fresh().wf(),
{
}

proof fn lemma_noted_markers(c: CtxView, parent: usize, p: PendingProgress)
    requires
        c.markers_wf(),
    ensures
        c.noted(parent, p).markers_wf(),
{
    let d = c.noted(parent, p);
    let ms = seq_at(c.active, parent);
    let es = seq_at(c.early_progress, parent);
    assert(distinct_markers(ms));
    assert(distinct_early(es));
    if d != c {
        if c.ncclops.contains_key(parent) {
            let marker = StepProgress::of_parent(c.ncclops[parent].info, p);
            assert(distinct_markers(ms.push(marker))) by {
                assert forall|i: int| 0 <= i < ms.len() implies (#[trigger] ms[i]).source
                    != p.source || ms[i].peer != p.peer by {
                    assert(!c.has_marker(parent, p.source, p.peer));
                }
            }
        } else {
            assert(distinct_early(es.push(p)));
        }
    }
}

/// What replaying progress of an operation in flight changes.
proof fn lemma_replayed(c: CtxView, parent: usize, ps: Seq<PendingProgress>)
    requires
        c.ncclops.contains_key(parent),
    ensures
        ({
            let d = c.noted_all(parent, ps);
            &&& d == (CtxView { pending: d.pending, active: d.active, ..c })
            &&& c.markers_wf() ==> d.markers_wf()
            &&& c.pending.is_prefix_of(d.pending)
            &&& c.completed.contains(parent) ==> d == c
            &&& forall|id: usize| #[trigger]
                d.active.contains_key(id) ==> c.active.contains_key(id) || id == parent
        }),
    decreases ps.len(),
{
    if ps.len() > 0 {
        let d = c.noted_all(parent, ps.drop_last());
        lemma_replayed(c, parent, ps.drop_last());
        if c.markers_wf() {
            lemma_noted_markers(d, parent, ps.last());
        }
        assert(d.noted(parent, ps.last()) =~= (CtxView {
            pending: d.noted(parent, ps.last()).pending,
            active: d.noted(parent, ps.last()).active,
            ..c
        }));
    }
}

pub proof fn lemma_prefix(a: Seq<TelemetryView>, b: Seq<TelemetryView>, c: Seq<TelemetryView>)
    requires
        a.is_prefix_of(b),
        b.is_prefix_of(c),
    ensures
        a.is_prefix_of(c),
{
    assert(forall|i: int| 0 <= i < a.len() ==> a[i] == b[i]);
    assert(forall|i: int| 0 <= i < b.len() ==> b[i] == c[i]);
}

proof fn lemma_announced_wf(c: CtxView, op: NcclOpView)
    requires
        c.wf(),
    ensures
        c.announced(op).wf(),
        c.pending.is_prefix_of(c.announced(op).pending),
{
    let id = op.info.id;
    let listed = CtxView {
        ncclops: c.ncclops.insert(id, op),
        early_progress: c.early_progress.remove(id),
        ..c.counted(op.info)
    }.reported(TelemetryView::NcclOpIssued(op));
    let ps = seq_at(c.early_progress, id);
    lemma_replayed(listed, id, ps);
    lemma_prefix(c.pending, listed.pending, listed.noted_all(id, ps).pending);
    lemma_prefix(c.pending, listed.noted_all(id, ps).pending, c.announced(op).pending);
}

/// Whether `d` differs from `c` in no more than its records, its groups, its
/// messages for other daemons and facts about the operations in flight.
pub open spec fn same_progress(c: CtxView, d: CtxView) -> bool {
    &&& d.ncclops.dom() == c.ncclops.dom()
    &&& forall|id: usize| #[trigger]
        d.ncclops.contains_key(id) ==> d.ncclops[id].info.id == c.ncclops[id].info.id
    &&& d.active == c.active
    &&& d.early_completions == c.early_completions
    &&& d.early_progress == c.early_progress
    &&& d.completed == c.completed
    &&& c.pending.is_prefix_of(d.pending)
}

/// Whether `d` holds the operations of `c`, in flight and in their groups, and
/// has nothing more to report of them.
pub open spec fn same_reports(c: CtxView, d: CtxView) -> bool {
    &&& d.ncclops.dom() == c.ncclops.dom()
    &&& forall|id: usize| #[trigger]
        d.ncclops.contains_key(id) ==> same_op(d.ncclops[id].info, c.ncclops[id].info)
    &&& d.groups == c.groups
    &&& c.pending.is_prefix_of(d.pending)
    &&& forall|i: int|
        c.pending.len() <= i < d.pending.len() ==> (#[trigger] d.pending[i]) !is NcclOp
            && d.pending[i] !is P2pParent
}

/// Whether `a` and `b` are the same operation, whatever it has seen so far.
pub open spec fn same_op(a: OpInfo, b: OpInfo) -> bool {
    a.id == b.id && a.descr == b.descr && a.parent_group_id == b.parent_group_id
}

pub proof fn lemma_same_wf(c: CtxView, d: CtxView)
    requires
        c.wf(),
        same_progress(c, d),
    ensures
        d.wf(),
{
    assert(forall|id: usize|
        d.ncclops.contains_key(id) == d.ncclops.dom().contains(id) && c.ncclops.contains_key(id)
            == c.ncclops.dom().contains(id));
}

proof fn lemma_started_same(c: CtxView, idx: usize, info: ProxyOpInfo, time: Instant, pid: i32)
    ensures
        same_progress(c, c.proxyop_started(idx, info, time, pid)),
        same_reports(c, c.proxyop_started(idx, info, time, pid)),
{
    let d = c.proxyop_started(idx, info, time, pid);
    assert(d.ncclops.dom() =~= c.ncclops.dom());
}

proof fn lemma_ended_same(
    c: CtxView,
    end: Instant,
    info: ProxyOpInfo,
    ops: Seq<ProxyOpView>,
    send_ipc: bool,
    record: bool,
    pid: i32,
)
    ensures
        same_progress(c, c.proxyop_ended(end, info, ops, send_ipc, record, pid)),
        same_reports(c, c.proxyop_ended(end, info, ops, send_ipc, record, pid)),
{
    let d = c.proxyop_ended(end, info, ops, send_ipc, record, pid);
    assert(d.ncclops.dom() =~= c.ncclops.dom());
}

proof fn lemma_closed_same(
    s: Pair,
    id: u32,
    info: ProxyOpInfo,
    op: ProxyOpView,
    p: Profiler,
    now: Instant,
)
    ensures
        same_progress(s.0, proxyop_closed(s, id, info, op, p, now).0),
        same_reports(s.0, proxyop_closed(s, id, info, op, p, now).0),
{
    let (extra, aux) = popped_extra(s.1.aux);
    let whole = op.with_extra(extra);
    lemma_ended_same(
        s.0,
        whole.end_or(now),
        info,
        Seq::empty(),
        true,
        records_proxyops(p),
        p.pid,
    );
    lemma_ended_same(
        s.0,
        whole.end_or(now),
        info,
        seq![whole],
        true,
        records_proxyops(p),
        p.pid,
    );
}

proof fn lemma_batch_same(
    s: Pair,
    info: ProxyOpInfo,
    steps: Seq<EventStep>,
    is_last: bool,
    p: Profiler,
    now: Instant,
    answer: Option<Seq<u64>>,
)
    ensures
        same_progress(s.0, batch_handled(s, info, steps, is_last, p, now, answer).0),
        same_reports(s.0, batch_handled(s, info, steps, is_last, p, now, answer).0),
{
    let init = p.spec_init_instant();
    let known = if s.1.proxyops.contains_key(info.id) {
        s
    } else {
        proxyop_added(s, info, steps[0].start_at(init), p, answer)
    };
    lemma_started_same(s.0, s.1.idx, info, steps[0].start_at(init), p.pid);
    assert(same_progress(s.0, known.0));
    let op = known.1.proxyops[info.id].with_steps(steps, init);
    if is_last {
        lemma_closed_same(
            (known.0, ThreadView { proxyops: known.1.proxyops.remove(info.id), ..known.1 }),
            info.id,
            info,
            op,
            p,
            now,
        );
        lemma_same_reports_is_transitive(
            s.0,
            known.0,
            batch_handled(s, info, steps, is_last, p, now, answer).0,
        );
    }
}

/// Messages other than announcements, progress and completions leave the
/// progress of all operations alone.
pub proof fn lemma_others_same(
    s: Pair,
    m: MessageView,
    p: Profiler,
    now: Instant,
    answer: Option<Seq<u64>>,
)
    requires
        m !is NcclOp,
        m !is StepProgress,
        m !is KernelCh,
    ensures
        same_progress(s.0, message_handled(s, m, p, now, answer).0),
        m !is Group ==> same_reports(s.0, message_handled(s, m, p, now, answer).0),
{
    match m {
        MessageView::ProxyOpLite(start, dur, info) => {
            let c = s.0.proxyop_started(s.1.idx, info, start, p.pid);
            lemma_started_same(s.0, s.1.idx, info, start, p.pid);
            lemma_ended_same(
                c,
                instant_after(start, dur),
                info,
                Seq::empty(),
                true,
                records_proxyops(p),
                p.pid,
            );
            lemma_same_reports_is_transitive(
                s.0,
                c,
                message_handled(s, m, p, now, answer).0,
            );
        },
        MessageView::ProxyOp(id) => if s.1.proxyops.contains_key(id) {
            lemma_closed_same(
                (s.0, ThreadView { proxyops: s.1.proxyops.remove(id), ..s.1 }),
                id,
                s.1.proxyops[id].core.info,
                s.1.proxyops[id],
                p,
                now,
            );
        },
        MessageView::StepBatch(info, steps, is_last) => lemma_batch_same(
            s,
            info,
            steps,
            is_last,
            p,
            now,
            answer,
        ),
        MessageView::KernelStep(step, parent) => {
            assert(message_handled(s, m, p, now, answer).0.ncclops.dom() =~= s.0.ncclops.dom());
        },
        _ => {},
    }
}

proof fn lemma_completed_wf(c: CtxView, parent: usize, start: Instant, end: Instant)
    requires
        c.wf(),
    ensures
        c.completed_op(parent, start, end).wf(),
        c.pending.is_prefix_of(c.completed_op(parent, start, end).pending),
{
}

proof fn lemma_noted_wf(c: CtxView, parent: usize, p: PendingProgress)
    requires
        c.wf(),
    ensures
        c.noted(parent, p).wf(),
        c.pending.is_prefix_of(c.noted(parent, p).pending),
{
    lemma_noted_markers(c, parent, p);
}

/// Every message leaves the context in order, and every record that waits for
/// the exporter where it is.
pub proof fn law_messages_keep_context_wf(
    s: Pair,
    m: MessageView,
    p: Profiler,
    now: Instant,
    answer: Option<Seq<u64>>,
)
    requires
        s.0.wf(),
    ensures
        message_handled(s, m, p, now, answer).0.wf(),
        s.0.pending.is_prefix_of(message_handled(s, m, p, now, answer).0.pending),
{
    match m {
        MessageView::NcclOp(op) => lemma_announced_wf(s.0, op),
        MessageView::StepProgress(parent, progress) => lemma_noted_wf(s.0, parent, progress),
        MessageView::KernelCh(start, dur, parent) => lemma_completed_wf(
            s.0,
            parent,
            start,
            instant_after(start, dur),
        ),
        _ => {
            lemma_others_same(s, m, p, now, answer);
            lemma_same_wf(s.0, message_handled(s, m, p, now, answer).0);
        },
    }
}

/// So does every message of another daemon.
pub proof fn law_ipc_messages_keep_context_wf(
    c: CtxView,
    ts: Seq<ControlView>,
    m: InterProcessMessage,
    p: Profiler,
    now: Instant,
    answer: Option<Seq<u64>>,
)
    requires
        c.wf(),
    ensures
        ipc_handled(c, ts, m, p, now, answer).0.wf(),
        c.pending.is_prefix_of(ipc_handled(c, ts, m, p, now, answer).0.pending),
{
    lemma_ipc_same(c, ts, m, p, now, answer);
    lemma_same_wf(c, ipc_handled(c, ts, m, p, now, answer).0);
}

pub proof fn lemma_ipc_same(
    c: CtxView,
    ts: Seq<ControlView>,
    m: InterProcessMessage,
    p: Profiler,
    now: Instant,
    answer: Option<Seq<u64>>,
)
    ensures
        same_progress(c, ipc_handled(c, ts, m, p, now, answer).0),
        same_reports(c, ipc_handled(c, ts, m, p, now, answer).0),
{
    let d = ipc_handled(c, ts, m, p, now, answer).0;
    match m {
        InterProcessMessage::ReplyProxyOpComm(idx, id, comm) if d != c => {
            let op = histograms_set(ts[idx as int].state, id, answer).waiting[id].op;
            lemma_ended_same(
                c,
                op.end_or(now),
                op.core.info,
                seq![op],
                false,
                records_proxyops(p),
                p.pid,
            );
        },
        _ => {
            assert(d.ncclops.dom() =~= c.ncclops.dom());
        },
    }
}

impl CtxView {
    /// The context with the operations back that a sweep set aside.
    pub open spec fn restored(self, kept: Map<usize, NcclOpView>) -> CtxView {
        CtxView { ncclops: self.ncclops.union_prefer_right(kept), ..self }
    }
}

proof fn lemma_reclaimed_wf(c: CtxView, kept: Map<usize, NcclOpView>, k: usize, now: Instant)
    requires
        c.restored(kept).wf(),
        c.ncclops.contains_key(k),
        !kept.contains_key(k),
    ensures
        c.without_op(k).reclaimed(c.ncclops[k], now).restored(kept).wf(),
        c.without_op(k).reclaimed(c.ncclops[k], now).ncclops == c.ncclops.remove(k),
        c.pending.is_prefix_of(c.without_op(k).reclaimed(c.ncclops[k], now).pending),
{
    let r = c.restored(kept);
    let op = c.ncclops[k];
    assert(r.ncclops.contains_key(k) && r.ncclops[k] == op);
    let d = c.without_op(k).reclaimed(op, now);
    assert(d.ncclops == c.ncclops.remove(k));
    let e = d.restored(kept);
    assert(e.ncclops =~= r.ncclops.remove(k));
    assert(op.info.id == k);
    assert(e.active =~= r.active.remove(k));
    assert(e.completed == r.completed);
    assert(e.early_progress == r.early_progress);
    assert(e.early_completions == r.early_completions);
    assert forall|id: usize| #[trigger] e.active.contains_key(id) implies distinct_markers(
        e.active[id],
    ) && e.ncclops.contains_key(id) by {
        assert(r.active.contains_key(id));
    }
    assert forall|id: usize| #[trigger] e.ncclops.contains_key(id) implies e.ncclops[id].info.id
        == id by {
        assert(r.ncclops.contains_key(id));
    }
    assert(e.markers_wf());
}

proof fn lemma_sweep_wf(
    c: CtxView,
    kept: Map<usize, NcclOpView>,
    keys: Seq<usize>,
    n: nat,
    policy: ReclaimPolicy,
    now: Instant,
)
    requires
        c.restored(kept).wf(),
        forall|i: int|
            0 <= i < keys.len() ==> c.ncclops.contains_key(#[trigger] keys[i])
                && !kept.contains_key(keys[i]),
        keys.no_duplicates(),
    ensures
        c.swept_from(kept, keys, n, policy, now).wf(),
        c.pending.is_prefix_of(c.swept_from(kept, keys, n, policy, now).pending),
        forall|id: usize| #[trigger]
            c.swept_from(kept, keys, n, policy, now).ncclops.contains_key(id)
                ==> c.ncclops.contains_key(id) || kept.contains_key(id),
    decreases keys.len(),
{
    if keys.len() > 0 {
        let k = keys[0];
        let op = c.ncclops[k];
        let rest = keys.drop_first();
        assert(forall|i: int| 0 <= i < rest.len() ==> rest[i] == keys[i + 1]);
        match policy.decision(op.info, n, now) {
            ReclaimAction::Keep => {
                assert(c.without_op(k).restored(kept.insert(k, op)) =~= c.restored(kept));
                lemma_sweep_wf(c.without_op(k), kept.insert(k, op), rest, n + 1, policy, now);
            },
            ReclaimAction::Reclaim => {
                let d = c.without_op(k).reclaimed(op, now);
                lemma_reclaimed_wf(c, kept, k, now);
                lemma_sweep_wf(d, kept, rest, n + 1, policy, now);
                lemma_prefix(
                    c.pending,
                    d.pending,
                    d.swept_from(kept, rest, n + 1, policy, now).pending,
                );
            },
            ReclaimAction::Stop => {},
        }
    }
}

/// A sweep leaves the context in order, and every record that waits for the
/// exporter where it is. It brings no operation back.
pub proof fn law_sweeps_keep_context_wf(c: CtxView, policy: ReclaimPolicy, now: Instant)
    requires
        c.wf(),
        c.ncclops.dom().finite(),
    ensures
        c.swept(policy, now).wf(),
        c.pending.is_prefix_of(c.swept(policy, now).pending),
        c.swept(policy, now).ncclops.dom().subset_of(c.ncclops.dom()),
        c.swept(policy, now).ncclops.dom().finite(),
{
    lemma_inflight_keys(c);
    assert(c.restored(Map::empty()) =~= c);
    lemma_sweep_wf(c, Map::empty(), in_order(c.ncclops.dom()), 0, policy, now);
    let d = c.swept(policy, now);
    assert forall|id: usize| d.ncclops.dom().contains(id) implies c.ncclops.dom().contains(id) by {
        assert(d.ncclops.contains_key(id));
    }
    vstd::set_lib::lemma_len_subset(d.ncclops.dom(), c.ncclops.dom());
}

/// The ids of the operations in flight, in order.
pub proof fn lemma_inflight_keys(c: CtxView)
    requires
        c.ncclops.dom().finite(),
    ensures
        lists_in_order(in_order(c.ncclops.dom()), c.ncclops.dom()),
        in_order(c.ncclops.dom()).no_duplicates(),
        forall|i: int|
            0 <= i < in_order(c.ncclops.dom()).len() ==> c.ncclops.contains_key(
                #[trigger] in_order(c.ncclops.dom())[i],
            ),
        in_order(c.ncclops.dom()).len() == c.ncclops.len(),
{
    let keys = in_order(c.ncclops.dom());
    lemma_listing_exists(c.ncclops.dom());
    lemma_distinct(keys, c.ncclops.dom());
    assert forall|i: int| 0 <= i < keys.len() implies c.ncclops.contains_key(#[trigger] keys[i]) by {
        assert(keys.to_set().contains(keys[i]));
    }
    keys.unique_seq_to_set();
}

// ---------------------------------------------------------------- whole passes

proof fn lemma_messages_wf(
    s: Pair,
    ms: Seq<Message>,
    p: Profiler,
    now: Instant,
    answers: Seq<Option<Seq<u64>>>,
)
    requires
        s.0.wf(),
    ensures
        messages_handled(s, ms, p, now, answers).0.wf(),
        s.0.pending.is_prefix_of(messages_handled(s, ms, p, now, answers).0.pending),
    decreases ms.len(),
{
    if ms.len() > 0 {
        lemma_messages_wf(s, ms.drop_last(), p, now, answers.drop_last());
        let t = messages_handled(s, ms.drop_last(), p, now, answers.drop_last());
        law_messages_keep_context_wf(t, ms.last()@, p, now, answers.last());
        lemma_prefix(
            s.0.pending,
            t.0.pending,
            messages_handled(s, ms, p, now, answers).0.pending,
        );
    }
}

proof fn lemma_threads_wf(
    c: CtxView,
    ts: Seq<ControlView>,
    n: nat,
    q: Queue,
    max: usize,
    p: Profiler,
    now: Instant,
    answers: Seq<Seq<Option<Seq<u64>>>>,
)
    requires
        c.wf(),
    ensures
        threads_passed(c, ts, n, q, max, p, now, answers).0.wf(),
        c.pending.is_prefix_of(threads_passed(c, ts, n, q, max, p, now, answers).0.pending),
    decreases n,
{
    if n > 0 {
        let before = answers.drop_last();
        lemma_threads_wf(c, ts, (n - 1) as nat, q, max, p, now, before);
        let (c0, ts0) = threads_passed(c, ts, (n - 1) as nat, q, max, p, now, before);
        let t = ts0[n - 1];
        lemma_messages_wf((c0, t.state), taken(t, q, max), p, now, answers.last());
        lemma_prefix(
            c.pending,
            c0.pending,
            threads_passed(c, ts, n, q, max, p, now, answers).0.pending,
        );
    }
}

proof fn lemma_ipc_all_wf(
    c: CtxView,
    ts: Seq<ControlView>,
    ms: Seq<InterProcessMessage>,
    p: Profiler,
    now: Instant,
    answers: Seq<Option<Seq<u64>>>,
)
    requires
        c.wf(),
    ensures
        ipc_all_handled(c, ts, ms, p, now, answers).0.wf(),
        c.pending.is_prefix_of(ipc_all_handled(c, ts, ms, p, now, answers).0.pending),
    decreases ms.len(),
{
    if ms.len() > 0 {
        lemma_ipc_all_wf(c, ts, ms.drop_last(), p, now, answers.drop_last());
        let (c0, ts0) = ipc_all_handled(c, ts, ms.drop_last(), p, now, answers.drop_last());
        law_ipc_messages_keep_context_wf(c0, ts0, ms.last(), p, now, answers.last());
        lemma_prefix(
            c.pending,
            c0.pending,
            ipc_all_handled(c, ts, ms, p, now, answers).0.pending,
        );
    }
}

/// A pass leaves the context in order, and every record that waits for the
/// exporter where it is.
pub proof fn law_passes_keep_context_wf(
    c: CtxView,
    ts: Seq<ControlView>,
    ipc: Seq<InterProcessMessage>,
    max_ncclops: usize,
    max_events: usize,
    p: Profiler,
    now: Instant,
    answers: Answers,
)
    requires
        c.wf(),
    ensures
        passed(c, ts, ipc, max_ncclops, max_events, p, now, answers).0.wf(),
        c.pending.is_prefix_of(
            passed(c, ts, ipc, max_ncclops, max_events, p, now, answers).0.pending,
        ),
{
    let n = ts.len();
    lemma_threads_wf(c, ts, n, Queue::Ncclops, max_ncclops, p, now, answers.ncclops);
    let (c1, ts1) = threads_passed(
        c,
        ts,
        n,
        Queue::Ncclops,
        max_ncclops,
        p,
        now,
        answers.ncclops,
    );
    lemma_threads_wf(c1, ts1, n, Queue::Events, max_events, p, now, answers.events);
    let (c2, ts2) = threads_passed(
        c1,
        ts1,
        n,
        Queue::Events,
        max_events,
        p,
        now,
        answers.events,
    );
    lemma_ipc_all_wf(c2, ts2, ipc, p, now, answers.ipc);
    let d = passed(c, ts, ipc, max_ncclops, max_events, p, now, answers).0;
    lemma_prefix(c.pending, c1.pending, c2.pending);
    lemma_prefix(c.pending, c2.pending, d.pending);
}

proof fn lemma_expired_same(s: Pair, ids: Seq<u32>, limit: Option<Duration>, p: Profiler, now: Instant)
    ensures
        same_progress(s.0, expired_among(s, ids, limit, p, now).0),
        same_reports(s.0, expired_among(s, ids, limit, p, now).0),
    decreases ids.len(),
{
    if ids.len() > 0 {
        lemma_expired_same(s, ids.drop_last(), limit, p, now);
        let (c, t) = expired_among(s, ids.drop_last(), limit, p, now);
        let op = t.waiting[ids.last()].op;
        lemma_ended_same(
            c,
            op.end_or(now),
            op.core.info,
            seq![op],
            false,
            records_proxyops(p),
            p.pid,
        );
        lemma_same_is_transitive(s.0, c, expired_among(s, ids, limit, p, now).0);
        lemma_same_reports_is_transitive(s.0, c, expired_among(s, ids, limit, p, now).0);
    }
}

proof fn lemma_same_is_transitive(a: CtxView, b: CtxView, c: CtxView)
    requires
        same_progress(a, b),
        same_progress(b, c) || b == c,
    ensures
        same_progress(a, c),
{
    if b != c {
        lemma_prefix(a.pending, b.pending, c.pending);
        assert forall|id: usize| #[trigger] c.ncclops.contains_key(id) implies c.ncclops[id].info.id
            == a.ncclops[id].info.id by {
            assert(b.ncclops.dom().contains(id));
            assert(b.ncclops.contains_key(id));
        }
    }
}

pub proof fn lemma_same_reports_is_transitive(a: CtxView, b: CtxView, c: CtxView)
    requires
        same_reports(a, b),
        same_reports(b, c) || b == c,
    ensures
        same_reports(a, c),
{
    if b != c {
        lemma_prefix(a.pending, b.pending, c.pending);
        assert forall|id: usize| #[trigger] c.ncclops.contains_key(id) implies same_op(
            c.ncclops[id].info,
            a.ncclops[id].info,
        ) by {
            assert(b.ncclops.dom().contains(id));
            assert(b.ncclops.contains_key(id));
        }
        assert forall|i: int| a.pending.len() <= i < c.pending.len() implies (
        #[trigger] c.pending[i]) !is NcclOp && c.pending[i] !is P2pParent by {
            if i < b.pending.len() {
                assert(c.pending[i] == b.pending[i]);
            }
        }
    }
}

pub proof fn lemma_threads_expired_same(
    c: CtxView,
    ts: Seq<ControlView>,
    n: nat,
    limit: Option<Duration>,
    p: Profiler,
    now: Instant,
)
    ensures
        same_progress(c, threads_expired(c, ts, n, limit, p, now).0),
        same_reports(c, threads_expired(c, ts, n, limit, p, now).0),
    decreases n,
{
    if n > 0 {
        lemma_threads_expired_same(c, ts, (n - 1) as nat, limit, p, now);
        let (c0, ts0) = threads_expired(c, ts, (n - 1) as nat, limit, p, now);
        let s = (c0, ts0[n - 1].state);
        lemma_expired_same(s, in_order(s.1.waiting.dom()), limit, p, now);
        lemma_same_is_transitive(c, c0, threads_expired(c, ts, n, limit, p, now).0);
        lemma_same_reports_is_transitive(c, c0, threads_expired(c, ts, n, limit, p, now).0);
    }
}

/// The last step of a pass, and the last step of the daemon, leave the context
/// in order, and every record that waits for the exporter where it is.
pub proof fn law_settling_keeps_context_wf(
    c: CtxView,
    ts: Seq<ControlView>,
    limit: Option<Duration>,
    p: Profiler,
    now: Instant,
)
    requires
        c.wf(),
        c.ncclops.dom().finite(),
    ensures
        ({
            let d = threads_expired(c, ts, ts.len(), limit, p, now).0;
            &&& d.trimmed(p.config, now).wf()
            &&& c.pending.is_prefix_of(d.trimmed(p.config, now).pending)
            &&& d.closed(now).wf()
            &&& c.pending.is_prefix_of(d.closed(now).pending)
        }),
{
    let d = threads_expired(c, ts, ts.len(), limit, p, now).0;
    lemma_threads_expired_same(c, ts, ts.len(), limit, p, now);
    lemma_same_wf(c, d);
    let policy = aged_policy(p.config);
    law_sweeps_keep_context_wf(d, policy, now);
    let e = d.swept(policy, now);
    lemma_prefix(c.pending, d.pending, e.pending);
    if e.ncclops.len() > p.config.max_tracked_ncclop {
        let oldest = ReclaimPolicy::Oldest {
            n: (e.ncclops.len() - p.config.max_tracked_ncclop) as usize,
        };
        law_sweeps_keep_context_wf(e, oldest, now);
        lemma_prefix(c.pending, e.pending, e.swept(oldest, now).pending);
    }
    law_sweeps_keep_context_wf(d, ReclaimPolicy::All, now);
    let f = d.swept(ReclaimPolicy::All, now);
    lemma_prefix(c.pending, d.pending, f.pending);
    lemma_flush_wf(f, in_order(f.groups.dom()));
    lemma_prefix(c.pending, f.pending, d.closed(now).pending);
}

proof fn lemma_flush_wf(c: CtxView, gids: Seq<u64>)
    requires
        c.wf(),
    ensures
        c.groups_flushed(gids).wf(),
        c.pending.is_prefix_of(c.groups_flushed(gids).pending),
    decreases gids.len(),
{
    if gids.len() > 0 {
        lemma_flush_wf(c, gids.drop_last());
        let d = c.groups_flushed(gids.drop_last());
        let e = c.groups_flushed(gids);
        assert(same_progress(d, e));
        lemma_same_wf(d, e);
        lemma_prefix(c.pending, d.pending, e.pending);
    }
}

// ------------------------------------------------------- events out of order

/// Early completions have no say in how progress is noted.
proof fn lemma_noted_apart(
    c: CtxView,
    ec: Map<usize, (Instant, Instant)>,
    id: usize,
    ps: Seq<PendingProgress>,
)
    ensures
        (CtxView { early_completions: ec, ..c }).noted_all(id, ps) == (CtxView {
            early_completions: ec,
            ..c.noted_all(id, ps)
        }),
    decreases ps.len(),
{
    if ps.len() > 0 {
        lemma_noted_apart(c, ec, id, ps.drop_last());
    }
}

/// It makes no difference whether the completion of an operation or its
/// announcement comes first.
pub proof fn law_completion_may_come_first(
    c: CtxView,
    op: NcclOpView,
    start: Instant,
    end: Instant,
)
    requires
        c.wf(),
        !c.ncclops.contains_key(op.info.id),
        !c.completed.contains(op.info.id),
        !c.early_completions.contains_key(op.info.id),
    ensures
        c.completed_op(op.info.id, start, end).announced(op) == c.announced(op).completed_op(
            op.info.id,
            start,
            end,
        ),
{
    let id = op.info.id;
    let ec = c.early_completions.insert(id, (start, end));
    let early = c.completed_op(id, start, end);
    let ps = seq_at(c.early_progress, id);
    let listed = CtxView {
        ncclops: c.ncclops.insert(id, op),
        early_progress: c.early_progress.remove(id),
        ..c.counted(op.info)
    }.reported(TelemetryView::NcclOpIssued(op));
    lemma_noted_apart(listed, ec, id, ps);
    assert((CtxView { early_completions: ec, ..listed }) =~= CtxView {
        ncclops: early.ncclops.insert(id, op),
        early_progress: early.early_progress.remove(id),
        ..early.counted(op.info)
    }.reported(TelemetryView::NcclOpIssued(op)));
    lemma_replayed(listed, id, ps);
    assert(ec.remove(id) =~= c.early_completions);
    assert(CtxView { early_completions: ec.remove(id), ..listed.noted_all(id, ps) }
        =~= c.announced(op));
}

/// Replayed progress leaves a marker.
proof fn lemma_replay_marks(c: CtxView, id: usize, ps: Seq<PendingProgress>, i: int)
    requires
        c.ncclops.contains_key(id),
        !c.completed.contains(id),
        0 <= i < ps.len(),
        ps[i].stage !is Complete,
    ensures
        c.noted_all(id, ps).has_marker(id, ps[i].source, ps[i].peer),
    decreases ps.len(),
{
    let before = c.noted_all(id, ps.drop_last());
    let after = c.noted_all(id, ps);
    lemma_replayed(c, id, ps.drop_last());
    let q = ps.last();
    if i < ps.len() - 1 {
        lemma_replay_marks(c, id, ps.drop_last(), i);
        let ms = seq_at(before.active, id);
        let j = choose|j: int|
            0 <= j < ms.len() && (#[trigger] ms[j]).source == ps[i].source && ms[j].peer
                == ps[i].peer;
        assert(seq_at(after.active, id)[j] == ms[j]);
    } else if !before.has_marker(id, q.source, q.peer) {
        let ms = seq_at(after.active, id);
        assert(ms[ms.len() - 1].source == q.source && ms[ms.len() - 1].peer == q.peer);
    }
}

/// It makes no difference whether progress of an operation or its announcement
/// comes first.
pub proof fn law_progress_may_come_first(c: CtxView, op: NcclOpView, p: PendingProgress)
    requires
        c.wf(),
        !c.ncclops.contains_key(op.info.id),
        !c.completed.contains(op.info.id),
        !c.early_completions.contains_key(op.info.id),
    ensures
        c.noted(op.info.id, p).announced(op) == c.announced(op).noted(op.info.id, p),
{
    let id = op.info.id;
    let ps = seq_at(c.early_progress, id);
    let listed = CtxView {
        ncclops: c.ncclops.insert(id, op),
        early_progress: c.early_progress.remove(id),
        ..c.counted(op.info)
    }.reported(TelemetryView::NcclOpIssued(op));
    lemma_replayed(listed, id, ps);
    let replayed = listed.noted_all(id, ps);
    assert(c.announced(op) == replayed);
    assert(!c.has_marker(id, p.source, p.peer));
    if p.stage is Complete {
    } else if c.has_early(id, p.source, p.peer) {
        let i = choose|i: int|
            0 <= i < ps.len() && (#[trigger] ps[i]).source == p.source && ps[i].peer == p.peer;
        lemma_replay_marks(listed, id, ps, i);
    } else {
        let d = c.noted(id, p);
        assert(d.early_progress.remove(id) =~= c.early_progress.remove(id));
        assert(ps.push(p).drop_last() =~= ps);
        assert(CtxView {
            ncclops: d.ncclops.insert(id, op),
            early_progress: d.early_progress.remove(id),
            ..d.counted(op.info)
        }.reported(TelemetryView::NcclOpIssued(op)) =~= listed);
    }
}

/// An operation completes once: whatever else its kernel channels report
/// changes nothing.
pub proof fn law_completion_is_final(
    c: CtxView,
    id: usize,
    start: Instant,
    end: Instant,
    start2: Instant,
    end2: Instant,
)
    requires
        c.ncclops.contains_key(id),
    ensures
        c.completed_op(id, start, end).completed.contains(id),
        c.completed_op(id, start, end).completed_op(id, start2, end2) == c.completed_op(
            id,
            start,
            end,
        ),
{
}

/// Progress that comes after the completion of its operation is ignored.
pub proof fn law_progress_is_never_resurrected(
    c: CtxView,
    id: usize,
    start: Instant,
    end: Instant,
    p: PendingProgress,
)
    requires
        c.ncclops.contains_key(id),
    ensures
        c.completed_op(id, start, end).noted(id, p) == c.completed_op(id, start, end),
{
}

/// A completion closes every open marker of its operation, each with the end
/// of the operation, and then reports the end of the operation itself.
pub proof fn law_completion_closes_markers_first(
    c: CtxView,
    id: usize,
    start: Instant,
    end: Instant,
)
    requires
        c.ncclops.contains_key(id),
        !c.completed.contains(id),
    ensures
        ({
            let d = c.completed_op(id, start, end);
            let op = c.ncclops[id].touched(start, Some(end));
            &&& d.pending == (c.pending + closings(seq_at(c.active, id), end)).push(
                TelemetryView::NcclOpComplete(op),
            )
            &&& !d.active.contains_key(id)
        }),
{
}

// --------------------------------------------------------------------- queues

/// Receiving moves messages along without losing, adding or swapping any.
pub proof fn law_receiving_keeps_messages_in_order<T>(
    f: FifoView<T>,
    max_idle: Duration,
    max_recv: usize,
    force: bool,
    now: Instant,
)
    ensures
        ({
            let g = f.after_recv(max_idle, max_recv, force, now);
            g.pending + g.queue.ready + g.queue.held == f.pending + f.queue.ready + f.queue.held
        }),
{
    let g = f.after_recv(max_idle, max_recv, force, now);
    let n = f.received(max_idle, max_recv, force, now) as int;
    let found = f.found(max_idle, force, now);
    assert(found.ready.take(n) + found.ready.skip(n) =~= found.ready);
    assert(found.ready + found.held =~= f.queue.ready + f.queue.held);
    assert(g.pending + g.queue.ready + g.queue.held =~= f.pending + (found.ready.take(n)
        + found.ready.skip(n)) + found.held);
    assert(f.pending + found.ready + found.held =~= f.pending + f.queue.ready + f.queue.held);
}

/// An event, or a message of another daemon, does not overtake the announcements
/// that it may refer to: a pass that takes one in takes in what every thread
/// announced so far, as much as a pass takes of a queue.
pub proof fn law_announcements_come_along(
    ts: Seq<ControlView>,
    ipc_waits: bool,
    now: Instant,
    i: int,
)
    requires
        0 <= i < ts.len(),
        ipc_waits || events_wait(ts, now),
    ensures
        ({
            let f = ts[i].ncclop;
            let all = f.queue.ready + f.queue.held;
            let g = pass_received(ts, ipc_waits, now)[i].ncclop;
            &&& g.queue.held.len() == 0
            &&& all.len() <= FIFO_RECV_BATCH + 1 ==> g.pending == f.pending + all
            &&& all.len() > FIFO_RECV_BATCH + 1 ==> g.pending == f.pending + all.take(
                FIFO_RECV_BATCH + 1,
            )
        }),
{
    let f = ts[i].ncclop;
    let all = f.queue.ready + f.queue.held;
    assert(all.take(all.len() as int) =~= all);
}

/// Before the daemon stops, it takes in all that the threads sent.
pub proof fn law_nothing_is_left_behind(ts: Seq<ControlView>, now: Instant, i: int)
    requires
        0 <= i < ts.len(),
        ts[i].ncclop.queue.ready.len() + ts[i].ncclop.queue.held.len() <= usize::MAX,
        ts[i].fifo.queue.ready.len() + ts[i].fifo.queue.held.len() <= usize::MAX,
    ensures
        ({
            let t = rest_received(ts, now)[i];
            let (f, g) = (ts[i].ncclop, ts[i].fifo);
            &&& t.ncclop.pending == f.pending + f.queue.ready + f.queue.held
            &&& t.fifo.pending == g.pending + g.queue.ready + g.queue.held
            &&& t.ncclop.queue.ready.len() + t.ncclop.queue.held.len() == 0
            &&& t.fifo.queue.ready.len() + t.fifo.queue.held.len() == 0
        }),
{
    let (f, g) = (ts[i].ncclop, ts[i].fifo);
    let (all, rest) = (f.queue.ready + f.queue.held, g.queue.ready + g.queue.held);
    assert(all.take(all.len() as int) =~= all);
    assert(rest.take(rest.len() as int) =~= rest);
    assert(f.pending + all =~= f.pending + f.queue.ready + f.queue.held);
    assert(g.pending + rest =~= g.pending + g.queue.ready + g.queue.held);
}

/// A pass without a limit, as the last one is, handles all that was taken in.
pub proof fn law_last_pass_handles_everything(t: ControlView, q: Queue)
    requires
        t.queue(q).pending.len() <= usize::MAX,
    ensures
        taken(t, q, usize::MAX) == t.queue(q).pending,
{
    assert(taken(t, q, usize::MAX) =~= t.queue(q).pending);
}

/// A pass handles the oldest messages and leaves the others in place.
pub proof fn law_handling_takes_the_oldest<T>(f: FifoView<T>, max: usize)
    ensures
        f.handled(max) <= f.pending.len(),
        f.pending.len() > 0 ==> f.handled(max) > 0,
        f.pending.take(f.handled(max) as int) + f.pending.skip(f.handled(max) as int)
            == f.pending,
{
    assert(f.pending.take(f.handled(max) as int) + f.pending.skip(f.handled(max) as int)
        =~= f.pending);
}

/// What is sent to another daemon are the oldest messages for it, and whatever
/// is not sent keeps its place. Messages for others are not touched.
pub proof fn law_sending_keeps_messages_in_order(c: CtxView, pid: i32, n: nat, other: i32)
    requires
        n <= c.ipc_next(pid).len(),
    ensures
        c.ipc_next(pid).is_prefix_of(seq_at(c.ipc, pid)),
        c.ipc_next(pid).take(n as int) + seq_at(c.ipc_gone(pid, n).ipc, pid) == seq_at(c.ipc, pid),
        other != pid ==> seq_at(c.ipc_gone(pid, n).ipc, other) == seq_at(c.ipc, other),
{
    assert(c.ipc_next(pid).take(n as int) + seq_at(c.ipc_gone(pid, n).ipc, pid) =~= seq_at(
        c.ipc,
        pid,
    ));
}

// ----------------------------------------------------------------------- steps

/// What several steps leave of an operation that aggregates them and does not
/// know its histograms yet.
proof fn lemma_steps_wait(op: ProxyOpView, steps: Seq<EventStep>, init: Instant)
    requires
        op.core.aggregate_steps,
        op.histograms is None,
    ensures
        op.with_steps(steps, init).unsampled == op.unsampled + steps,
        op.with_steps(steps, init).histograms is None,
        op.with_steps(steps, init).core.aggregate_steps,
    decreases steps.len(),
{
    if steps.len() > 0 {
        lemma_steps_wait(op, steps.drop_last(), init);
        assert(op.unsampled + steps =~= (op.unsampled + steps.drop_last()).push(steps.last()));
    } else {
        assert(op.unsampled + steps =~= op.unsampled);
    }
}

proof fn lemma_samples_concat(handles: Seq<u64>, a: Seq<EventStep>, b: Seq<EventStep>)
    ensures
        samples(handles, a + b) == samples(handles, a) + samples(handles, b),
    decreases b.len(),
{
    if b.len() == 0 {
        assert(a + b =~= a);
        assert(samples(handles, a) + samples(handles, b) =~= samples(handles, a));
    } else {
        assert((a + b).drop_last() =~= a + b.drop_last());
        lemma_samples_concat(handles, a, b.drop_last());
        assert(samples(handles, a + b) =~= samples(handles, a) + samples(handles, b));
    }
}

/// An aggregated step reaches every histogram of its operation once, whether the
/// histograms were known when it came or were found later.
pub proof fn law_late_histograms_miss_no_step(
    op: ProxyOpView,
    before: Seq<EventStep>,
    after: Seq<EventStep>,
    handles: Seq<u64>,
    init: Instant,
)
    requires
        op.core.aggregate_steps,
        op.histograms is None,
        op.unsampled.len() == 0,
    ensures
        ({
            let late = op.with_steps(before, init);
            let set = late.with_histograms(handles);
            &&& op.samples_of(before).len() == 0
            &&& set.samples_of(late.unsampled) + set.samples_of(after) == samples(
                handles,
                before + after,
            )
            &&& set.with_steps(after, init).unsampled.len() == 0
        }),
{
    lemma_steps_wait(op, before, init);
    assert(op.unsampled + before =~= before);
    lemma_samples_concat(handles, before, after);
    lemma_steps_of_known(op.with_steps(before, init).with_histograms(handles), after, init);
}

proof fn lemma_steps_of_known(op: ProxyOpView, steps: Seq<EventStep>, init: Instant)
    requires
        op.histograms is Some,
    ensures
        op.with_steps(steps, init).unsampled == op.unsampled,
        op.with_steps(steps, init).histograms == op.histograms,
    decreases steps.len(),
{
    if steps.len() > 0 {
        lemma_steps_of_known(op, steps.drop_last(), init);
    }
}

/// An operation holds single steps only where they are tracked, and all of them,
/// in order.
pub proof fn law_tracked_steps_are_kept(op: ProxyOpView, steps: Seq<EventStep>, init: Instant)
    ensures
        op.with_steps(steps, init).steps == if op.core.track_steps {
            op.steps + steps
        } else {
            op.steps
        },
        op.with_steps(steps, init).core.track_steps == op.core.track_steps,
    decreases steps.len(),
{
    if steps.len() > 0 {
        law_tracked_steps_are_kept(op, steps.drop_last(), init);
        assert(op.steps + steps =~= (op.steps + steps.drop_last()).push(steps.last()));
    } else {
        assert(op.steps + steps =~= op.steps);
    }
}

} // verus!
