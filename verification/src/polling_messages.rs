//! How the polling daemon handles the messages of the profiled threads and of
//! the daemons of other processes.
use crate::clock::{add_nanos, Instant};
use crate::daemon::{
    InterProcessMessage, Message, Telemetry, TelemetryView, ThreadControl, ThreadState, ThreadView,
    WaitingProxyOp,
};
use crate::event::{
    EventStep, Group, NcclOp, PendingProgress, ProxyOp, ProxyOpExtra, ProxyOpInfo, ProxyOpView,
    Sample,
};
use crate::nccl_metadata::NcclOpKey;
use crate::polling::{lemma_samples_of_more, P2pGroupAcc, PollingContext};
use crate::polling_model::{
    aggregates, batch_handled, batch_is_usable, find_proxyop, histogram_key, histograms_set,
    ipc_handled, ipc_is_addressed, ipc_key, message_handled, message_key, popped_extra,
    proxyop_added, proxyop_closed, records_proxyops, samples_released, waits_for_hash, CtxView,
    GroupAccView,
};
use crate::profiler::Profiler;
use crate::views::{group_views, seq_at, view_seq};
use std::collections::VecDeque;
use vstd::prelude::*;

verus! {

/// Where the daemon's records go, and who keeps its latency histograms.
pub trait Export {
    /// Hands pending records on, and gives the histograms the steps that they
    /// are owed. Where the way is blocked, a retry delay asks to wait for it.
    fn export(&self, ctx: &mut PollingContext, maybe_retry_ms: Option<u64>);

    /// Handles of the histograms for a connection. An exporter that says nothing
    /// else keeps none.
    fn get_latency_histogram(&self, key: &NcclOpKey) -> (r: Option<Vec<u64>>)
        default_ensures
            r is None,
    {
        let _ = key;
        None
    }
}

/// Histogram handles as a value.
pub open spec fn handles(h: Option<Vec<u64>>) -> Option<Seq<u64>> {
    match h {
        Some(v) => Some(v@),
        None => None,
    }
}

/// Whether `answer` is what the exporter says when it is asked for `key`. Where
/// no key is given it is not asked, and there is no answer.
pub open spec fn answered<E: Export>(e: E, key: Option<NcclOpKey>, answer: Option<Seq<u64>>) -> bool {
    match key {
        Some(k) => exists|h: Option<Vec<u64>>|
            call_ensures(E::get_latency_histogram, (&e, &k), h) && answer == #[trigger] handles(h),
        None => answer is None,
    }
}

/// The operation that is at hand, if one is.
pub open spec fn at_hand(op: Option<ProxyOp>) -> Seq<ProxyOpView> {
    match op {
        Some(o) => seq![o@],
        None => Seq::empty(),
    }
}

/// Whether finished proxy operations are recorded.
fn record_proxyops(p: &Profiler) -> (r: bool)
    ensures
        r == records_proxyops(*p),
{
    p.gates.track_proxyop() || p.gates.track_steps()
}

fn aggregate_steps(info: &ProxyOpInfo, p: &Profiler) -> (r: bool)
    ensures
        r == aggregates(*info, *p),
{
    info.parent.is_some() && p.gates.aggregate_steps() && (info.pid == p.pid
        || p.gates.track_interprocess_proxyop())
}

/// Whether an ended proxy operation waits for the hash of its communicator.
pub fn should_wait_for_comm_hash(op: &ProxyOp, p: &Profiler) -> (r: bool)
    ensures
        r == waits_for_hash(op@, *p),
{
    p.config.track_interprocess_proxyop && op.core.aggregate_steps && op.core.info.pid != p.pid
        && op.core.info.parent.is_some() && !op.has_step_histograms()
}

impl PollingContext {
    /// Queues a message for the daemon of another process.
    pub fn append_ipc_message(&mut self, pid: i32, msg: InterProcessMessage)
        ensures
            final(self)@ == old(self)@.ipc_sent(pid, msg),
    {
        broadcast use group_views;

        let mut msgs: VecDeque<InterProcessMessage> = match self.pending_ipc_msg.remove(&pid) {
            Some(msgs) => msgs,
            None => VecDeque::new(),
        };
        msgs.push_back(msg);
        self.pending_ipc_msg.insert(pid, msgs);
        assert(self@ =~= old(self)@.ipc_sent(pid, msg));
    }

    /// A proxy operation started.
    pub fn handle_proxyop_start(
        &mut self,
        thread_idx: usize,
        info: &ProxyOpInfo,
        time: Instant,
        pid: i32,
    )
        ensures
            final(self)@ == old(self)@.proxyop_started(thread_idx, *info, time, pid),
    {
        match info.parent {
            Some(parent) => {
                if info.pid == pid {
                    let _ = self.touch_ncclop(parent, time, None);
                } else {
                    self.append_ipc_message(
                        info.pid,
                        InterProcessMessage::ProxyOpStart(parent, pid, thread_idx, info.id, time),
                    );
                }
            },
            None => {},
        }
    }

    fn report_proxyop(&mut self, op: Option<ProxyOp>)
        ensures
            op is None ==> final(self)@ == old(self)@,
            op matches Some(o) ==> final(self)@ == old(self)@.reported(
                TelemetryView::ProxyOp(o@),
            ),
    {
        match op {
            Some(op) => self.report(Telemetry::ProxyOp(Box::new(op))),
            None => {},
        }
    }

    /// A proxy operation ended; `op` is there unless it still waits.
    pub fn handle_proxyop_end(
        &mut self,
        end_time: Instant,
        info: &ProxyOpInfo,
        op: Option<ProxyOp>,
        send_ipc: bool,
        p: &Profiler,
    )
        ensures
            final(self)@ == old(self)@.proxyop_ended(
                end_time,
                *info,
                at_hand(op),
                send_ipc,
                records_proxyops(*p),
                p.pid,
            ),
    {
        broadcast use group_views;

        let record: bool = record_proxyops(p);
        let ghost ops: Seq<ProxyOpView> = at_hand(op);
        match info.parent {
            Some(parent) => {
                if info.pid == p.pid {
                    if self.touch_ncclop(parent, end_time, Some(end_time)) {
                        if record {
                            let ghost touched = self@;
                            match op {
                                Some(op) => {
                                    match self.ncclops.remove(&parent) {
                                        Some(mut ncclop) => {
                                            ncclop.add_proxyop(op);
                                            self.ncclops.insert(parent, ncclop);
                                        },
                                        None => {},
                                    }
                                },
                                None => {
                                    assert(touched.ncclops[parent].with_proxyops(ops)
                                        =~= touched.ncclops[parent]);
                                },
                            }
                        }
                    }
                    assert(self@ =~= old(self)@.proxyop_ended(
                        end_time,
                        *info,
                        ops,
                        send_ipc,
                        record,
                        p.pid,
                    ));
                    return ;
                } else if send_ipc {
                    self.append_ipc_message(
                        info.pid,
                        InterProcessMessage::ProxyOpEnd(parent, end_time),
                    );
                }
            },
            None => {},
        }
        if record {
            self.report_proxyop(op);
        }
        assert(self@ =~= old(self)@.proxyop_ended(
            end_time,
            *info,
            ops,
            send_ipc,
            record,
            p.pid,
        ));
    }

    /// Lets go of a proxy operation that waited for its communicator.
    pub fn finalize_pending_comm_hash_proxyop(&mut self, op: ProxyOp, p: &Profiler, now: Instant)
        ensures
            final(self)@ == old(self)@.waiting_finalized(op@, *p, now),
    {
        let info: ProxyOpInfo = op.core.info;
        let end_time: Instant = op.end_time_or(now);
        self.handle_proxyop_end(end_time, &info, Some(op), false, p);
    }

    /// The key for which a message needs histograms, if it does.
    pub fn message_histogram_key(&self, msg: &Message, t: &ThreadState, p: &Profiler) -> (r: Option<
        NcclOpKey,
    >)
        ensures
            r == message_key(self@, t@, msg@, *p),
    {
        match msg {
            Message::StepBatch(info, _, _) => {
                if t.proxyops.contains_key(&info.id) {
                    None
                } else {
                    self.proxyop_histogram_key(info, p)
                }
            },
            _ => None,
        }
    }

    fn proxyop_histogram_key(&self, info: &ProxyOpInfo, p: &Profiler) -> (r: Option<NcclOpKey>)
        ensures
            r == histogram_key(self@, *info, *p),
    {
        match info.parent {
            Some(parent) => {
                if aggregate_steps(info, p) && info.pid == p.pid {
                    match self.ncclops.get(&parent) {
                        Some(op) => Some(info.op_key(op.info.comm_hash)),
                        None => None,
                    }
                } else {
                    None
                }
            },
            None => None,
        }
    }

    /// Follows a proxy operation from now on.
    pub fn add_proxyop(
        &mut self,
        t: &mut ThreadState,
        info: &ProxyOpInfo,
        start_time: Instant,
        p: &Profiler,
        answer: Option<Vec<u64>>,
    )
        ensures
            (final(self)@, final(t)@) == proxyop_added(
                (old(self)@, old(t)@),
                *info,
                start_time,
                *p,
                handles(answer),
            ),
    {
        broadcast use group_views;

        let wanted: bool = self.proxyop_histogram_key(info, p).is_some();
        let mut op: ProxyOp = ProxyOp::from_info(info, start_time);
        op.init_step_tracking(p.gates.track_steps(), aggregate_steps(info, p));
        if wanted {
            match answer {
                Some(h) => {
                    let _ = op.set_step_histograms(h);
                },
                None => {},
            }
        }
        self.handle_proxyop_start(t.idx, info, start_time, p.pid);
        t.proxyops.insert(info.id, op);
        assert(t@ =~= proxyop_added(
            (old(self)@, old(t)@),
            *info,
            start_time,
            *p,
            handles(answer),
        ).1);
    }

    /// Closes a proxy operation that was taken out of the thread's state.
    fn close_proxyop(
        &mut self,
        t: &mut ThreadState,
        id: u32,
        info: &ProxyOpInfo,
        op: ProxyOp,
        p: &Profiler,
        now: Instant,
    )
        ensures
            (final(self)@, final(t)@) == proxyop_closed(
                (old(self)@, old(t)@),
                id,
                *info,
                op@,
                *p,
                now,
            ),
    {
        broadcast use group_views;

        let mut op = op;
        match t.pop_extra() {
            Some(extra) => op.add_extra_info(extra),
            None => {},
        }
        let end_time: Instant = op.end_time_or(now);
        if should_wait_for_comm_hash(&op, p) {
            t.pending_comm_hash_proxyops.insert(id, WaitingProxyOp { op, since: now });
            self.handle_proxyop_end(end_time, info, None, true, p);
        } else {
            self.handle_proxyop_end(end_time, info, Some(op), true, p);
        }
        assert(t@ =~= proxyop_closed((old(self)@, old(t)@), id, *info, op@, *p, now).1);
    }

    fn handle_group(&mut self, group: Group, track_group: bool)
        ensures
            final(self)@ == old(self)@.group_ended(group, track_group),
    {
        broadcast use group_views;

        let gid: u64 = group.id;
        let mut acc: P2pGroupAcc = self.take_group(gid);
        let ghost known = old(self)@.group(gid);
        acc.ended = true;
        if acc.self_copy_size < group.self_copy_size {
            acc.self_copy_size = group.self_copy_size;
        }
        self.p2p_groups.insert(gid, acc);
        assert(self@ =~= (CtxView {
            groups: old(self)@.groups.insert(
                gid,
                GroupAccView {
                    ended: true,
                    self_copy_size: if known.self_copy_size >= group.self_copy_size {
                        known.self_copy_size
                    } else {
                        group.self_copy_size
                    },
                    ..known
                },
            ),
            ..old(self)@
        }));
        self.try_emit_p2p_parent(gid, false);
        if track_group {
            self.report(Telemetry::Group(group));
        }
    }

    /// An operation was announced.
    fn handle_ncclop(&mut self, op: NcclOp)
        ensures
            final(self)@ == old(self)@.announced(op@),
    {
        broadcast use group_views;

        let id: usize = op.info.id;
        self.note_ncclop_start(&op.info);
        let issued: NcclOp = op.duplicate();
        self.ncclops.insert(id, op);
        self.report(Telemetry::NcclOpIssued(Box::new(issued)));
        let ghost early = seq_at(old(self)@.early_progress, id);
        let ghost listed = CtxView {
            ncclops: old(self)@.ncclops.insert(id, op@),
            early_progress: old(self)@.early_progress.remove(id),
            ..old(self)@.counted(op@.info)
        }.reported(TelemetryView::NcclOpIssued(op@));
        match self.early_progress.remove(&id) {
            Some(progress) => {
                assert(self@ =~= listed);
                assert(progress@ == early);
                let mut i: usize = 0;
                assert(early.take(0) =~= Seq::<PendingProgress>::empty());
                while i < progress.len()
                    invariant
                        i <= progress@.len(),
                        progress@ == early,
                        self@ == listed.noted_all(id, early.take(i as int)),
                    decreases progress@.len() - i,
                {
                    self.note_step_progress(id, progress[i]);
                    assert(early.take(i + 1).drop_last() =~= early.take(i as int));
                    i += 1;
                }
                assert(early.take(i as int) =~= early);
            },
            None => {
                assert(self@ =~= listed);
            },
        }
        let ghost replayed = listed.noted_all(id, early);
        proof {
            lemma_noted_keeps_completions(listed, id, early);
        }
        match self.early_completions.remove(&id) {
            Some((child_start, end_time)) => {
                assert(self@ =~= (CtxView {
                    early_completions: replayed.early_completions.remove(id),
                    ..replayed
                }));
                self.complete_ncclop(id, child_start, end_time);
            },
            None => {
                assert(self@ =~= replayed);
            },
        }
    }

    fn handle_step_batch(
        &mut self,
        t: &mut ThreadState,
        info: ProxyOpInfo,
        steps: Vec<EventStep>,
        is_last: bool,
        p: &Profiler,
        now: Instant,
        answer: Option<Vec<u64>>,
    )
        requires
            old(t)@.proxyops.contains_key(info.id) || steps@.len() > 0,
        ensures
            (final(self)@, final(t)@) == batch_handled(
                (old(self)@, old(t)@),
                info,
                steps@,
                is_last,
                *p,
                now,
                handles(answer),
            ),
    {
        broadcast use group_views;

        let init: Instant = p.init_instant();
        if !t.proxyops.contains_key(&info.id) {
            self.add_proxyop(t, &info, steps[0].start_instant(init), p, answer);
        }
        let ghost known = (self@, t@);
        match t.proxyops.remove(&info.id) {
            Some(mut op) => {
                let ghost first = op@;
                assert(first == known.1.proxyops[info.id]);
                assert(steps@.take(0) =~= Seq::<EventStep>::empty());
                assert(first.samples_of(steps@.take(0)) =~= Seq::<Sample>::empty());
                assert(self@.samples =~= self@.sampled(first.samples_of(steps@.take(0))).samples);
                let mut i: usize = 0;
                while i < steps.len()
                    invariant
                        i <= steps@.len(),
                        op@ == first.with_steps(steps@.take(i as int), init),
                        op@.histograms == first.histograms,
                        op@.core.aggregate_steps == first.core.aggregate_steps,
                        self@ == known.0.sampled(first.samples_of(steps@.take(i as int))),
                    decreases steps@.len() - i,
                {
                    self.sample_step(&op, steps[i]);
                    op.add_step(steps[i], init);
                    proof {
                        let front = steps@.take(i as int);
                        assert(steps@.take(i + 1) =~= front.push(steps@[i as int]));
                        assert(steps@.take(i + 1).drop_last() =~= front);
                        lemma_samples_of_more(first, front, steps@[i as int]);
                    }
                    assert(self@.samples =~= known.0.samples + first.samples_of(
                        steps@.take(i + 1),
                    ));
                    i += 1;
                }
                assert(steps@.take(i as int) =~= steps@);
                assert(t@ =~= (ThreadView {
                    proxyops: known.1.proxyops.remove(info.id),
                    ..known.1
                }));
                if is_last {
                    self.close_proxyop(t, info.id, &info, op, p, now);
                } else {
                    t.proxyops.insert(info.id, op);
                    assert(t@ =~= (ThreadView {
                        proxyops: known.1.proxyops.insert(
                            info.id,
                            first.with_steps(steps@, init),
                        ),
                        ..known.1
                    }));
                }
            },
            None => {
                assert(false);
            },
        }
    }

    /// Handles one message; `answer` are the histograms that the exporter has
    /// for [`Self::message_histogram_key`].
    pub fn apply_message(
        &mut self,
        msg: Message,
        t: &mut ThreadState,
        p: &Profiler,
        now: Instant,
        answer: Option<Vec<u64>>,
    )
        requires
            batch_is_usable(old(t)@.proxyops.dom(), msg@),
        ensures
            (final(self)@, final(t)@) == message_handled(
                (old(self)@, old(t)@),
                msg@,
                *p,
                now,
                handles(answer),
            ),
    {
        broadcast use group_views;

        match msg {
            Message::Group(group) => self.handle_group(group, p.config.track_group),
            Message::NcclOp(op) => self.handle_ncclop(op),
            Message::ProxyOpLite(start_time, dur_ns, info) => {
                self.handle_proxyop_start(t.idx, &info, start_time, p.pid);
                let end_time: Instant = add_nanos(start_time, dur_ns);
                self.handle_proxyop_end(end_time, &info, None, true, p);
            },
            Message::ProxyOpExtra(extra) => t.aux_msg.push(extra),
            Message::ProxyOp(id) => {
                match t.proxyops.remove(&id) {
                    Some(op) => {
                        let info: ProxyOpInfo = op.core.info;
                        assert(t@ =~= (ThreadView {
                            proxyops: old(t)@.proxyops.remove(id),
                            ..old(t)@
                        }));
                        self.close_proxyop(t, id, &info, op, p, now);
                    },
                    None => {
                        assert(t@ =~= old(t)@);
                        let _ = t.pop_extra();
                    },
                }
            },
            Message::StepBatch(info, steps, is_last) => self.handle_step_batch(
                t,
                info,
                steps,
                is_last,
                p,
                now,
                answer,
            ),
            Message::KernelCh(start_time, duration, parent) => {
                let end_time: Instant = add_nanos(start_time, duration);
                self.complete_ncclop(parent, start_time, end_time);
            },
            Message::KernelStep(step, parent) => {
                match self.ncclops.remove(&parent) {
                    Some(mut op) => {
                        op.add_kernel_step(step);
                        self.ncclops.insert(parent, op);
                    },
                    None => {},
                }
                assert(self@ =~= message_handled(
                    (old(self)@, old(t)@),
                    msg@,
                    *p,
                    now,
                    handles(answer),
                ).0);
            },
            Message::StepProgress {
                source,
                stage,
                observed_at,
                parent,
                is_send,
                peer,
                channel_id,
                step,
                size,
            } => {
                let progress = PendingProgress {
                    source,
                    stage,
                    observed_at,
                    is_send,
                    peer,
                    channel_id,
                    step,
                    size,
                };
                self.note_step_progress(parent, progress);
            },
            Message::CommOpen(comm) => self.report(Telemetry::CommOpen(comm)),
            Message::CommInit(membership) => self.report(Telemetry::CommInit(membership)),
            Message::CommClose(comm_hash) => self.report(Telemetry::CommClose(comm_hash)),
        }
    }

    /// Handles one message, asking the exporter for histograms where the
    /// message needs some.
    pub fn handle_fifo_message<E: Export>(
        &mut self,
        msg: Message,
        t: &mut ThreadState,
        exporter: &E,
        p: &Profiler,
        now: Instant,
    )
        requires
            batch_is_usable(old(t)@.proxyops.dom(), msg@),
        ensures
            exists|answer: Option<Seq<u64>>|
                answered(*exporter, message_key(old(self)@, old(t)@, msg@, *p), answer) && (
                final(self)@, final(t)@) == #[trigger] message_handled(
                    (old(self)@, old(t)@),
                    msg@,
                    *p,
                    now,
                    answer,
                ),
    {
        let answer: Option<Vec<u64>> = match self.message_histogram_key(&msg, t, p) {
            Some(key) => exporter.get_latency_histogram(&key),
            None => None,
        };
        self.apply_message(msg, t, p, now, answer);
    }
}

/// The key for which a message of another daemon needs histograms, if it does.
pub fn ipc_histogram_key(threads: &Vec<ThreadControl>, msg: &InterProcessMessage, p: &Profiler) -> (r:
    Option<NcclOpKey>)
    requires
        ipc_is_addressed(threads@.len(), *msg),
    ensures
        r == ipc_key(view_seq(threads@), *msg, *p),
{
    match *msg {
        InterProcessMessage::ReplyProxyOpComm(idx, id, comm) => {
            if p.config.aggregate_steps {
                threads[idx].daemon_state.missing_histogram_key(id, comm)
            } else {
                None
            }
        },
        _ => None,
    }
}

impl PollingContext {
    /// Gives the proxy operation `id` its histograms, unless it has some, and
    /// owes them the steps that waited.
    pub fn set_histograms(&mut self, t: &mut ThreadState, id: u32, answer: Option<Vec<u64>>)
        ensures
            final(t)@ == histograms_set(old(t)@, id, handles(answer)),
            final(self)@ == old(self)@.sampled(samples_released(old(t)@, id, handles(answer))),
    {
        broadcast use group_views;

        let ghost c = self@;
        match answer {
            Some(h) => {
                match t.proxyops.remove(&id) {
                    Some(mut op) => {
                        if !op.has_step_histograms() {
                            let waited: Vec<EventStep> = op.set_step_histograms(h);
                            self.sample_steps(&op, &waited);
                        }
                        t.proxyops.insert(id, op);
                    },
                    None => {
                        match t.pending_comm_hash_proxyops.remove(&id) {
                            Some(mut waiting) => {
                                if !waiting.op.has_step_histograms() {
                                    let waited: Vec<EventStep> = waiting.op.set_step_histograms(h);
                                    self.sample_steps(&waiting.op, &waited);
                                }
                                t.pending_comm_hash_proxyops.insert(id, waiting);
                            },
                            None => {},
                        }
                    },
                }
            },
            None => {},
        }
        assert(t@ =~= histograms_set(old(t)@, id, handles(answer)));
        assert(self@ =~= c.sampled(samples_released(old(t)@, id, handles(answer))));
    }

    /// Another daemon says which communicator a proxy operation belongs to.
    fn handle_comm_reply(
        &mut self,
        t: &mut ThreadState,
        id: u32,
        p: &Profiler,
        now: Instant,
        answer: Option<Vec<u64>>,
    )
        ensures
            ({
                let set = histograms_set(old(t)@, id, handles(answer));
                let c = old(self)@.sampled(samples_released(old(t)@, id, handles(answer)));
                if set.waiting.contains_key(id) {
                    &&& final(self)@ == c.waiting_finalized(set.waiting[id].op, *p, now)
                    &&& final(t)@ == (ThreadView { waiting: set.waiting.remove(id), ..set })
                } else {
                    final(self)@ == c && final(t)@ == set
                }
            }),
    {
        broadcast use group_views;

        self.set_histograms(t, id, answer);
        let ghost set = t@;
        match t.pending_comm_hash_proxyops.remove(&id) {
            Some(waiting) => {
                self.finalize_pending_comm_hash_proxyop(waiting.op, p, now);
                assert(t@ =~= (ThreadView { waiting: set.waiting.remove(id), ..set }));
            },
            None => {
                assert(t@ =~= set);
            },
        }
    }

    /// Handles one message of another daemon; `answer` are the histograms that
    /// the exporter has for [`ipc_histogram_key`].
    pub fn apply_ipc_message(
        &mut self,
        threads: &mut Vec<ThreadControl>,
        msg: InterProcessMessage,
        p: &Profiler,
        now: Instant,
        answer: Option<Vec<u64>>,
    )
        requires
            ipc_is_addressed(old(threads)@.len(), msg),
        ensures
            (final(self)@, view_seq(final(threads)@)) == ipc_handled(
                old(self)@,
                view_seq(old(threads)@),
                msg,
                *p,
                now,
                handles(answer),
            ),
    {
        broadcast use group_views;

        match msg {
            InterProcessMessage::ProxyOpStart(handle, pid, thread_idx, id, time) => {
                if self.touch_ncclop(handle, time, None) {
                    assert(self@.ncclops.contains_key(handle));
                    let comm: u64 = match self.ncclops.get(&handle) {
                        Some(op) => {
                            assert(op@ == self@.ncclops[handle]);
                            op.info.comm_hash
                        },
                        None => {
                            assert(false);
                            0
                        },
                    };
                    self.append_ipc_message(
                        pid,
                        InterProcessMessage::ReplyProxyOpComm(thread_idx, id, comm),
                    );
                }
            },
            InterProcessMessage::ProxyOpEnd(handle, time) => {
                let _ = self.touch_ncclop(handle, time, Some(time));
            },
            InterProcessMessage::ReplyProxyOpComm(idx, id, _) => {
                if p.config.aggregate_steps {
                    let ghost before = view_seq(threads@);
                    self.handle_comm_reply(&mut threads[idx].daemon_state, id, p, now, answer);
                    assert(view_seq(threads@) =~= ipc_handled(
                        old(self)@,
                        before,
                        msg,
                        *p,
                        now,
                        handles(answer),
                    ).1);
                }
            },
        }
    }

    /// Handles one message of another daemon, asking the exporter for
    /// histograms where the message needs some.
    pub fn handle_ipc_message<E: Export>(
        &mut self,
        threads: &mut Vec<ThreadControl>,
        exporter: &E,
        msg: InterProcessMessage,
        p: &Profiler,
        now: Instant,
    )
        requires
            ipc_is_addressed(old(threads)@.len(), msg),
        ensures
            exists|answer: Option<Seq<u64>>|
                answered(*exporter, ipc_key(view_seq(old(threads)@), msg, *p), answer) && (
                final(self)@, view_seq(final(threads)@)) == #[trigger] ipc_handled(
                    old(self)@,
                    view_seq(old(threads)@),
                    msg,
                    *p,
                    now,
                    answer,
                ),
    {
        let answer: Option<Vec<u64>> = match ipc_histogram_key(threads, &msg, p) {
            Some(key) => exporter.get_latency_histogram(&key),
            None => None,
        };
        self.apply_ipc_message(threads, msg, p, now, answer);
    }
}

impl ThreadState {
    /// The connection whose histograms the proxy operation `id` still lacks.
    fn missing_histogram_key(&self, id: u32, comm: u64) -> (r: Option<NcclOpKey>)
        ensures
            r == (match find_proxyop(self@, id) {
                Some(op) if op.histograms is None => Some(op.core.info.spec_op_key(comm)),
                _ => None,
            }),
    {
        let found: Option<&ProxyOp> = match self.proxyops.get(&id) {
            Some(op) => Some(op),
            None => match self.pending_comm_hash_proxyops.get(&id) {
                Some(waiting) => Some(&waiting.op),
                None => None,
            },
        };
        match found {
            Some(op) => {
                if op.has_step_histograms() {
                    None
                } else {
                    Some(op.core.info.op_key(comm))
                }
            },
            None => None,
        }
    }

    /// Takes out the additional facts that came last.
    pub fn pop_extra(&mut self) -> (r: Option<ProxyOpExtra>)
        ensures
            r == popped_extra(old(self)@.aux).0,
            final(self)@ == (ThreadView { aux: popped_extra(old(self)@.aux).1, ..old(self)@ }),
    {
        let r: Option<ProxyOpExtra> = self.aux_msg.pop();
        assert(self@.aux =~= popped_extra(old(self)@.aux).1);
        r
    }
}

/// Replaying progress leaves early completions alone.
proof fn lemma_noted_keeps_completions(c: CtxView, id: usize, ps: Seq<PendingProgress>)
    ensures
        c.noted_all(id, ps).early_completions == c.early_completions,
    decreases ps.len(),
{
    if ps.len() > 0 {
        lemma_noted_keeps_completions(c, id, ps.drop_last());
    }
}

} // verus!
