//! What the polling daemon knows, as a mathematical value, and how each event
//! changes it.
use crate::clock::{earlier_of, instant_after, later_of, time_between, Duration, Instant};
use crate::daemon::{ControlView, InterProcessMessage, MessageView, TelemetryView, ThreadView, WaitingView};
use crate::event::{
    Group, NcclOpView, OpInfo, P2pParentView, PendingProgress, ProxyOpCore, ProxyOpExtra,
    ProxyOpInfo, ProxyOpView, Sample, StepProgress, StepProgressSource,
};
use crate::key_order::in_order;
use crate::nccl_metadata::{NcclOpKey, OpDescr};
use crate::profiler::Profiler;
use crate::views::seq_at;
use vstd::prelude::*;

verus! {

/// The sends and receives of one group that ended so far.
#[verifier::ext_equal]
pub struct GroupAccView {
    /// Transfers that were issued in the group.
    pub expected: usize,
    /// Whether the group itself ended.
    pub ended: bool,
    pub children: Seq<NcclOpView>,
    pub self_copy_size: usize,
}

impl GroupAccView {
    pub open spec fn fresh() -> GroupAccView {
        GroupAccView { expected: 0, ended: false, children: Seq::empty(), self_copy_size: 0 }
    }
}

/// What the daemon knows.
#[verifier::ext_equal]
pub struct CtxView {
    /// Operations in flight.
    pub ncclops: Map<usize, NcclOpView>,
    /// Records for the exporter, oldest first.
    pub pending: Seq<TelemetryView>,
    /// Messages for the daemons of other processes.
    pub ipc: Map<i32, Seq<InterProcessMessage>>,
    pub groups: Map<u64, GroupAccView>,
    /// Open progress markers of each operation, oldest first.
    pub active: Map<usize, Seq<StepProgress>>,
    /// Completions whose operation has not been announced yet.
    pub early_completions: Map<usize, (Instant, Instant)>,
    /// Progress whose operation has not been announced yet.
    pub early_progress: Map<usize, Seq<PendingProgress>>,
    /// Operations that completed.
    pub completed: Set<usize>,
    /// Steps that histograms are owed, oldest first.
    pub samples: Seq<Sample>,
}

// ---------------------------------------------------------------- groups

/// Whether `a` stands before `b` in a report of a group: the earlier start
/// first, and of two equal starts the lower id.
pub open spec fn not_after(a: OpInfo, b: OpInfo) -> bool {
    a.start_time < b.start_time || (a.start_time == b.start_time && a.id <= b.id)
}

/// `cs` with `c` behind every operation that does not come after it.
pub open spec fn placed(cs: Seq<NcclOpView>, c: NcclOpView) -> Seq<NcclOpView>
    decreases cs.len(),
{
    if cs.len() == 0 {
        seq![c]
    } else if not_after(cs.last().info, c.info) {
        cs.push(c)
    } else {
        placed(cs.drop_last(), c).push(cs.last())
    }
}

/// The operations of a group in the order in which they are reported.
pub open spec fn ordered(cs: Seq<NcclOpView>) -> Seq<NcclOpView>
    decreases cs.len(),
{
    if cs.len() == 0 {
        cs
    } else {
        placed(ordered(cs.drop_last()), cs.last())
    }
}

/// `cs` without the group that they were issued in.
pub open spec fn all_ungrouped(cs: Seq<NcclOpView>) -> Seq<NcclOpView> {
    Seq::new(cs.len(), |i: int| cs[i].ungrouped())
}

/// The latest end among `cs`, but not before `floor`.
pub open spec fn latest_end(cs: Seq<NcclOpView>, floor: Instant) -> Instant
    decreases cs.len(),
{
    if cs.len() == 0 {
        floor
    } else {
        match cs.last().info.end_time {
            Some(t) => later_of(latest_end(cs.drop_last(), floor), t),
            None => latest_end(cs.drop_last(), floor),
        }
    }
}

/// The ranks at the other end of `cs`.
pub open spec fn peers(cs: Seq<NcclOpView>) -> Set<i32>
    decreases cs.len(),
{
    if cs.len() == 0 {
        Set::empty()
    } else {
        match cs.last().info.descr {
            OpDescr::P2p(d) => peers(cs.drop_last()).insert(d.peer),
            OpDescr::Coll(_) => peers(cs.drop_last()),
        }
    }
}

pub open spec fn is_send(c: NcclOpView) -> bool {
    c.info.descr matches OpDescr::P2p(d) && d.is_send
}

pub open spec fn is_recv(c: NcclOpView) -> bool {
    c.info.descr matches OpDescr::P2p(d) && !d.is_send
}

/// Bytes that `cs` send.
pub open spec fn sent_bytes(cs: Seq<NcclOpView>) -> nat
    decreases cs.len(),
{
    if cs.len() == 0 {
        0
    } else {
        sent_bytes(cs.drop_last()) + if is_send(cs.last()) {
            cs.last().info.byte_count as nat
        } else {
            0
        }
    }
}

/// `n`, or the largest count that can be held.
pub open spec fn held_count(n: nat) -> usize {
    if n <= usize::MAX {
        n as usize
    } else {
        usize::MAX
    }
}

/// What a group is called: an exchange among several peers, an exchange with
/// one, or transfers in one direction.
pub open spec fn group_name(cs: Seq<NcclOpView>) -> &'static str {
    let sends = exists|i: int| 0 <= i < cs.len() && is_send(#[trigger] cs[i]);
    let recvs = exists|i: int| 0 <= i < cs.len() && is_recv(#[trigger] cs[i]);
    if peers(cs).len() >= 2 {
        "all_to_all"
    } else if sends && recvs {
        "sendrecv"
    } else if sends {
        "send"
    } else {
        "recv"
    }
}

/// The report of a group with the members `children`.
pub open spec fn group_report(
    gid: u64,
    children: Seq<NcclOpView>,
    partial: bool,
    self_copy_size: usize,
) -> P2pParentView {
    let cs = all_ungrouped(ordered(children));
    P2pParentView {
        group_id: gid,
        rank: cs[0].info.rank,
        comm_hash: cs[0].info.comm_hash,
        start_time: cs[0].info.start_time,
        end_time: latest_end(cs, cs[0].info.start_time),
        size: held_count(sent_bytes(cs)),
        n_children: cs.len() as usize,
        n_peers: peers(cs).len() as usize,
        name: group_name(cs),
        children: cs,
        partial,
        self_copy_size,
    }
}

// ------------------------------------------------------------- reclaiming

/// What becomes of an operation that a sweep looks at.
#[derive(Clone, Copy, Debug, PartialEq, Eq, Structural)]
pub enum ReclaimAction {
    Keep,
    Reclaim,
    Stop,
}

/// How a sweep over the operations in flight decides.
#[derive(Clone, Copy, Debug, PartialEq, Eq, Structural)]
pub enum ReclaimPolicy {
    /// Reclaim every operation.
    All,
    /// Look at no more than one operation beyond `batch`; reclaim those that
    /// ended more than `comp_delay` ago or started more than `timeout` ago.
    Aged { batch: usize, comp_delay: Duration, timeout: Duration },
    /// Reclaim the `n` operations that were announced first.
    Oldest { n: usize },
}

/// Whether an operation is old enough to be reclaimed.
pub open spec fn is_aged(op: OpInfo, comp_delay: Duration, timeout: Duration, now: Instant) -> bool {
    ||| op.end_time matches Some(t) && time_between(t, now) > comp_delay
    ||| time_between(op.start_time, now) > timeout
}

impl ReclaimPolicy {
    /// The decision on `op`, the `n`-th operation of the sweep.
    pub open spec fn decision(self, op: OpInfo, n: nat, now: Instant) -> ReclaimAction {
        match self {
            ReclaimPolicy::All => ReclaimAction::Reclaim,
            ReclaimPolicy::Aged { batch, comp_delay, timeout } => if n > batch {
                ReclaimAction::Stop
            } else if is_aged(op, comp_delay, timeout, now) {
                ReclaimAction::Reclaim
            } else {
                ReclaimAction::Keep
            },
            ReclaimPolicy::Oldest { n: most } => if n < most {
                ReclaimAction::Reclaim
            } else {
                ReclaimAction::Stop
            },
        }
    }
}

impl CtxView {
    pub open spec fn fresh() -> CtxView {
        CtxView {
            ncclops: Map::empty(),
            pending: Seq::empty(),
            ipc: Map::empty(),
            groups: Map::empty(),
            active: Map::empty(),
            early_completions: Map::empty(),
            early_progress: Map::empty(),
            completed: Set::empty(),
            samples: Seq::empty(),
        }
    }

    pub open spec fn sampled(self, more: Seq<Sample>) -> CtxView {
        CtxView { samples: self.samples + more, ..self }
    }

    /// Nothing is owed to histograms any more.
    pub open spec fn samples_gone(self) -> CtxView {
        CtxView { samples: Seq::empty(), ..self }
    }

    pub open spec fn reported(self, t: TelemetryView) -> CtxView {
        CtxView { pending: self.pending.push(t), ..self }
    }

    pub open spec fn without_op(self, id: usize) -> CtxView {
        CtxView { ncclops: self.ncclops.remove(id), ..self }
    }

    /// The operation `id`, if it is in flight, saw a child event.
    pub open spec fn touched(self, id: usize, start: Instant, end: Option<Instant>) -> CtxView {
        if self.ncclops.contains_key(id) {
            CtxView {
                ncclops: self.ncclops.insert(id, self.ncclops[id].touched(start, end)),
                ..self
            }
        } else {
            self
        }
    }

    // ------------------------------------------------------------ progress

    /// Whether a marker of this source and peer is open.
    pub open spec fn has_marker(
        self,
        parent: usize,
        source: StepProgressSource,
        peer: u32,
    ) -> bool {
        exists|i: int|
            0 <= i < seq_at(self.active, parent).len() && (#[trigger] seq_at(
                self.active,
                parent,
            )[i]).source == source && seq_at(self.active, parent)[i].peer == peer
    }

    /// Whether early progress of this source and peer waits for `parent`.
    pub open spec fn has_early(self, parent: usize, source: StepProgressSource, peer: u32) -> bool {
        exists|i: int|
            0 <= i < seq_at(self.early_progress, parent).len() && (#[trigger] seq_at(
                self.early_progress,
                parent,
            )[i]).source == source && seq_at(self.early_progress, parent)[i].peer == peer
    }

    /// Progress of `parent`. Only the first report of a source and peer is
    /// kept, none is kept of an operation that completed, and reports of the
    /// end of a single step say nothing of the operation.
    pub open spec fn noted(self, parent: usize, p: PendingProgress) -> CtxView {
        if self.completed.contains(parent) || p.stage is Complete || self.has_marker(
            parent,
            p.source,
            p.peer,
        ) {
            self
        } else if self.ncclops.contains_key(parent) {
            let marker = StepProgress::of_parent(self.ncclops[parent].info, p);
            CtxView {
                active: self.active.insert(parent, seq_at(self.active, parent).push(marker)),
                ..self.reported(TelemetryView::StepProgress(marker))
            }
        } else if self.has_early(parent, p.source, p.peer) {
            self
        } else {
            CtxView {
                early_progress: self.early_progress.insert(
                    parent,
                    seq_at(self.early_progress, parent).push(p),
                ),
                ..self
            }
        }
    }

    pub open spec fn noted_all(self, parent: usize, ps: Seq<PendingProgress>) -> CtxView
        decreases ps.len(),
    {
        if ps.len() == 0 {
            self
        } else {
            self.noted_all(parent, ps.drop_last()).noted(parent, ps.last())
        }
    }

    /// Every open marker of `parent` is closed at `t` and reported so.
    pub open spec fn finished(self, parent: usize, t: Instant) -> CtxView {
        CtxView {
            pending: self.pending + closings(seq_at(self.active, parent), t),
            active: self.active.remove(parent),
            ..self
        }
    }

    /// The kernel of `parent` ran from `start` to `end`. Of an operation that
    /// has not been announced the span is remembered; of one that completed
    /// before nothing changes.
    pub open spec fn completed_op(self, parent: usize, start: Instant, end: Instant) -> CtxView {
        if self.completed.contains(parent) {
            self
        } else if self.ncclops.contains_key(parent) {
            let op = self.ncclops[parent].touched(start, Some(end));
            CtxView {
                ncclops: self.ncclops.insert(parent, op),
                completed: self.completed.insert(parent),
                ..self
            }.finished(parent, end).reported(TelemetryView::NcclOpComplete(op))
        } else {
            CtxView {
                early_completions: self.early_completions.insert(
                    parent,
                    if self.early_completions.contains_key(parent) {
                        let (s, e) = self.early_completions[parent];
                        (earlier_of(s, start), later_of(e, end))
                    } else {
                        (start, end)
                    },
                ),
                ..self
            }
        }
    }

    /// An operation was announced. Progress and a completion that came ahead
    /// of it follow now, in this order.
    pub open spec fn announced(self, op: NcclOpView) -> CtxView {
        let id = op.info.id;
        let listed = CtxView {
            ncclops: self.ncclops.insert(id, op),
            early_progress: self.early_progress.remove(id),
            ..self.counted(op.info)
        }.reported(TelemetryView::NcclOpIssued(op));
        let replayed = listed.noted_all(id, seq_at(self.early_progress, id));
        if self.early_completions.contains_key(id) {
            let (start, end) = self.early_completions[id];
            CtxView {
                early_completions: replayed.early_completions.remove(id),
                ..replayed
            }.completed_op(id, start, end)
        } else {
            replayed
        }
    }

    // -------------------------------------------------------------- groups

    pub open spec fn group(self, gid: u64) -> GroupAccView {
        if self.groups.contains_key(gid) {
            self.groups[gid]
        } else {
            GroupAccView::fresh()
        }
    }

    /// A transfer counts for the group that it is issued in.
    pub open spec fn counted(self, op: OpInfo) -> CtxView {
        match op.parent_group_id {
            Some(gid) if op.spec_is_p2p() => {
                let acc = self.group(gid);
                CtxView {
                    groups: self.groups.insert(
                        gid,
                        GroupAccView { expected: held_count((acc.expected + 1) as nat), ..acc },
                    ),
                    ..self
                }
            },
            _ => self,
        }
    }

    /// Whether a transfer of the group is in flight.
    pub open spec fn has_inflight(self, gid: u64) -> bool {
        exists|id: usize| #[trigger]
            self.ncclops.contains_key(id) && self.ncclops[id].info.spec_is_p2p()
                && self.ncclops[id].info.parent_group_id == Some(gid)
    }

    /// Whether a group is to be reported now: all its members ended, or the
    /// report is forced and there is something to report.
    pub open spec fn group_is_ready(self, gid: u64, force: bool) -> bool {
        &&& self.groups.contains_key(gid)
        &&& self.groups[gid].children.len() > 0
        &&& force || (self.groups[gid].ended && self.groups[gid].children.len()
            >= self.groups[gid].expected && !self.has_inflight(gid))
    }

    pub open spec fn group_tried(self, gid: u64, force: bool) -> CtxView {
        if self.group_is_ready(gid, force) {
            let acc = self.groups[gid];
            CtxView { groups: self.groups.remove(gid), ..self }.reported(
                TelemetryView::P2pParent(
                    group_report(
                        gid,
                        acc.children,
                        force && (acc.children.len() < acc.expected || !acc.ended),
                        acc.self_copy_size,
                    ),
                ),
            )
        } else {
            self
        }
    }

    /// A group ended.
    pub open spec fn group_ended(self, g: Group, track_group: bool) -> CtxView {
        let acc = self.group(g.id);
        let tried = CtxView {
            groups: self.groups.insert(
                g.id,
                GroupAccView {
                    ended: true,
                    self_copy_size: if acc.self_copy_size >= g.self_copy_size {
                        acc.self_copy_size
                    } else {
                        g.self_copy_size
                    },
                    ..acc
                },
            ),
            ..self
        }.group_tried(g.id, false);
        if track_group {
            tried.reported(TelemetryView::Group(g))
        } else {
            tried
        }
    }

    /// Every group of `gids` that has members is reported.
    pub open spec fn groups_flushed(self, gids: Seq<u64>) -> CtxView
        decreases gids.len(),
    {
        if gids.len() == 0 {
            self
        } else {
            self.groups_flushed(gids.drop_last()).group_tried(gids.last(), true)
        }
    }

    /// Every group that has members is reported, in ascending order.
    pub open spec fn all_groups_flushed(self) -> CtxView {
        self.groups_flushed(in_order(self.groups.dom()))
    }

    // ---------------------------------------------------------- reclaiming

    /// An operation left the operations in flight. A collective is reported; a
    /// transfer joins its group, or is reported as a group of its own.
    pub open spec fn reclaimed(self, op: NcclOpView, now: Instant) -> CtxView {
        let end = match op.info.end_time {
            Some(t) => t,
            None => now,
        };
        let closed = self.finished(op.info.id, end);
        if !op.info.spec_is_p2p() {
            closed.reported(TelemetryView::NcclOp(op))
        } else {
            match op.info.parent_group_id {
                Some(gid) => {
                    let acc = closed.group(gid);
                    CtxView {
                        groups: closed.groups.insert(
                            gid,
                            GroupAccView { children: acc.children.push(op), ..acc },
                        ),
                        ..closed
                    }.group_tried(gid, false)
                },
                None => closed.reported(
                    TelemetryView::P2pParent(group_report(0, seq![op], false, 0)),
                ),
            }
        }
    }

    /// A sweep over the operations `keys`, of which `n` others were looked at
    /// and `kept` are to stay. While it runs, the operations in flight are
    /// those that it has not come to yet.
    pub open spec fn swept_from(
        self,
        kept: Map<usize, NcclOpView>,
        keys: Seq<usize>,
        n: nat,
        policy: ReclaimPolicy,
        now: Instant,
    ) -> CtxView
        decreases keys.len(),
    {
        if keys.len() == 0 {
            CtxView { ncclops: self.ncclops.union_prefer_right(kept), ..self }
        } else {
            let op = self.ncclops[keys[0]];
            match policy.decision(op.info, n, now) {
                ReclaimAction::Keep => self.without_op(keys[0]).swept_from(
                    kept.insert(keys[0], op),
                    keys.drop_first(),
                    n + 1,
                    policy,
                    now,
                ),
                ReclaimAction::Reclaim => self.without_op(keys[0]).reclaimed(op, now).swept_from(
                    kept,
                    keys.drop_first(),
                    n + 1,
                    policy,
                    now,
                ),
                ReclaimAction::Stop => CtxView {
                    ncclops: self.ncclops.union_prefer_right(kept),
                    ..self
                },
            }
        }
    }

    /// A sweep over all operations in flight, in ascending order.
    pub open spec fn swept(self, policy: ReclaimPolicy, now: Instant) -> CtxView {
        self.swept_from(Map::empty(), in_order(self.ncclops.dom()), 0, policy, now)
    }

    // ---------------------------------------------------- proxy operations

    pub open spec fn ipc_sent(self, pid: i32, msg: InterProcessMessage) -> CtxView {
        CtxView { ipc: self.ipc.insert(pid, seq_at(self.ipc, pid).push(msg)), ..self }
    }

    /// A proxy operation started. Its operation hears of it, here or in the
    /// process that it belongs to.
    pub open spec fn proxyop_started(
        self,
        thread_idx: usize,
        info: ProxyOpInfo,
        time: Instant,
        pid: i32,
    ) -> CtxView {
        match info.parent {
            Some(parent) => if info.pid == pid {
                self.touched(parent, time, None)
            } else {
                self.ipc_sent(
                    info.pid,
                    InterProcessMessage::ProxyOpStart(parent, pid, thread_idx, info.id, time),
                )
            },
            None => self,
        }
    }

    /// A proxy operation ended. Where it is to be recorded, it is attached to
    /// an operation of this process, or reported on its own.
    pub open spec fn proxyop_ended(
        self,
        end: Instant,
        info: ProxyOpInfo,
        ops: Seq<ProxyOpView>,
        send_ipc: bool,
        record: bool,
        pid: i32,
    ) -> CtxView {
        let listed = if record {
            self.pending + Seq::new(ops.len(), |i: int| TelemetryView::ProxyOp(ops[i]))
        } else {
            self.pending
        };
        match info.parent {
            Some(parent) if info.pid == pid => {
                if self.ncclops.contains_key(parent) {
                    let op = self.ncclops[parent].touched(end, Some(end));
                    CtxView {
                        ncclops: self.ncclops.insert(
                            parent,
                            if record {
                                op.with_proxyops(ops)
                            } else {
                                op
                            },
                        ),
                        ..self
                    }
                } else {
                    self
                }
            },
            Some(parent) if send_ipc => CtxView { pending: listed, ..self }.ipc_sent(
                info.pid,
                InterProcessMessage::ProxyOpEnd(parent, end),
            ),
            _ => CtxView { pending: listed, ..self },
        }
    }

    /// A proxy operation that waited for its communicator is let go.
    pub open spec fn waiting_finalized(self, op: ProxyOpView, p: Profiler, now: Instant) -> CtxView {
        self.proxyop_ended(
            op.end_or(now),
            op.core.info,
            seq![op],
            false,
            records_proxyops(p),
            p.pid,
        )
    }
}

/// The reports that close `markers` at `t`.
pub open spec fn closings(markers: Seq<StepProgress>, t: Instant) -> Seq<TelemetryView> {
    Seq::new(markers.len(), |i: int| TelemetryView::StepProgress(markers[i].closed_at(t)))
}

/// Whether finished proxy operations are recorded. The gates decide, so that
/// recording can be turned on while the process runs.
pub open spec fn records_proxyops(p: Profiler) -> bool {
    p.gates@.track_proxyop || p.gates@.track_steps
}

/// Whether the steps of a proxy operation are aggregated: its operation must
/// be known, and belong to this process unless others are followed too.
pub open spec fn aggregates(info: ProxyOpInfo, p: Profiler) -> bool {
    info.parent is Some && p.gates@.aggregate_steps && (info.pid == p.pid
        || p.gates@.track_interprocess_proxyop)
}

/// Whether an ended proxy operation waits for another process to name its
/// communicator.
pub open spec fn waits_for_hash(op: ProxyOpView, p: Profiler) -> bool {
    p.config.track_interprocess_proxyop && op.core.aggregate_steps && op.core.info.pid != p.pid
        && op.core.info.parent is Some && op.histograms is None
}

/// The latest additional facts, and what is left of `aux` without them.
pub open spec fn popped_extra(aux: Seq<ProxyOpExtra>) -> (Option<ProxyOpExtra>, Seq<ProxyOpExtra>) {
    if aux.len() == 0 {
        (None, aux)
    } else {
        (Some(aux.last()), aux.drop_last())
    }
}

/// The context and the state of the thread whose messages are handled.
pub type Pair = (CtxView, ThreadView);

/// The connection whose histograms a new proxy operation needs: one of this
/// process, whose steps are aggregated and whose operation is in flight.
pub open spec fn histogram_key(c: CtxView, info: ProxyOpInfo, p: Profiler) -> Option<NcclOpKey> {
    match info.parent {
        Some(parent) if aggregates(info, p) && info.pid == p.pid && c.ncclops.contains_key(
            parent,
        ) => Some(info.spec_op_key(c.ncclops[parent].info.comm_hash)),
        _ => None,
    }
}

/// The key for which a message needs histograms, if it does.
pub open spec fn message_key(c: CtxView, t: ThreadView, m: MessageView, p: Profiler) -> Option<
    NcclOpKey,
> {
    match m {
        MessageView::StepBatch(info, _, _) if !t.proxyops.contains_key(info.id) => histogram_key(
            c,
            info,
            p,
        ),
        _ => None,
    }
}

/// A proxy operation is followed from now on; `answer` are the histograms that
/// were found for it.
pub open spec fn proxyop_added(
    s: Pair,
    info: ProxyOpInfo,
    start: Instant,
    p: Profiler,
    answer: Option<Seq<u64>>,
) -> Pair {
    let op = ProxyOpView {
        core: ProxyOpCore::started(info, start, p.gates@.track_steps, aggregates(info, p)),
        steps: Seq::empty(),
        unsampled: Seq::empty(),
        histograms: if histogram_key(s.0, info, p) is Some {
            answer
        } else {
            None
        },
    };
    (
        s.0.proxyop_started(s.1.idx, info, start, p.pid),
        ThreadView { proxyops: s.1.proxyops.insert(info.id, op), ..s.1 },
    )
}

/// An ended proxy operation, already taken out of the thread's state: it gets
/// the additional facts that came ahead, and waits or is let go.
pub open spec fn proxyop_closed(
    s: Pair,
    id: u32,
    info: ProxyOpInfo,
    op: ProxyOpView,
    p: Profiler,
    now: Instant,
) -> Pair {
    let (extra, aux) = popped_extra(s.1.aux);
    let whole = op.with_extra(extra);
    let t = ThreadView { aux, ..s.1 };
    if waits_for_hash(whole, p) {
        (
            s.0.proxyop_ended(
                whole.end_or(now),
                info,
                Seq::empty(),
                true,
                records_proxyops(p),
                p.pid,
            ),
            ThreadView { waiting: t.waiting.insert(id, WaitingView { op: whole, since: now }), ..t },
        )
    } else {
        (
            s.0.proxyop_ended(
                whole.end_or(now),
                info,
                seq![whole],
                true,
                records_proxyops(p),
                p.pid,
            ),
            t,
        )
    }
}

/// Steps of a proxy operation, the last ones where `is_last`.
pub open spec fn batch_handled(
    s: Pair,
    info: ProxyOpInfo,
    steps: Seq<crate::event::EventStep>,
    is_last: bool,
    p: Profiler,
    now: Instant,
    answer: Option<Seq<u64>>,
) -> Pair {
    let init = p.spec_init_instant();
    let known = if s.1.proxyops.contains_key(info.id) {
        s
    } else {
        proxyop_added(s, info, steps[0].start_at(init), p, answer)
    };
    let before = known.1.proxyops[info.id];
    let op = before.with_steps(steps, init);
    let c = known.0.sampled(before.samples_of(steps));
    if is_last {
        proxyop_closed(
            (c, ThreadView { proxyops: known.1.proxyops.remove(info.id), ..known.1 }),
            info.id,
            info,
            op,
            p,
            now,
        )
    } else {
        (c, ThreadView { proxyops: known.1.proxyops.insert(info.id, op), ..known.1 })
    }
}

/// The effect of one message. `answer` are the histograms that the exporter
/// has for [`message_key`].
pub open spec fn message_handled(
    s: Pair,
    m: MessageView,
    p: Profiler,
    now: Instant,
    answer: Option<Seq<u64>>,
) -> Pair {
    match m {
        MessageView::Group(g) => (s.0.group_ended(g, p.config.track_group), s.1),
        MessageView::NcclOp(op) => (s.0.announced(op), s.1),
        MessageView::ProxyOpLite(start, dur, info) => (
            s.0.proxyop_started(s.1.idx, info, start, p.pid).proxyop_ended(
                instant_after(start, dur),
                info,
                Seq::empty(),
                true,
                records_proxyops(p),
                p.pid,
            ),
            s.1,
        ),
        MessageView::ProxyOpExtra(extra) => (s.0, ThreadView { aux: s.1.aux.push(extra), ..s.1 }),
        MessageView::ProxyOp(id) => if s.1.proxyops.contains_key(id) {
            let op = s.1.proxyops[id];
            proxyop_closed(
                (s.0, ThreadView { proxyops: s.1.proxyops.remove(id), ..s.1 }),
                id,
                op.core.info,
                op,
                p,
                now,
            )
        } else {
            (s.0, ThreadView { aux: popped_extra(s.1.aux).1, ..s.1 })
        },
        MessageView::StepBatch(info, steps, is_last) => batch_handled(
            s,
            info,
            steps,
            is_last,
            p,
            now,
            answer,
        ),
        MessageView::KernelCh(start, dur, parent) => (
            s.0.completed_op(parent, start, instant_after(start, dur)),
            s.1,
        ),
        MessageView::KernelStep(step, parent) => (
            if s.0.ncclops.contains_key(parent) {
                CtxView {
                    ncclops: s.0.ncclops.insert(
                        parent,
                        s.0.ncclops[parent].with_kernel_step(step),
                    ),
                    ..s.0
                }
            } else {
                s.0
            },
            s.1,
        ),
        MessageView::StepProgress(parent, progress) => (s.0.noted(parent, progress), s.1),
        MessageView::CommOpen(comm) => (s.0.reported(TelemetryView::CommOpen(comm)), s.1),
        MessageView::CommInit(membership) => (
            s.0.reported(TelemetryView::CommInit(membership)),
            s.1,
        ),
        MessageView::CommClose(hash) => (s.0.reported(TelemetryView::CommClose(hash)), s.1),
    }
}

/// Whether the first step of a batch is there where it is needed: it gives a
/// proxy operation that is not followed yet its start.
pub open spec fn batch_is_usable(known: Set<u32>, m: MessageView) -> bool {
    m matches MessageView::StepBatch(info, steps, _) ==> known.contains(info.id) || steps.len() > 0
}

// ------------------------------------------------- messages of other daemons

/// The proxy operation `id` of a thread, in flight or waiting.
pub open spec fn find_proxyop(t: ThreadView, id: u32) -> Option<ProxyOpView> {
    if t.proxyops.contains_key(id) {
        Some(t.proxyops[id])
    } else if t.waiting.contains_key(id) {
        Some(t.waiting[id].op)
    } else {
        None
    }
}

/// Whether a message of another daemon names a thread of this process, where
/// it names one.
pub open spec fn ipc_is_addressed(n_threads: nat, m: InterProcessMessage) -> bool {
    m matches InterProcessMessage::ReplyProxyOpComm(idx, _, _) ==> idx < n_threads
}

/// The key for which a message of another daemon needs histograms.
pub open spec fn ipc_key(ts: Seq<ControlView>, m: InterProcessMessage, p: Profiler) -> Option<
    NcclOpKey,
> {
    match m {
        InterProcessMessage::ReplyProxyOpComm(idx, id, comm) if p.config.aggregate_steps =>
        match find_proxyop(ts[idx as int].state, id) {
            Some(op) if op.histograms is None => Some(op.core.info.spec_op_key(comm)),
            _ => None,
        },
        _ => None,
    }
}

/// The thread after the histograms `answer` were found for the proxy operation
/// `id`.
pub open spec fn histograms_set(t: ThreadView, id: u32, answer: Option<Seq<u64>>) -> ThreadView {
    match (find_proxyop(t, id), answer) {
        (Some(op), Some(h)) if op.histograms is None => {
            let set = op.with_histograms(h);
            if t.proxyops.contains_key(id) {
                ThreadView { proxyops: t.proxyops.insert(id, set), ..t }
            } else {
                ThreadView {
                    waiting: t.waiting.insert(
                        id,
                        WaitingView { op: set, since: t.waiting[id].since },
                    ),
                    ..t
                }
            }
        },
        _ => t,
    }
}

/// What histograms are owed once `answer` were found for the proxy operation
/// `id`: the steps that waited for them.
pub open spec fn samples_released(t: ThreadView, id: u32, answer: Option<Seq<u64>>) -> Seq<Sample> {
    match (find_proxyop(t, id), answer) {
        (Some(op), Some(h)) if op.histograms is None => op.with_histograms(h).samples_of(
            op.unsampled,
        ),
        _ => Seq::empty(),
    }
}

/// The effect of a message of another daemon. `answer` are the histograms that
/// the exporter has for [`ipc_key`].
pub open spec fn ipc_handled(
    c: CtxView,
    ts: Seq<ControlView>,
    m: InterProcessMessage,
    p: Profiler,
    now: Instant,
    answer: Option<Seq<u64>>,
) -> (CtxView, Seq<ControlView>) {
    match m {
        InterProcessMessage::ProxyOpStart(handle, pid, thread_idx, id, time) => (
            if c.ncclops.contains_key(handle) {
                c.touched(handle, time, None).ipc_sent(
                    pid,
                    InterProcessMessage::ReplyProxyOpComm(
                        thread_idx,
                        id,
                        c.ncclops[handle].info.comm_hash,
                    ),
                )
            } else {
                c
            },
            ts,
        ),
        InterProcessMessage::ProxyOpEnd(handle, time) => (
            c.touched(handle, time, Some(time)),
            ts,
        ),
        InterProcessMessage::ReplyProxyOpComm(idx, id, comm) => if p.config.aggregate_steps {
            let thread = ts[idx as int];
            let t = histograms_set(thread.state, id, answer);
            let d = c.sampled(samples_released(thread.state, id, answer));
            if t.waiting.contains_key(id) {
                let state = ThreadView { waiting: t.waiting.remove(id), ..t };
                (
                    d.waiting_finalized(t.waiting[id].op, p, now),
                    ts.update(idx as int, ControlView { state, ..thread }),
                )
            } else {
                (d, ts.update(idx as int, ControlView { state: t, ..thread }))
            }
        } else {
            (c, ts)
        },
    }
}

} // verus!
