//! The events that the profiler callbacks report and that the daemon follows:
//! NCCL operations, proxy operations, groups and their progress markers.
use crate::clock::{add_nanos, earlier_of, elapsed, instant_after, later_of, max_instant};
use crate::clock::{min_instant, time_between, Duration, Instant};
use crate::nccl_metadata::{NcclOpKey, OpDescr, OpKind};
use crate::views::{view_seq, view_seq_push};
use vstd::prelude::*;

verus! {

/// Which callback reported a progress marker.
#[derive(Clone, Copy, Debug, PartialEq, Eq, Structural)]
pub enum StepProgressSource {
    Proxy,
    Kernel,
    KernelCh,
}

#[derive(Clone, Copy, Debug, PartialEq, Eq, Structural)]
pub enum StepProgressStage {
    Posted,
    Complete,
}

/// A progress report as it comes from a callback, before the operation that
/// it belongs to is looked up.
#[derive(Clone, Copy, Debug, PartialEq, Eq, Structural)]
pub struct PendingProgress {
    pub source: StepProgressSource,
    pub stage: StepProgressStage,
    pub observed_at: Instant,
    pub is_send: bool,
    pub peer: u32,
    pub channel_id: u8,
    pub step: i64,
    pub size: usize,
}

/// A progress marker together with what identifies its operation.
#[derive(Clone, Copy, Debug)]
pub struct StepProgress {
    pub source: StepProgressSource,
    pub stage: StepProgressStage,
    pub observed_at: Instant,
    pub parent_start: Instant,
    pub rank: usize,
    pub comm_hash: u64,
    /// Sequence number of a collective; 0 for point-to-point transfers.
    pub seq_num: i64,
    pub parent_group_id: Option<u64>,
    pub parent_name: &'static str,
    pub is_send: bool,
    pub peer: u32,
    pub channel_id: u8,
    pub step: i64,
    pub size: usize,
}

impl StepProgress {
    pub open spec fn of_parent(op: OpInfo, p: PendingProgress) -> StepProgress {
        StepProgress {
            source: p.source,
            stage: p.stage,
            observed_at: p.observed_at,
            parent_start: op.start_time,
            rank: op.rank,
            comm_hash: op.comm_hash,
            seq_num: match op.descr {
                OpDescr::Coll(c) => c.seq_num as i64,
                OpDescr::P2p(_) => 0,
            },
            parent_group_id: op.parent_group_id,
            parent_name: match op.descr {
                OpDescr::Coll(c) => c.op_type.spec_name(),
                OpDescr::P2p(d) => d.spec_name(),
            },
            is_send: p.is_send,
            peer: p.peer,
            channel_id: p.channel_id,
            step: p.step,
            size: p.size,
        }
    }

    /// The marker that closes this one.
    pub open spec fn closed_at(self, t: Instant) -> StepProgress {
        StepProgress { stage: StepProgressStage::Complete, observed_at: t, ..self }
    }

    /// Ties a report to the operation that it belongs to.
    pub fn from_parent(op: &OpInfo, p: &PendingProgress) -> (r: StepProgress)
        ensures
            r == StepProgress::of_parent(*op, *p),
    {
        let seq_num: i64 = match op.descr {
            OpDescr::Coll(c) => c.seq_num as i64,
            OpDescr::P2p(_) => 0,
        };
        let parent_name: &'static str = match op.descr {
            OpDescr::Coll(c) => c.op_type.name(),
            OpDescr::P2p(d) => d.name(),
        };
        StepProgress {
            source: p.source,
            stage: p.stage,
            observed_at: p.observed_at,
            parent_start: op.start_time,
            rank: op.rank,
            comm_hash: op.comm_hash,
            seq_num,
            parent_group_id: op.parent_group_id,
            parent_name,
            is_send: p.is_send,
            peer: p.peer,
            channel_id: p.channel_id,
            step: p.step,
            size: p.size,
        }
    }
}

/// One network transfer of a proxy operation. Times count from the start of
/// the profiler.
#[derive(Clone, Copy, Debug, PartialEq, Eq, Structural)]
pub struct EventStep {
    pub step: i64,
    pub size: usize,
    pub start_time: u64,
    pub fifo_wait_dur_ns: Option<u64>,
    pub dur_ns: u64,
}

impl EventStep {
    pub open spec fn start_at(self, init: Instant) -> Instant {
        instant_after(init, self.start_time)
    }

    pub open spec fn end_at(self, init: Instant) -> Instant {
        instant_after(instant_after(init, self.start_time), self.dur_ns)
    }

    pub fn start_instant(&self, init: Instant) -> (r: Instant)
        ensures
            r == self.start_at(init),
    {
        add_nanos(init, self.start_time)
    }

    pub fn end_instant(&self, init: Instant) -> (r: Instant)
        ensures
            r == self.end_at(init),
    {
        add_nanos(add_nanos(init, self.start_time), self.dur_ns)
    }
}

/// One step of the GPU kernel.
#[derive(Clone, Copy, Debug, PartialEq, Eq, Structural)]
pub struct KernelEventStep {
    pub channel_id: u8,
    pub peer: i32,
    pub is_send: bool,
    pub step: i64,
    pub size: usize,
    pub start_ns: u64,
    pub ready_ns: u64,
    pub end_ns: u64,
}

/// Additional facts of a proxy operation, reported apart from its steps.
#[derive(Clone, Copy, Debug, PartialEq, Eq, Structural)]
pub struct ProxyOpExtra {
    pub n_steps: u32,
    pub trans_size: usize,
}

/// Identity of a proxy operation.
#[derive(Clone, Copy, Debug, PartialEq, Eq, Structural)]
pub struct ProxyOpInfo {
    pub id: u32,
    /// Process whose operation this proxy operation serves.
    pub pid: i32,
    pub rank: usize,
    pub peer: i32,
    pub channel_id: u8,
    pub is_send: bool,
    /// The NCCL operation that it serves, where that is known.
    pub parent: Option<usize>,
}

impl ProxyOpInfo {
    pub open spec fn spec_op_key(self, comm_hash: u64) -> NcclOpKey {
        NcclOpKey { comm_hash, local_rank: self.rank, kind: OpKind::Net(self.peer) }
    }

    /// Key of the connection over which this operation runs.
    pub fn op_key(&self, comm_hash: u64) -> (r: NcclOpKey)
        ensures
            r == self.spec_op_key(comm_hash),
    {
        NcclOpKey { comm_hash, local_rank: self.rank, kind: OpKind::Net(self.peer) }
    }
}

/// The part of a proxy operation that has a fixed size.
#[derive(Clone, Copy, Debug, PartialEq, Eq, Structural)]
pub struct ProxyOpCore {
    pub info: ProxyOpInfo,
    pub start_time: Instant,
    pub end_time: Option<Instant>,
    pub track_steps: bool,
    pub aggregate_steps: bool,
    pub extra: Option<ProxyOpExtra>,
}

impl ProxyOpCore {
    pub open spec fn started(
        info: ProxyOpInfo,
        start_time: Instant,
        track_steps: bool,
        aggregate_steps: bool,
    ) -> ProxyOpCore {
        ProxyOpCore { info, start_time, end_time: None, track_steps, aggregate_steps, extra: None }
    }
}

/// A proxy operation in flight.
#[derive(Debug)]
pub struct ProxyOp {
    pub core: ProxyOpCore,
    /// The single steps, where they are tracked.
    pub steps: Vec<EventStep>,
    /// Steps that are aggregated and wait for their histograms.
    pub unsampled: Vec<EventStep>,
    /// Handles of the latency histograms that receive the aggregated steps.
    pub histograms: Option<Vec<u64>>,
}

/// The value of a proxy operation.
#[verifier::ext_equal]
pub struct ProxyOpView {
    pub core: ProxyOpCore,
    pub steps: Seq<EventStep>,
    pub unsampled: Seq<EventStep>,
    pub histograms: Option<Seq<u64>>,
}

impl View for ProxyOp {
    type V = ProxyOpView;

    open spec fn view(&self) -> ProxyOpView {
        ProxyOpView {
            core: self.core,
            steps: self.steps@,
            unsampled: self.unsampled@,
            histograms: match self.histograms {
                Some(h) => Some(h@),
                None => None,
            },
        }
    }
}

/// A step for a histogram: the handle of the histogram, and the step.
pub type Sample = (u64, EventStep);

/// What the histograms `handles` are owed for `steps`: each step in turn goes to
/// all of them.
pub open spec fn samples(handles: Seq<u64>, steps: Seq<EventStep>) -> Seq<Sample>
    decreases steps.len(),
{
    if steps.len() == 0 {
        Seq::empty()
    } else {
        samples(handles, steps.drop_last()) + Seq::new(
            handles.len(),
            |i: int| (handles[i], steps.last()),
        )
    }
}

impl ProxyOpView {
    /// What histograms are owed for more steps: nothing unless steps are
    /// aggregated and their histograms are known.
    pub open spec fn samples_of(self, steps: Seq<EventStep>) -> Seq<Sample> {
        match self.histograms {
            Some(h) if self.core.aggregate_steps => samples(h, steps),
            _ => Seq::empty(),
        }
    }

    /// The operation once its histograms are known. The steps that waited for
    /// them are theirs.
    pub open spec fn with_histograms(self, handles: Seq<u64>) -> ProxyOpView {
        ProxyOpView { histograms: Some(handles), unsampled: Seq::empty(), ..self }
    }

    /// One more step: the operation reaches back to the start of the earliest
    /// step and ends with the latest one added. The step itself is kept where
    /// single steps are tracked, and waits where steps are aggregated and their
    /// histograms are not known yet.
    pub open spec fn with_step(self, step: EventStep, init: Instant) -> ProxyOpView {
        ProxyOpView {
            core: ProxyOpCore {
                start_time: earlier_of(self.core.start_time, step.start_at(init)),
                end_time: Some(step.end_at(init)),
                ..self.core
            },
            steps: if self.core.track_steps {
                self.steps.push(step)
            } else {
                self.steps
            },
            unsampled: if self.core.aggregate_steps && self.histograms is None {
                self.unsampled.push(step)
            } else {
                self.unsampled
            },
            histograms: self.histograms,
        }
    }

    pub open spec fn with_steps(self, steps: Seq<EventStep>, init: Instant) -> ProxyOpView
        decreases steps.len(),
    {
        if steps.len() == 0 {
            self
        } else {
            self.with_steps(steps.drop_last(), init).with_step(steps.last(), init)
        }
    }

    pub open spec fn with_extra(self, extra: Option<ProxyOpExtra>) -> ProxyOpView {
        match extra {
            Some(e) => ProxyOpView { core: ProxyOpCore { extra: Some(e), ..self.core }, ..self },
            None => self,
        }
    }

    /// The end of the operation, `now` where no step has closed it.
    pub open spec fn end_or(self, now: Instant) -> Instant {
        match self.core.end_time {
            Some(t) => t,
            None => now,
        }
    }
}

impl ProxyOp {
    pub fn from_info(info: &ProxyOpInfo, start_time: Instant) -> (r: ProxyOp)
        ensures
            r@ == (ProxyOpView {
                core: ProxyOpCore::started(*info, start_time, false, false),
                steps: Seq::empty(),
                unsampled: Seq::empty(),
                histograms: None,
            }),
    {
        ProxyOp {
            core: ProxyOpCore {
                info: *info,
                start_time,
                end_time: None,
                track_steps: false,
                aggregate_steps: false,
                extra: None,
            },
            steps: Vec::new(),
            unsampled: Vec::new(),
            histograms: None,
        }
    }

    pub fn init_step_tracking(&mut self, track_steps: bool, aggregate_steps: bool)
        ensures
            final(self)@ == (ProxyOpView {
                core: ProxyOpCore { track_steps, aggregate_steps, ..old(self)@.core },
                ..old(self)@
            }),
    {
        self.core.track_steps = track_steps;
        self.core.aggregate_steps = aggregate_steps;
    }

    /// Adds a step; `init` is the moment from which step times count.
    pub fn add_step(&mut self, step: EventStep, init: Instant)
        ensures
            final(self)@ == old(self)@.with_step(step, init),
    {
        self.core.start_time = min_instant(self.core.start_time, step.start_instant(init));
        self.core.end_time = Some(step.end_instant(init));
        if self.core.track_steps {
            self.steps.push(step);
        }
        if self.core.aggregate_steps && self.histograms.is_none() {
            self.unsampled.push(step);
        }
    }

    pub fn add_extra_info(&mut self, extra: ProxyOpExtra)
        ensures
            final(self)@ == old(self)@.with_extra(Some(extra)),
    {
        self.core.extra = Some(extra);
    }

    pub fn has_step_histograms(&self) -> (r: bool)
        ensures
            r == (self@.histograms is Some),
    {
        self.histograms.is_some()
    }

    /// Sets the histograms, and returns the steps that waited for them.
    pub fn set_step_histograms(&mut self, handles: Vec<u64>) -> (waited: Vec<EventStep>)
        ensures
            final(self)@ == old(self)@.with_histograms(handles@),
            waited@ == old(self)@.unsampled,
    {
        let mut waited: Vec<EventStep> = Vec::new();
        std::mem::swap(&mut waited, &mut self.unsampled);
        self.histograms = Some(handles);
        waited
    }

    pub fn end_time_or(&self, now: Instant) -> (r: Instant)
        ensures
            r == self@.end_or(now),
    {
        match self.core.end_time {
            Some(t) => t,
            None => now,
        }
    }

    /// A copy of this operation.
    pub fn duplicate(&self) -> (r: ProxyOp)
        ensures
            r@ == self@,
    {
        let histograms: Option<Vec<u64>> = match &self.histograms {
            Some(h) => Some(copy_handles(h)),
            None => None,
        };
        ProxyOp {
            core: self.core,
            steps: copy_steps(&self.steps),
            unsampled: copy_steps(&self.unsampled),
            histograms,
        }
    }
}

fn copy_steps(s: &Vec<EventStep>) -> (r: Vec<EventStep>)
    ensures
        r@ == s@,
{
    let mut r: Vec<EventStep> = Vec::new();
    let mut i: usize = 0;
    while i < s.len()
        invariant
            i <= s@.len(),
            r@ == s@.take(i as int),
        decreases s@.len() - i,
    {
        r.push(s[i]);
        i += 1;
        assert(r@ =~= s@.take(i as int));
    }
    assert(r@ =~= s@);
    r
}

fn copy_handles(h: &Vec<u64>) -> (r: Vec<u64>)
    ensures
        r@ == h@,
{
    let mut r: Vec<u64> = Vec::new();
    let mut i: usize = 0;
    while i < h.len()
        invariant
            i <= h@.len(),
            r@ == h@.take(i as int),
        decreases h@.len() - i,
    {
        r.push(h[i]);
        i += 1;
        assert(r@ =~= h@.take(i as int));
    }
    assert(r@ =~= h@);
    r
}

/// The part of an NCCL operation that has a fixed size.
#[derive(Clone, Copy, Debug, PartialEq, Eq, Structural)]
pub struct OpInfo {
    pub id: usize,
    pub descr: OpDescr,
    pub rank: usize,
    pub comm_hash: u64,
    pub byte_count: usize,
    pub start_time: Instant,
    pub end_time: Option<Instant>,
    /// Start of the earliest event that this operation caused.
    pub child_start_time: Option<Instant>,
    /// The NCCL group that the operation was issued in.
    pub parent_group_id: Option<u64>,
}

impl OpInfo {
    pub open spec fn spec_is_p2p(self) -> bool {
        self.descr is P2p
    }

    /// A child event seen at `start`, which ended the operation at `end` where
    /// that is known: the earliest child start and the latest end are kept.
    pub open spec fn touched(self, start: Instant, end: Option<Instant>) -> OpInfo {
        OpInfo {
            child_start_time: Some(
                match self.child_start_time {
                    Some(t) => earlier_of(t, start),
                    None => start,
                },
            ),
            end_time: match end {
                Some(e) => Some(
                    match self.end_time {
                        Some(t) => later_of(t, e),
                        None => e,
                    },
                ),
                None => self.end_time,
            },
            ..self
        }
    }

    pub open spec fn ungrouped(self) -> OpInfo {
        OpInfo { parent_group_id: None, ..self }
    }

    pub open spec fn spec_op_key(self) -> NcclOpKey {
        NcclOpKey {
            comm_hash: self.comm_hash,
            local_rank: self.rank,
            kind: match self.descr {
                OpDescr::Coll(c) => OpKind::Coll(c.op_type),
                OpDescr::P2p(d) => OpKind::P2p(d),
            },
        }
    }

    /// Time from the first child event to the end.
    pub open spec fn spec_child_duration(self) -> Option<Duration> {
        match (self.child_start_time, self.end_time) {
            (Some(s), Some(e)) => Some(time_between(s, e)),
            _ => None,
        }
    }

    pub fn is_p2p(&self) -> (r: bool)
        ensures
            r == self.spec_is_p2p(),
    {
        match self.descr {
            OpDescr::Coll(_) => false,
            OpDescr::P2p(_) => true,
        }
    }

    pub fn op_key(&self) -> (r: NcclOpKey)
        ensures
            r == self.spec_op_key(),
    {
        let kind: OpKind = match self.descr {
            OpDescr::Coll(c) => OpKind::Coll(c.op_type),
            OpDescr::P2p(d) => OpKind::P2p(d),
        };
        NcclOpKey { comm_hash: self.comm_hash, local_rank: self.rank, kind }
    }

    pub fn child_duration(&self) -> (r: Option<Duration>)
        ensures
            r == self.spec_child_duration(),
    {
        match (self.child_start_time, self.end_time) {
            (Some(s), Some(e)) => Some(elapsed(s, e)),
            _ => None,
        }
    }
}

/// An NCCL operation in flight, with the events that were attached to it.
#[derive(Debug)]
pub struct NcclOp {
    pub info: OpInfo,
    pub proxyops: Vec<ProxyOp>,
    pub kernel_steps: Vec<KernelEventStep>,
}

/// The value of an NCCL operation.
#[verifier::ext_equal]
pub struct NcclOpView {
    pub info: OpInfo,
    pub proxyops: Seq<ProxyOpView>,
    pub kernel_steps: Seq<KernelEventStep>,
}

impl View for NcclOp {
    type V = NcclOpView;

    open spec fn view(&self) -> NcclOpView {
        NcclOpView {
            info: self.info,
            proxyops: view_seq(self.proxyops@),
            kernel_steps: self.kernel_steps@,
        }
    }
}

impl NcclOpView {
    pub open spec fn touched(self, start: Instant, end: Option<Instant>) -> NcclOpView {
        NcclOpView { info: self.info.touched(start, end), ..self }
    }

    pub open spec fn ungrouped(self) -> NcclOpView {
        NcclOpView { info: self.info.ungrouped(), ..self }
    }

    pub open spec fn with_proxyops(self, ps: Seq<ProxyOpView>) -> NcclOpView {
        NcclOpView { proxyops: self.proxyops + ps, ..self }
    }

    pub open spec fn with_kernel_step(self, step: KernelEventStep) -> NcclOpView {
        NcclOpView { kernel_steps: self.kernel_steps.push(step), ..self }
    }
}

impl NcclOp {
    /// An operation that was just issued.
    pub fn issued(info: OpInfo) -> (r: NcclOp)
        ensures
            r@ == (NcclOpView { info, proxyops: Seq::empty(), kernel_steps: Seq::empty() }),
    {
        let r = NcclOp { info, proxyops: Vec::new(), kernel_steps: Vec::new() };
        assert(r@.proxyops =~= Seq::empty());
        r
    }

    pub fn clear_parent_group_id(&mut self)
        ensures
            final(self)@ == old(self)@.ungrouped(),
    {
        self.info.parent_group_id = None;
    }

    pub fn update_child_start_time(&mut self, start: Instant)
        ensures
            final(self)@ == old(self)@.touched(start, None),
    {
        self.info.child_start_time = match self.info.child_start_time {
            Some(t) => Some(min_instant(t, start)),
            None => Some(start),
        };
    }

    pub fn update_end_time(&mut self, end: Instant)
        ensures
            final(self)@ == (NcclOpView {
                info: OpInfo {
                    end_time: Some(
                        match old(self)@.info.end_time {
                            Some(t) => later_of(t, end),
                            None => end,
                        },
                    ),
                    ..old(self)@.info
                },
                ..old(self)@
            }),
    {
        self.info.end_time = match self.info.end_time {
            Some(t) => Some(max_instant(t, end)),
            None => Some(end),
        };
    }

    pub fn add_proxyop(&mut self, p: ProxyOp)
        ensures
            final(self)@ == old(self)@.with_proxyops(seq![p@]),
    {
        self.proxyops.push(p);
        proof {
            view_seq_push(old(self).proxyops@, p);
            assert(self@.proxyops =~= old(self)@.proxyops + seq![p@]);
        }
    }

    pub fn add_kernel_step(&mut self, step: KernelEventStep)
        ensures
            final(self)@ == old(self)@.with_kernel_step(step),
    {
        self.kernel_steps.push(step);
    }

    /// A copy of this operation and of everything attached to it.
    pub fn duplicate(&self) -> (r: NcclOp)
        ensures
            r@ == self@,
    {
        let mut proxyops: Vec<ProxyOp> = Vec::new();
        let mut i: usize = 0;
        while i < self.proxyops.len()
            invariant
                i <= self.proxyops@.len(),
                view_seq(proxyops@) =~= view_seq(self.proxyops@).take(i as int),
            decreases self.proxyops@.len() - i,
        {
            let p = self.proxyops[i].duplicate();
            proof {
                view_seq_push(proxyops@, p);
            }
            proxyops.push(p);
            i += 1;
        }
        assert(view_seq(proxyops@) =~= view_seq(self.proxyops@));
        let mut kernel_steps: Vec<KernelEventStep> = Vec::new();
        let mut j: usize = 0;
        while j < self.kernel_steps.len()
            invariant
                j <= self.kernel_steps@.len(),
                kernel_steps@ == self.kernel_steps@.take(j as int),
            decreases self.kernel_steps@.len() - j,
        {
            kernel_steps.push(self.kernel_steps[j]);
            j += 1;
            assert(kernel_steps@ =~= self.kernel_steps@.take(j as int));
        }
        assert(kernel_steps@ =~= self.kernel_steps@);
        NcclOp { info: self.info, proxyops, kernel_steps }
    }
}

/// An NCCL group that has ended.
#[derive(Clone, Copy, Debug, PartialEq, Eq, Structural)]
pub struct Group {
    pub id: u64,
    pub rank: usize,
    pub start_time: Instant,
    pub end_time: Option<Instant>,
    /// Bytes that the group copied within the rank.
    pub self_copy_size: usize,
}

/// The sends and receives of one group, reported as one operation.
#[derive(Debug)]
pub struct P2pParent {
    pub group_id: u64,
    pub rank: usize,
    pub comm_hash: u64,
    pub start_time: Instant,
    pub end_time: Instant,
    pub size: usize,
    pub n_children: usize,
    pub n_peers: usize,
    pub name: &'static str,
    pub children: Vec<NcclOp>,
    /// Reported before every member of the group was seen to end.
    pub partial: bool,
    pub self_copy_size: usize,
}

/// The value of a reported group.
#[verifier::ext_equal]
pub struct P2pParentView {
    pub group_id: u64,
    pub rank: usize,
    pub comm_hash: u64,
    pub start_time: Instant,
    pub end_time: Instant,
    pub size: usize,
    pub n_children: usize,
    pub n_peers: usize,
    pub name: &'static str,
    pub children: Seq<NcclOpView>,
    pub partial: bool,
    pub self_copy_size: usize,
}

impl View for P2pParent {
    type V = P2pParentView;

    open spec fn view(&self) -> P2pParentView {
        P2pParentView {
            group_id: self.group_id,
            rank: self.rank,
            comm_hash: self.comm_hash,
            start_time: self.start_time,
            end_time: self.end_time,
            size: self.size,
            n_children: self.n_children,
            n_peers: self.n_peers,
            name: self.name,
            children: view_seq(self.children@),
            partial: self.partial,
            self_copy_size: self.self_copy_size,
        }
    }
}

/// Final child count of a group.
#[derive(Clone, Copy, Debug, PartialEq, Eq, Structural)]
pub struct P2pGroupSeal {
    pub group_id: u64,
    pub n_children: usize,
    pub observed_at: Instant,
}

/// Copy timing of the kernel steps of one completed operation.
#[derive(Clone, Copy, Debug, PartialEq, Eq, Structural)]
pub struct KernelCopySummary {
    pub observed_at: Instant,
    pub rank: usize,
    pub bytes: i64,
    pub copy_ns: i64,
    pub steps: u32,
}

} // verus!
