//! The polling daemon: follows operations from their announcement to their
//! report.
use crate::clock::{elapsed, max_instant, min_instant, Duration, Instant};
use crate::daemon::{InterProcessMessage, Telemetry, TelemetryView};
use crate::event::{
    samples, EventStep, NcclOp, NcclOpView, OpInfo, P2pParent, PendingProgress, ProxyOp,
    ProxyOpView, Sample, StepProgress, StepProgressSource, StepProgressStage,
};
use crate::key_order::{keys_in_order, lemma_distinct};
use crate::nccl_metadata::OpDescr;
use crate::polling_model::{
    all_ungrouped, closings, group_name, group_report, held_count, is_aged, is_recv, is_send,
    latest_end, not_after, ordered, peers, placed, sent_bytes, CtxView, GroupAccView,
    ReclaimAction, ReclaimPolicy,
};
use crate::views::{group_views, seq_at, view_map, view_seq};
use std::collections::{BTreeMap, HashMap, HashSet, VecDeque};
use vstd::prelude::*;

verus! {

/// The sends and receives that share one group. They wait here until all of
/// them ended, and are reported together.
#[derive(Debug)]
pub struct P2pGroupAcc {
    pub expected: usize,
    pub ended: bool,
    pub children: Vec<NcclOp>,
    pub self_copy_size: usize,
}

impl View for P2pGroupAcc {
    type V = GroupAccView;

    open spec fn view(&self) -> GroupAccView {
        GroupAccView {
            expected: self.expected,
            ended: self.ended,
            children: view_seq(self.children@),
            self_copy_size: self.self_copy_size,
        }
    }
}

impl Default for P2pGroupAcc {
    fn default() -> (r: P2pGroupAcc)
        ensures
            r@ == GroupAccView::fresh(),
    {
        broadcast use group_views;

        P2pGroupAcc { expected: 0, ended: false, children: Vec::new(), self_copy_size: 0 }
    }
}

/// What the daemon knows of the profiled process.
pub struct PollingContext {
    pub ncclops: BTreeMap<usize, NcclOp>,
    pub pending_telemetry: VecDeque<Telemetry>,
    pub pending_ipc_msg: BTreeMap<i32, VecDeque<InterProcessMessage>>,
    pub p2p_groups: BTreeMap<u64, P2pGroupAcc>,
    /// One open marker per operation, source and peer. A collective can report
    /// thousands of steps; exporting them all would delay the very decisions
    /// that they serve.
    pub active_progress: HashMap<usize, Vec<StepProgress>>,
    /// A kernel channel can be reported by another thread ahead of its
    /// operation. Its span is kept until the operation is announced.
    pub early_completions: HashMap<usize, (Instant, Instant)>,
    /// Progress can run ahead of its operation in the same way.
    pub early_progress: HashMap<usize, Vec<PendingProgress>>,
    pub online_completed: HashSet<usize>,
    /// Aggregated steps, each for one histogram.
    pub pending_samples: VecDeque<Sample>,
}

impl View for PollingContext {
    type V = CtxView;

    open spec fn view(&self) -> CtxView {
        CtxView {
            ncclops: view_map(self.ncclops@),
            pending: view_seq(self.pending_telemetry@),
            ipc: view_map(self.pending_ipc_msg@),
            groups: view_map(self.p2p_groups@),
            active: view_map(self.active_progress@),
            early_completions: self.early_completions@,
            early_progress: view_map(self.early_progress@),
            completed: self.online_completed@,
            samples: self.pending_samples@,
        }
    }
}

impl PollingContext {
    pub fn new() -> (r: PollingContext)
        ensures
            r@ == CtxView::fresh(),
    {
        broadcast use group_views;

        PollingContext {
            ncclops: BTreeMap::new(),
            pending_telemetry: VecDeque::new(),
            pending_ipc_msg: BTreeMap::new(),
            p2p_groups: BTreeMap::new(),
            active_progress: HashMap::new(),
            early_completions: HashMap::new(),
            early_progress: HashMap::new(),
            online_completed: HashSet::new(),
            pending_samples: VecDeque::new(),
        }
    }

    /// Owes every histogram of `handles` the step.
    fn sample(&mut self, handles: &Vec<u64>, step: EventStep)
        ensures
            final(self)@ == old(self)@.sampled(samples(handles@, seq![step])),
    {
        let ghost all = Seq::new(handles@.len(), |i: int| (handles@[i], step));
        let mut i: usize = 0;
        assert(self@.samples + all.take(0) =~= self@.samples);
        while i < handles.len()
            invariant
                i <= handles@.len(),
                all == Seq::new(handles@.len(), |i: int| (handles@[i], step)),
                self@ == old(self)@.sampled(all.take(i as int)),
            decreases handles@.len() - i,
        {
            self.pending_samples.push_back((handles[i], step));
            assert(self@.samples =~= old(self)@.samples + all.take(i + 1));
            i += 1;
        }
        assert(all.take(i as int) =~= all);
        assert(seq![step].drop_last() =~= Seq::empty());
        assert(samples(handles@, seq![step].drop_last()) =~= Seq::<Sample>::empty());
        assert(samples(handles@, seq![step]) =~= all);
    }

    /// Owes the histograms of an operation a step, where it aggregates steps.
    pub(crate) fn sample_step(&mut self, op: &ProxyOp, step: EventStep)
        ensures
            final(self)@ == old(self)@.sampled(op@.samples_of(seq![step])),
    {
        if op.core.aggregate_steps {
            match &op.histograms {
                Some(h) => {
                    self.sample(h, step);
                    return ;
                },
                None => {},
            }
        }
        assert(self@.samples =~= old(self)@.samples + op@.samples_of(seq![step]));
    }

    /// Owes the histograms of an operation steps that waited for them.
    pub(crate) fn sample_steps(&mut self, op: &ProxyOp, steps: &Vec<EventStep>)
        ensures
            final(self)@ == old(self)@.sampled(op@.samples_of(steps@)),
    {
        let ghost all = steps@;
        let mut i: usize = 0;
        assert(op@.samples_of(all.take(0)) =~= Seq::<Sample>::empty());
        assert(self@.samples =~= old(self)@.samples + op@.samples_of(all.take(0)));
        while i < steps.len()
            invariant
                i <= steps@.len(),
                all == steps@,
                self@ == old(self)@.sampled(op@.samples_of(all.take(i as int))),
            decreases steps@.len() - i,
        {
            self.sample_step(op, steps[i]);
            proof {
                lemma_samples_of_more(op@, all.take(i as int), all[i as int]);
                assert(all.take(i + 1) =~= all.take(i as int).push(all[i as int]));
            }
            assert(self@.samples =~= old(self)@.samples + op@.samples_of(all.take(i + 1)));
            i += 1;
        }
        assert(all.take(i as int) =~= all);
    }

    /// Takes out what histograms are owed.
    pub fn take_samples(&mut self) -> (r: Vec<Sample>)
        ensures
            r@ == old(self)@.samples,
            final(self)@ == old(self)@.samples_gone(),
    {
        let ghost all = self.pending_samples@;
        let mut r: Vec<Sample> = Vec::new();
        assert(all.skip(0) =~= all);
        while self.pending_samples.len() > 0
            invariant
                all == old(self)@.samples,
                r@.len() <= all.len(),
                r@ == all.take(r@.len() as int),
                self@ == (CtxView { samples: all.skip(r@.len() as int), ..old(self)@ }),
            decreases self.pending_samples@.len(),
        {
            match self.pending_samples.pop_front() {
                Some(s) => {
                    r.push(s);
                    assert(r@ =~= all.take(r@.len() as int));
                    assert(self@.samples =~= all.skip(r@.len() as int));
                },
                None => {},
            }
        }
        assert(r@ =~= all);
        assert(self@.samples =~= Seq::empty());
        r
    }

    pub(crate) fn report(&mut self, t: Telemetry)
        ensures
            final(self)@ == old(self)@.reported(t@),
    {
        broadcast use group_views;

        self.pending_telemetry.push_back(t);
    }

    /// Notes a child event of the operation `id`. Returns whether it is in
    /// flight.
    pub(crate) fn touch_ncclop(&mut self, id: usize, start: Instant, end: Option<Instant>) -> (known: bool)
        ensures
            final(self)@ == old(self)@.touched(id, start, end),
            known == old(self)@.ncclops.contains_key(id),
    {
        broadcast use group_views;

        match self.ncclops.remove(&id) {
            Some(mut op) => {
                ncclop_update(&mut op, start, end);
                self.ncclops.insert(id, op);
                assert(self@ =~= old(self)@.touched(id, start, end));
                true
            },
            None => {
                assert(self@ =~= old(self)@);
                false
            },
        }
    }

    fn has_marker(&self, parent: usize, source: StepProgressSource, peer: u32) -> (r: bool)
        ensures
            r == self@.has_marker(parent, source, peer),
    {
        match self.active_progress.get(&parent) {
            Some(markers) => {
                assert(seq_at(self@.active, parent) == markers@);
                let mut i: usize = 0;
                while i < markers.len()
                    invariant
                        i <= markers@.len(),
                        seq_at(self@.active, parent) == markers@,
                        forall|j: int|
                            0 <= j < i ==> !((#[trigger] markers@[j]).source == source
                                && markers@[j].peer == peer),
                    decreases markers@.len() - i,
                {
                    if markers[i].source == source && markers[i].peer == peer {
                        assert(seq_at(self@.active, parent)[i as int].source == source);
                        return true;
                    }
                    i += 1;
                }
                false
            },
            None => false,
        }
    }

    fn has_early(&self, parent: usize, source: StepProgressSource, peer: u32) -> (r: bool)
        ensures
            r == self@.has_early(parent, source, peer),
    {
        match self.early_progress.get(&parent) {
            Some(waiting) => {
                assert(seq_at(self@.early_progress, parent) == waiting@);
                let mut i: usize = 0;
                while i < waiting.len()
                    invariant
                        i <= waiting@.len(),
                        seq_at(self@.early_progress, parent) == waiting@,
                        forall|j: int|
                            0 <= j < i ==> !((#[trigger] waiting@[j]).source == source
                                && waiting@[j].peer == peer),
                    decreases waiting@.len() - i,
                {
                    if waiting[i].source == source && waiting[i].peer == peer {
                        assert(seq_at(self@.early_progress, parent)[i as int].source == source);
                        return true;
                    }
                    i += 1;
                }
                false
            },
            None => false,
        }
    }

    /// Progress of an operation, reported by a callback.
    pub fn note_step_progress(&mut self, parent: usize, p: PendingProgress)
        ensures
            final(self)@ == old(self)@.noted(parent, p),
    {
        broadcast use group_views;

        if self.online_completed.contains(&parent) {
            return ;
        }
        if p.stage == StepProgressStage::Complete {
            return ;
        }
        if self.has_marker(parent, p.source, p.peer) {
            return ;
        }
        let marker: Option<StepProgress> = match self.ncclops.get(&parent) {
            Some(op) => Some(StepProgress::from_parent(&op.info, &p)),
            None => None,
        };
        match marker {
            Some(marker) => {
                let mut markers: Vec<StepProgress> = match self.active_progress.remove(&parent) {
                    Some(markers) => markers,
                    None => Vec::new(),
                };
                markers.push(marker);
                self.active_progress.insert(parent, markers);
                self.report(Telemetry::StepProgress(marker));
                assert(self@ =~= old(self)@.noted(parent, p));
            },
            None => {
                if self.has_early(parent, p.source, p.peer) {
                    return ;
                }
                let mut waiting: Vec<PendingProgress> = match self.early_progress.remove(&parent) {
                    Some(waiting) => waiting,
                    None => Vec::new(),
                };
                waiting.push(p);
                self.early_progress.insert(parent, waiting);
                assert(self@ =~= old(self)@.noted(parent, p));
            },
        }
    }

    /// Closes the open markers of an operation.
    pub fn finish_parent_progress(&mut self, parent: usize, observed_at: Instant)
        ensures
            final(self)@ == old(self)@.finished(parent, observed_at),
    {
        broadcast use group_views;

        match self.active_progress.remove(&parent) {
            Some(markers) => {
                let ghost all = markers@;
                let ghost start = self@;
                assert(start.pending + closings(all, observed_at).take(0) =~= start.pending);
                let mut i: usize = 0;
                while i < markers.len()
                    invariant
                        i <= markers@.len(),
                        all == markers@,
                        self@ == (CtxView {
                            pending: start.pending + closings(all, observed_at).take(i as int),
                            ..start
                        }),
                    decreases markers@.len() - i,
                {
                    let mut marker: StepProgress = markers[i];
                    marker.stage = StepProgressStage::Complete;
                    marker.observed_at = observed_at;
                    self.report(Telemetry::StepProgress(marker));
                    assert(marker == all[i as int].closed_at(observed_at));
                    assert((start.pending + closings(all, observed_at).take(i as int)).push(
                        TelemetryView::StepProgress(marker),
                    ) =~= start.pending + closings(all, observed_at).take(i + 1));
                    i += 1;
                }
                assert(closings(all, observed_at).take(i as int) =~= closings(all, observed_at));
                assert(self@ =~= old(self)@.finished(parent, observed_at));
            },
            None => {
                assert(self@ =~= old(self)@.finished(parent, observed_at));
            },
        }
    }

    /// The kernel of an operation ended.
    pub fn complete_ncclop(&mut self, parent: usize, child_start: Instant, end_time: Instant)
        ensures
            final(self)@ == old(self)@.completed_op(parent, child_start, end_time),
    {
        broadcast use group_views;

        if self.online_completed.contains(&parent) {
            return ;
        }
        match self.ncclops.remove(&parent) {
            Some(mut op) => {
                ncclop_update(&mut op, child_start, Some(end_time));
                let completed: NcclOp = op.duplicate();
                self.ncclops.insert(parent, op);
                self.online_completed.insert(parent);
                self.finish_parent_progress(parent, end_time);
                self.report(Telemetry::NcclOpComplete(Box::new(completed)));
                assert(self@ =~= old(self)@.completed_op(parent, child_start, end_time));
            },
            None => {
                let span: (Instant, Instant) = match self.early_completions.get(&parent) {
                    Some(seen) => (
                        min_instant(seen.0, child_start),
                        max_instant(seen.1, end_time),
                    ),
                    None => (child_start, end_time),
                };
                self.early_completions.insert(parent, span);
                assert(self@ =~= old(self)@.completed_op(parent, child_start, end_time));
            },
        }
    }
}

/// What histograms are owed grows step by step.
pub(crate) proof fn lemma_samples_of_more(op: ProxyOpView, steps: Seq<EventStep>, step: EventStep)
    ensures
        op.samples_of(steps.push(step)) == op.samples_of(steps) + op.samples_of(seq![step]),
{
    assert(steps.push(step).drop_last() =~= steps);
    assert(seq![step].drop_last() =~= Seq::empty());
    match op.histograms {
        Some(h) if op.core.aggregate_steps => {
            assert(samples(h, seq![step].drop_last()) =~= Seq::<Sample>::empty());
            assert(samples(h, steps.push(step)) =~= samples(h, steps) + samples(h, seq![step]));
        },
        _ => {
            assert(op.samples_of(steps) + op.samples_of(seq![step]) =~= Seq::<Sample>::empty());
        },
    }
}

/// Notes a child event of `op`.
pub fn ncclop_update(op: &mut NcclOp, st: Instant, et: Option<Instant>)
    ensures
        final(op)@ == old(op)@.touched(st, et),
{
    op.update_child_start_time(st);
    match et {
        Some(t) => op.update_end_time(t),
        None => {},
    }
}

// ------------------------------------------------------------------ groups

/// Where `placed` puts an operation: behind the last that does not come after
/// it.
proof fn lemma_placed(cs: Seq<NcclOpView>, c: NcclOpView, at: int)
    requires
        0 <= at <= cs.len(),
        at > 0 ==> not_after(cs[at - 1].info, c.info),
        forall|j: int| at <= j < cs.len() ==> !not_after((#[trigger] cs[j]).info, c.info),
    ensures
        placed(cs, c) == cs.insert(at, c),
    decreases cs.len(),
{
    if cs.len() == 0 {
        assert(cs.insert(at, c) =~= seq![c]);
    } else if not_after(cs.last().info, c.info) {
        assert(at == cs.len());
        assert(cs.insert(at, c) =~= cs.push(c));
    } else {
        lemma_placed(cs.drop_last(), c, at);
        assert(cs.drop_last().insert(at, c).push(cs.last()) =~= cs.insert(at, c));
    }
}

proof fn lemma_view_seq_insert(s: Seq<NcclOp>, at: int, t: NcclOp)
    requires
        0 <= at <= s.len(),
    ensures
        view_seq(s.insert(at, t)) == view_seq(s).insert(at, t@),
{
    assert(view_seq(s.insert(at, t)) =~= view_seq(s).insert(at, t@));
}

proof fn lemma_ordered_len(cs: Seq<NcclOpView>)
    ensures
        ordered(cs).len() == cs.len(),
    decreases cs.len(),
{
    if cs.len() > 0 {
        lemma_ordered_len(cs.drop_last());
        lemma_placed_len(ordered(cs.drop_last()), cs.last());
    }
}

proof fn lemma_placed_len(cs: Seq<NcclOpView>, c: NcclOpView)
    ensures
        placed(cs, c).len() == cs.len() + 1,
    decreases cs.len(),
{
    if cs.len() > 0 && !not_after(cs.last().info, c.info) {
        lemma_placed_len(cs.drop_last(), c);
    }
}

/// Whether `a` stands before `b` in a report.
fn comes_not_after(a: &OpInfo, b: &OpInfo) -> (r: bool)
    ensures
        r == not_after(*a, *b),
{
    a.start_time < b.start_time || (a.start_time == b.start_time && a.id <= b.id)
}

/// Puts `c` into `cs` behind every operation that does not come after it.
fn place(cs: &mut Vec<NcclOp>, c: NcclOp)
    ensures
        view_seq(final(cs)@) == placed(view_seq(old(cs)@), c@),
{
    let mut at: usize = cs.len();
    while at > 0 && !comes_not_after(&cs[at - 1].info, &c.info)
        invariant
            at <= cs@.len(),
            cs@ == old(cs)@,
            forall|j: int| at <= j < cs@.len() ==> !not_after((#[trigger] cs@[j]).info, c.info),
        decreases at,
    {
        at -= 1;
    }
    proof {
        lemma_placed(view_seq(cs@), c@, at as int);
        lemma_view_seq_insert(cs@, at as int, c);
    }
    cs.insert(at, c);
}

/// The members of a group in the order of the report, without their group.
fn arrange(children: Vec<NcclOp>) -> (r: Vec<NcclOp>)
    ensures
        view_seq(r@) == all_ungrouped(ordered(view_seq(children@))),
{
    broadcast use group_views;

    let ghost given = view_seq(children@);
    let mut todo: VecDeque<NcclOp> = VecDeque::new();
    let mut children = children;
    // Last first, so that the queue ends up in the given order.
    while children.len() > 0
        invariant
            view_seq(children@) + view_seq(todo@) == given,
        decreases children@.len(),
    {
        let ghost before = children@;
        let ghost queued = todo@;
        match children.pop() {
            Some(c) => {
                todo.push_front(c);
                assert(view_seq(before) =~= view_seq(children@).push(c@));
                assert(view_seq(todo@) =~= seq![c@] + view_seq(queued));
                assert(view_seq(children@) + view_seq(todo@) =~= given);
            },
            None => {},
        }
    }
    assert(view_seq(todo@) =~= given);
    let mut r: Vec<NcclOp> = Vec::new();
    let ghost mut done: int = 0;
    assert(given.take(0) =~= Seq::<NcclOpView>::empty());
    assert(given.skip(0) =~= given);
    while todo.len() > 0
        invariant
            0 <= done <= given.len(),
            view_seq(todo@) == given.skip(done),
            view_seq(r@) == ordered(given.take(done)),
        decreases todo@.len(),
    {
        let ghost before = todo@;
        match todo.pop_front() {
            Some(c) => {
                assert(view_seq(before).len() == before.len());
                assert(done < given.len());
                assert(view_seq(before)[0] == given[done]);
                assert(view_seq(todo@) =~= given.skip(done).skip(1));
                assert(given.skip(done).skip(1) =~= given.skip(done + 1));
                assert(given.take(done + 1).drop_last() =~= given.take(done));
                assert(given.take(done + 1).last() == c@);
                place(&mut r, c);
                proof {
                    done = done + 1;
                }
            },
            None => {},
        }
    }
    assert(given.take(done) =~= given);
    let ghost sorted = view_seq(r@);
    let mut i: usize = 0;
    while i < r.len()
        invariant
            i <= r@.len(),
            r@.len() == sorted.len(),
            forall|j: int|
                0 <= j < r@.len() ==> (#[trigger] r@[j])@ == (if j < i {
                    sorted[j].ungrouped()
                } else {
                    sorted[j]
                }),
        decreases r@.len() - i,
    {
        r[i].clear_parent_group_id();
        i += 1;
    }
    assert(view_seq(r@) =~= all_ungrouped(sorted));
    r
}

/// What a report says of the members of a group as a whole.
struct GroupTotals {
    end_time: Instant,
    n_peers: usize,
    sends: bool,
    recvs: bool,
    send_bytes: usize,
}

fn group_totals(cs: &Vec<NcclOp>, start: Instant) -> (r: GroupTotals)
    ensures
        r.end_time == latest_end(view_seq(cs@), start),
        r.n_peers == peers(view_seq(cs@)).len(),
        r.sends == exists|i: int| 0 <= i < cs@.len() && is_send(#[trigger] view_seq(cs@)[i]),
        r.recvs == exists|i: int| 0 <= i < cs@.len() && is_recv(#[trigger] view_seq(cs@)[i]),
        r.send_bytes == held_count(sent_bytes(view_seq(cs@))),
{
    let ghost vs = view_seq(cs@);
    let mut end_time: Instant = start;
    let mut others: HashSet<i32> = HashSet::new();
    let mut sends: bool = false;
    let mut recvs: bool = false;
    let mut send_bytes: usize = 0;
    let mut i: usize = 0;
    assert(vs.take(0) =~= Seq::<NcclOpView>::empty());
    while i < cs.len()
        invariant
            i <= cs@.len(),
            vs == view_seq(cs@),
            end_time == latest_end(vs.take(i as int), start),
            others@ == peers(vs.take(i as int)),
            sends == exists|j: int| 0 <= j < i && is_send(#[trigger] vs[j]),
            recvs == exists|j: int| 0 <= j < i && is_recv(#[trigger] vs[j]),
            send_bytes == held_count(sent_bytes(vs.take(i as int))),
        decreases cs@.len() - i,
    {
        let c: &OpInfo = &cs[i].info;
        assert(vs.take(i + 1).drop_last() =~= vs.take(i as int));
        assert(vs.take(i + 1).last() == vs[i as int]);
        match c.end_time {
            Some(t) => {
                end_time = max_instant(end_time, t);
            },
            None => {},
        }
        match c.descr {
            OpDescr::P2p(d) => {
                others.insert(d.peer);
                if d.is_send {
                    assert(is_send(vs[i as int]));
                    sends = true;
                    send_bytes = send_bytes.saturating_add(c.byte_count);
                } else {
                    assert(is_recv(vs[i as int]));
                    recvs = true;
                }
            },
            OpDescr::Coll(_) => {},
        }
        i += 1;
    }
    assert(vs.take(i as int) =~= vs);
    GroupTotals { end_time, n_peers: others.len(), sends, recvs, send_bytes }
}

impl PollingContext {
    /// Counts a transfer for its group.
    pub fn note_ncclop_start(&mut self, op: &OpInfo)
        ensures
            final(self)@ == old(self)@.counted(*op),
    {
        broadcast use group_views;

        if !op.is_p2p() {
            return ;
        }
        match op.parent_group_id {
            Some(gid) => {
                let mut acc: P2pGroupAcc = self.take_group(gid);
                acc.expected = acc.expected.saturating_add(1);
                self.p2p_groups.insert(gid, acc);
                assert(self@ =~= old(self)@.counted(*op));
            },
            None => {},
        }
    }

    /// Takes out what is known of a group; a fresh one where nothing is.
    pub(crate) fn take_group(&mut self, gid: u64) -> (acc: P2pGroupAcc)
        ensures
            acc@ == old(self)@.group(gid),
            final(self)@ == (CtxView { groups: old(self)@.groups.remove(gid), ..old(self)@ }),
    {
        broadcast use group_views;

        match self.p2p_groups.remove(&gid) {
            Some(acc) => acc,
            None => {
                assert(old(self)@.groups.remove(gid) =~= old(self)@.groups);
                P2pGroupAcc::default()
            },
        }
    }

    /// Whether a transfer of the group is in flight.
    pub fn group_has_inflight(&self, gid: u64) -> (r: bool)
        ensures
            r == self@.has_inflight(gid),
    {
        let ids: Vec<usize> = keys_in_order(&self.ncclops);
        let mut i: usize = 0;
        while i < ids.len()
            invariant
                i <= ids@.len(),
                ids@.to_set() == self.ncclops@.dom(),
                forall|j: int|
                    0 <= j < i ==> !(self@.ncclops[#[trigger] ids@[j]].info.spec_is_p2p()
                        && self@.ncclops[ids@[j]].info.parent_group_id == Some(gid)),
            decreases ids@.len() - i,
        {
            assert(ids@.contains(ids@[i as int]));
            assert(ids@.to_set().contains(ids@[i as int]));
            match self.ncclops.get(&ids[i]) {
                Some(op) => {
                    let same: bool = match op.info.parent_group_id {
                        Some(g) => g == gid,
                        None => false,
                    };
                    if op.info.is_p2p() && same {
                        assert(self@.ncclops.contains_key(ids@[i as int]));
                        return true;
                    }
                },
                None => {},
            }
            i += 1;
        }
        assert forall|id: usize| #[trigger] self@.ncclops.contains_key(id) implies !(
        self@.ncclops[id].info.spec_is_p2p() && self@.ncclops[id].info.parent_group_id == Some(
            gid,
        )) by {
            assert(ids@.to_set().contains(id));
            assert(ids@.contains(id));
        }
        false
    }

    /// Reports a group whose members all ended, or that is forced out.
    pub fn try_emit_p2p_parent(&mut self, gid: u64, force: bool)
        ensures
            final(self)@ == old(self)@.group_tried(gid, force),
    {
        broadcast use group_views;

        let (n_children, ended, expected): (usize, bool, usize) = match self.p2p_groups.get(&gid) {
            Some(g) => (g.children.len(), g.ended, g.expected),
            None => {
                return ;
            },
        };
        let ready: bool = n_children > 0 && (force || (ended && n_children >= expected
            && !self.group_has_inflight(gid)));
        if !ready {
            return ;
        }
        let g: P2pGroupAcc = self.take_group(gid);
        let partial: bool = force && (g.children.len() < g.expected || !g.ended);
        self.emit_p2p_group(gid, g.children, partial, g.self_copy_size);
        assert(self@ =~= old(self)@.group_tried(gid, force));
    }

    /// Reports the members of a group as one operation.
    fn emit_p2p_group(
        &mut self,
        gid: u64,
        children: Vec<NcclOp>,
        partial: bool,
        self_copy_size: usize,
    )
        requires
            children@.len() > 0,
        ensures
            final(self)@ == old(self)@.reported(
                TelemetryView::P2pParent(
                    group_report(gid, view_seq(children@), partial, self_copy_size),
                ),
            ),
    {
        proof {
            lemma_ordered_len(view_seq(children@));
        }
        let children: Vec<NcclOp> = arrange(children);
        let ghost cs = view_seq(children@);
        let start: Instant = children[0].info.start_time;
        let totals: GroupTotals = group_totals(&children, start);
        let name: &'static str = if totals.n_peers >= 2 {
            "all_to_all"
        } else if totals.sends && totals.recvs {
            "sendrecv"
        } else if totals.sends {
            "send"
        } else {
            "recv"
        };
        assert(name == group_name(cs));
        let parent = P2pParent {
            group_id: gid,
            rank: children[0].info.rank,
            comm_hash: children[0].info.comm_hash,
            start_time: start,
            end_time: totals.end_time,
            size: totals.send_bytes,
            n_children: children.len(),
            n_peers: totals.n_peers,
            name,
            children,
            partial,
            self_copy_size,
        };
        self.report(Telemetry::P2pParent(Box::new(parent)));
    }

    /// Reports every group that has members, whether they all ended or not.
    pub fn flush_p2p_parents(&mut self)
        ensures
            final(self)@ == old(self)@.all_groups_flushed(),
    {
        let gids: Vec<u64> = keys_in_order(&self.p2p_groups);
        assert(self.p2p_groups@.dom() =~= self@.groups.dom());
        let mut i: usize = 0;
        assert(gids@.take(0) =~= Seq::<u64>::empty());
        while i < gids.len()
            invariant
                i <= gids@.len(),
                self@ == old(self)@.groups_flushed(gids@.take(i as int)),
            decreases gids@.len() - i,
        {
            self.try_emit_p2p_parent(gids[i], true);
            assert(gids@.take(i + 1).drop_last() =~= gids@.take(i as int));
            i += 1;
        }
        assert(gids@.take(i as int) =~= gids@);
    }

    /// Lets go of an operation that left the operations in flight.
    pub fn reclaim_ncclop(&mut self, op: NcclOp, now: Instant)
        ensures
            final(self)@ == old(self)@.reclaimed(op@, now),
    {
        broadcast use group_views;

        let end: Instant = match op.info.end_time {
            Some(t) => t,
            None => now,
        };
        self.finish_parent_progress(op.info.id, end);
        if !op.info.is_p2p() {
            self.report(Telemetry::NcclOp(Box::new(op)));
            return ;
        }
        let ghost closed = self@;
        match op.info.parent_group_id {
            Some(gid) => {
                let mut acc: P2pGroupAcc = self.take_group(gid);
                acc.children.push(op);
                self.p2p_groups.insert(gid, acc);
                assert(self@ =~= (CtxView {
                    groups: closed.groups.insert(
                        gid,
                        GroupAccView {
                            children: closed.group(gid).children.push(op@),
                            ..closed.group(gid)
                        },
                    ),
                    ..closed
                }));
                self.try_emit_p2p_parent(gid, false);
            },
            None => {
                let mut one: Vec<NcclOp> = Vec::new();
                one.push(op);
                assert(view_seq(one@) =~= seq![op@]);
                self.emit_p2p_group(0, one, false, 0);
            },
        }
    }
}

// -------------------------------------------------------------- reclaiming

/// Whether an operation ended long enough ago, or is too old to wait for.
pub fn should_reclaim_ncclop(
    op: &OpInfo,
    comp_delay: Duration,
    timeout: Duration,
    now: Instant,
) -> (r: bool)
    ensures
        r == is_aged(*op, comp_delay, timeout, now),
{
    match op.end_time {
        Some(et) => {
            if elapsed(et, now) > comp_delay {
                return true;
            }
        },
        None => {},
    }
    elapsed(op.start_time, now) > timeout
}

impl ReclaimPolicy {
    /// Decides on `op`, the `n`-th operation of a sweep.
    pub fn decide(&self, op: &OpInfo, n: usize, now: Instant) -> (r: ReclaimAction)
        ensures
            r == self.decision(*op, n as nat, now),
    {
        match self {
            ReclaimPolicy::All => ReclaimAction::Reclaim,
            ReclaimPolicy::Aged { batch, comp_delay, timeout } => if n > *batch {
                ReclaimAction::Stop
            } else if should_reclaim_ncclop(op, *comp_delay, *timeout, now) {
                ReclaimAction::Reclaim
            } else {
                ReclaimAction::Keep
            },
            ReclaimPolicy::Oldest { n: most } => if n < *most {
                ReclaimAction::Reclaim
            } else {
                ReclaimAction::Stop
            },
        }
    }
}

/// The operations that a sweep set aside, by id.
spec fn set_aside(s: Seq<(usize, NcclOp)>) -> Map<usize, NcclOpView>
    decreases s.len(),
{
    if s.len() == 0 {
        Map::empty()
    } else {
        map![s[0].0 => s[0].1@].union_prefer_right(set_aside(s.drop_first()))
    }
}

proof fn lemma_set_aside_push(s: Seq<(usize, NcclOp)>, k: usize, v: NcclOp)
    ensures
        set_aside(s.push((k, v))) == set_aside(s).insert(k, v@),
    decreases s.len(),
{
    let t = s.push((k, v));
    if s.len() == 0 {
        assert(t.drop_first() =~= s);
        assert(set_aside(t) =~= set_aside(s).insert(k, v@));
    } else {
        assert(t.drop_first() =~= s.drop_first().push((k, v)));
        lemma_set_aside_push(s.drop_first(), k, v);
        assert(set_aside(t) =~= set_aside(s).insert(k, v@));
    }
}

impl PollingContext {
    /// One sweep over the operations in flight, lowest id first.
    pub fn try_reclaim_ncclops_from_map(&mut self, policy: ReclaimPolicy, now: Instant)
        ensures
            final(self)@ == old(self)@.swept(policy, now),
    {
        broadcast use group_views;

        let keys: Vec<usize> = keys_in_order(&self.ncclops);
        assert(self.ncclops@.dom() =~= self@.ncclops.dom());
        let ghost goal = self@.swept(policy, now);
        let mut to_keep: VecDeque<(usize, NcclOp)> = VecDeque::new();
        let mut i: usize = 0;
        let mut stopped: bool = false;
        assert(keys@.skip(0) =~= keys@);
        assert forall|j: int| 0 <= j < keys@.len() implies self@.ncclops.contains_key(
            #[trigger] keys@[j],
        ) by {
            assert(keys@.to_set().contains(keys@[j]));
        }
        proof {
            lemma_distinct(keys@, self.ncclops@.dom());
        }
        while i < keys.len() && !stopped
            invariant
                i <= keys@.len(),
                keys@.no_duplicates(),
                forall|j: int|
                    i <= j < keys@.len() ==> self@.ncclops.contains_key(#[trigger] keys@[j]),
                !stopped ==> goal == self@.swept_from(
                    set_aside(to_keep@),
                    keys@.skip(i as int),
                    i as nat,
                    policy,
                    now,
                ),
                stopped ==> goal == (CtxView {
                    ncclops: self@.ncclops.union_prefer_right(set_aside(to_keep@)),
                    ..self@
                }),
            decreases keys@.len() - i, !stopped as int,
        {
            let ghost start = self@;
            let k: usize = keys[i];
            assert(keys@.skip(i as int)[0] == k);
            assert(keys@.skip(i as int).drop_first() =~= keys@.skip(i + 1));
            let action: ReclaimAction = match self.ncclops.get(&k) {
                Some(op) => policy.decide(&op.info, i, now),
                None => ReclaimAction::Stop,
            };
            match action {
                ReclaimAction::Stop => {
                    stopped = true;
                },
                ReclaimAction::Keep => {
                    match self.ncclops.remove(&k) {
                        Some(op) => {
                            proof {
                                lemma_set_aside_push(to_keep@, k, op);
                            }
                            to_keep.push_back((k, op));
                        },
                        None => {},
                    }
                    assert(self@ =~= start.without_op(k));
                    i += 1;
                },
                ReclaimAction::Reclaim => {
                    match self.ncclops.remove(&k) {
                        Some(op) => {
                            assert(self@ =~= start.without_op(k));
                            self.reclaim_ncclop(op, now);
                        },
                        None => {},
                    }
                    assert(self@.ncclops == start.ncclops.remove(k));
                    i += 1;
                },
            }
        }
        let ghost swept = self@;
        while to_keep.len() > 0
            invariant
                self@ == (CtxView { ncclops: self@.ncclops, ..swept }),
                goal == (CtxView {
                    ncclops: self@.ncclops.union_prefer_right(set_aside(to_keep@)),
                    ..swept
                }),
            decreases to_keep@.len(),
        {
            let ghost before = self@.ncclops;
            let ghost rest = to_keep@;
            match to_keep.pop_front() {
                Some(entry) => {
                    let (k, op) = entry;
                    self.ncclops.insert(k, op);
                    assert(rest.drop_first() =~= to_keep@);
                    assert(before.union_prefer_right(set_aside(rest)) =~= before.insert(
                        k,
                        op@,
                    ).union_prefer_right(set_aside(to_keep@)));
                },
                None => {},
            }
        }
        assert(self@.ncclops.union_prefer_right(set_aside(to_keep@)) =~= self@.ncclops);
    }

    /// Lets go of every operation in flight.
    pub fn reclaim_all_ncclops_in_map(&mut self, now: Instant)
        ensures
            final(self)@ == old(self)@.swept(ReclaimPolicy::All, now),
    {
        self.try_reclaim_ncclops_from_map(ReclaimPolicy::All, now);
    }
}

} // verus!
