//! What the profiled threads tell the daemon, what the daemon tells other
//! processes, and what it reports.
use crate::clock::{elapsed, time_between, Duration, Instant};
use crate::event::{
    EventStep, Group, KernelCopySummary, KernelEventStep, NcclOp, NcclOpView, P2pGroupSeal,
    P2pParent, P2pParentView, PendingProgress, ProxyOp, ProxyOpExtra, ProxyOpInfo, ProxyOpView,
    StepProgress, StepProgressSource, StepProgressStage,
};
pub use crate::polling::PollingContext;
pub use crate::polling_messages::Export;
use crate::profiler::{CommMembership, Communicator, Profiler};
use crate::runtime_gates::GateUpdate;
use crate::spsc::{QueueView, Receiver};
use crate::views::view_map;
use std::collections::{BTreeMap, VecDeque};
use vstd::prelude::*;

verus! {

/// What collects telemetry for a process.
pub trait Daemon: Sized {
    fn new(profiler: &'static Profiler) -> Self;
}

/// A histogram that several threads record into.
pub trait AtomicHistogram<T>: std::fmt::Debug + Sync + Send {
    fn record(&self, data: &T);
}

/// The messages of one queue that wait to be handled.
#[derive(Debug)]
pub struct FifoReceiver<T> {
    last_fetch: Instant,
    receiver: Receiver<T>,
    pending_msg: VecDeque<T>,
}

/// The state of a [`FifoReceiver`].
#[verifier::ext_equal]
pub struct FifoView<T> {
    pub last_fetch: Instant,
    pub queue: QueueView<T>,
    pub pending: Seq<T>,
}

impl<T> View for FifoReceiver<T> {
    type V = FifoView<T>;

    closed spec fn view(&self) -> FifoView<T> {
        FifoView {
            last_fetch: self.last_fetch,
            queue: self.receiver@,
            pending: self.pending_msg@,
        }
    }
}

impl<T> FifoView<T> {
    /// Whether the sender's unpublished messages are fetched too: when asked
    /// for, or when the queue was idle for too long.
    pub open spec fn fetches(self, max_idle: Duration, force_fetch: bool, now: Instant) -> bool {
        force_fetch || time_between(self.last_fetch, now) > max_idle
    }

    /// The queue as one receiving pass finds it.
    pub open spec fn found(self, max_idle: Duration, force_fetch: bool, now: Instant) -> QueueView<
        T,
    > {
        if self.fetches(max_idle, force_fetch, now) {
            self.queue.fetched()
        } else {
            self.queue
        }
    }

    /// How many messages one receiving pass takes: all that are published, but
    /// no more than one beyond `max_recv`.
    pub open spec fn received(
        self,
        max_idle: Duration,
        max_recv: usize,
        force_fetch: bool,
        now: Instant,
    ) -> nat {
        let there = self.found(max_idle, force_fetch, now).ready.len();
        if there <= max_recv + 1 {
            there
        } else {
            (max_recv + 1) as nat
        }
    }

    pub open spec fn after_recv(
        self,
        max_idle: Duration,
        max_recv: usize,
        force_fetch: bool,
        now: Instant,
    ) -> FifoView<T> {
        let found = self.found(max_idle, force_fetch, now);
        let n = self.received(max_idle, max_recv, force_fetch, now) as int;
        FifoView {
            last_fetch: if self.fetches(max_idle, force_fetch, now) || n > 0 {
                now
            } else {
                self.last_fetch
            },
            queue: QueueView { ready: found.ready.skip(n), held: found.held },
            pending: self.pending + found.ready.take(n),
        }
    }

    /// How many messages one handling pass takes. At least one, if there is one.
    pub open spec fn handled(self, max_process: usize) -> nat {
        let most = if max_process == 0 {
            1nat
        } else {
            max_process as nat
        };
        if self.pending.len() <= most {
            self.pending.len()
        } else {
            most
        }
    }
}

impl<T> FifoReceiver<T> {
    pub fn new(receiver: Receiver<T>, now: Instant) -> (r: FifoReceiver<T>)
        ensures
            r@ == (FifoView { last_fetch: now, queue: receiver@, pending: Seq::empty() }),
    {
        FifoReceiver { last_fetch: now, receiver, pending_msg: VecDeque::new() }
    }

    /// Puts a message into the sender's batch.
    pub fn hold(&mut self, msg: T)
        ensures
            final(self)@ == (FifoView {
                queue: old(self)@.queue.holding(msg),
                ..old(self)@
            }),
    {
        self.receiver.hold(msg);
    }

    pub fn fetch_from_sender(&mut self)
        ensures
            final(self)@ == (FifoView { queue: old(self)@.queue.fetched(), ..old(self)@ }),
    {
        self.receiver.try_fetch_from_sender();
    }

    /// Moves published messages to those that wait to be handled, and returns
    /// how many.
    pub fn recv_many(
        &mut self,
        max_idle: Duration,
        max_recv: usize,
        force_fetch: bool,
        now: Instant,
    ) -> (n: usize)
        ensures
            n == old(self)@.received(max_idle, max_recv, force_fetch, now),
            final(self)@ == old(self)@.after_recv(max_idle, max_recv, force_fetch, now),
    {
        let mut fetched: bool = false;
        if force_fetch || elapsed(self.last_fetch, now) > max_idle {
            self.fetch_from_sender();
            fetched = true;
        }
        let ghost found = old(self)@.found(max_idle, force_fetch, now);
        assert(self@.queue == found);
        let mut n_recv: usize = 0;
        assert(found.ready.skip(0) =~= found.ready);
        assert(self@.pending =~= old(self)@.pending + found.ready.take(0));
        let mut more: bool = true;
        while more
            invariant
                found == old(self)@.found(max_idle, force_fetch, now),
                self@.last_fetch == old(self)@.last_fetch,
                n_recv <= found.ready.len(),
                self@.queue.held == found.held,
                self@.queue.ready == found.ready.skip(n_recv as int),
                self@.pending == old(self)@.pending + found.ready.take(n_recv as int),
                fetched == (old(self)@.fetches(max_idle, force_fetch, now) || n_recv > 0),
                more ==> n_recv <= max_recv,
                !more ==> n_recv == old(self)@.received(max_idle, max_recv, force_fetch, now),
            decreases found.ready.len() - n_recv, more as int,
        {
            match self.receiver.recv() {
                Some(msg) => {
                    fetched = true;
                    self.pending_msg.push_back(msg);
                    assert(self.pending_msg.len() == self.pending_msg@.len());
                    assert(found.ready.take(n_recv as int).push(msg) =~= found.ready.take(
                        n_recv + 1,
                    ));
                    assert(self@.pending =~= old(self)@.pending + found.ready.take(n_recv + 1));
                    assert(found.ready.skip(n_recv as int).skip(1) =~= found.ready.skip(
                        n_recv + 1,
                    ));
                    n_recv += 1;
                    if n_recv > max_recv {
                        more = false;
                    }
                },
                None => {
                    more = false;
                },
            }
        }
        if fetched {
            self.last_fetch = now;
        }
        n_recv
    }

    /// How many messages wait to be handled.
    pub fn n_pending(&self) -> (n: usize)
        ensures
            n == self@.pending.len(),
    {
        self.pending_msg.len()
    }

    /// A message that waits to be handled; the oldest is the first.
    pub fn pending_at(&self, i: usize) -> (r: &T)
        requires
            i < self@.pending.len(),
        ensures
            *r == self@.pending[i as int],
    {
        &self.pending_msg[i]
    }

    /// Takes out the messages that one pass handles, oldest first.
    pub fn process_many(&mut self, max_process: usize) -> (msgs: Vec<T>)
        ensures
            msgs@ == old(self)@.pending.take(old(self)@.handled(max_process) as int),
            final(self)@ == (FifoView {
                pending: old(self)@.pending.skip(old(self)@.handled(max_process) as int),
                ..old(self)@
            }),
    {
        let mut msgs: Vec<T> = Vec::new();
        let mut more: bool = true;
        assert(self@.pending =~= old(self)@.pending.skip(0));
        while more
            invariant
                self@.last_fetch == old(self)@.last_fetch,
                self@.queue == old(self)@.queue,
                msgs@.len() <= old(self)@.pending.len(),
                msgs@ == old(self)@.pending.take(msgs@.len() as int),
                self@.pending == old(self)@.pending.skip(msgs@.len() as int),
                more ==> msgs@.len() == 0 || msgs@.len() < max_process,
                !more ==> msgs@.len() == old(self)@.handled(max_process),
            decreases old(self)@.pending.len() - msgs@.len(), more as int,
        {
            match self.pending_msg.pop_front() {
                Some(msg) => {
                    msgs.push(msg);
                    assert(msgs@ =~= old(self)@.pending.take(msgs@.len() as int));
                    assert(self@.pending =~= old(self)@.pending.skip(msgs@.len() as int));
                    if msgs.len() >= max_process {
                        more = false;
                    }
                },
                None => {
                    more = false;
                },
            }
        }
        msgs
    }
}

/// A request to the daemon itself.
#[derive(Debug)]
pub enum ControlMessage {
    NewThread(ThreadControl),
    /// Turn runtime gates.
    SetGates(GateUpdate),
}

/// Most steps in one batch.
pub const STEP_BATCH_SZ: usize = 64;

/// An event of a profiled thread.
#[derive(Debug)]
pub enum Message {
    Group(Group),
    NcclOp(NcclOp),
    /// A whole proxy operation: start, duration in nanoseconds, identity.
    ProxyOpLite(Instant, u64, ProxyOpInfo),
    ProxyOpExtra(ProxyOpExtra),
    /// The proxy operation of this id ended.
    ProxyOp(u32),
    /// Steps of a proxy operation, and whether they are its last.
    StepBatch(ProxyOpInfo, Vec<EventStep>, bool),
    /// A kernel channel: start, duration in nanoseconds, operation.
    KernelCh(Instant, u64, usize),
    KernelStep(KernelEventStep, usize),
    StepProgress {
        source: StepProgressSource,
        stage: StepProgressStage,
        observed_at: Instant,
        parent: usize,
        is_send: bool,
        peer: u32,
        channel_id: u8,
        step: i64,
        size: usize,
    },
    CommOpen(Communicator),
    CommInit(CommMembership),
    CommClose(u64),
}

/// The value of a message.
#[verifier::ext_equal]
pub enum MessageView {
    Group(Group),
    NcclOp(NcclOpView),
    ProxyOpLite(Instant, u64, ProxyOpInfo),
    ProxyOpExtra(ProxyOpExtra),
    ProxyOp(u32),
    StepBatch(ProxyOpInfo, Seq<EventStep>, bool),
    KernelCh(Instant, u64, usize),
    KernelStep(KernelEventStep, usize),
    StepProgress(usize, PendingProgress),
    CommOpen(Communicator),
    CommInit(CommMembership),
    CommClose(u64),
}

impl View for Message {
    type V = MessageView;

    open spec fn view(&self) -> MessageView {
        match *self {
            Message::Group(g) => MessageView::Group(g),
            Message::NcclOp(op) => MessageView::NcclOp(op@),
            Message::ProxyOpLite(start, dur, info) => MessageView::ProxyOpLite(start, dur, info),
            Message::ProxyOpExtra(extra) => MessageView::ProxyOpExtra(extra),
            Message::ProxyOp(id) => MessageView::ProxyOp(id),
            Message::StepBatch(info, steps, last) => MessageView::StepBatch(info, steps@, last),
            Message::KernelCh(start, dur, parent) => MessageView::KernelCh(start, dur, parent),
            Message::KernelStep(step, parent) => MessageView::KernelStep(step, parent),
            Message::StepProgress {
                source,
                stage,
                observed_at,
                parent,
                is_send,
                peer,
                channel_id,
                step,
                size,
            } => MessageView::StepProgress(
                parent,
                PendingProgress {
                    source,
                    stage,
                    observed_at,
                    is_send,
                    peer,
                    channel_id,
                    step,
                    size,
                },
            ),
            Message::CommOpen(comm) => MessageView::CommOpen(comm),
            Message::CommInit(membership) => MessageView::CommInit(membership),
            Message::CommClose(hash) => MessageView::CommClose(hash),
        }
    }
}

/// A message between the daemons of two processes.
#[derive(Clone, Copy, Debug, PartialEq, Eq, Structural)]
pub enum InterProcessMessage {
    /// Operation, sending process, index of the thread, proxy operation, start.
    ProxyOpStart(usize, i32, usize, u32, Instant),
    /// Operation, end.
    ProxyOpEnd(usize, Instant),
    /// Index of the thread, proxy operation, hash of its communicator.
    ReplyProxyOpComm(usize, u32, u64),
}

/// A record for the exporter. It owns its data, so the exporter may block on
/// it while the profiled threads go on.
#[derive(Debug)]
pub enum Telemetry {
    Group(Group),
    NcclOpIssued(Box<NcclOp>),
    /// Compact completion on the GPU; events that are attached later do not
    /// delay it.
    NcclOpComplete(Box<NcclOp>),
    NcclOp(Box<NcclOp>),
    /// First issue of a group of transfers.
    P2pParentStart(Box<P2pParent>),
    /// Final child count of a group of transfers.
    P2pGroupSeal(P2pGroupSeal),
    P2pParent(Box<P2pParent>),
    StepProgress(StepProgress),
    KernelCopy(KernelCopySummary),
    ProxyOp(Box<ProxyOp>),
    CommOpen(Communicator),
    CommInit(CommMembership),
    CommClose(u64),
}

/// The value of a record.
#[verifier::ext_equal]
pub enum TelemetryView {
    Group(Group),
    NcclOpIssued(NcclOpView),
    NcclOpComplete(NcclOpView),
    NcclOp(NcclOpView),
    P2pParentStart(P2pParentView),
    P2pGroupSeal(P2pGroupSeal),
    P2pParent(P2pParentView),
    StepProgress(StepProgress),
    KernelCopy(KernelCopySummary),
    ProxyOp(ProxyOpView),
    CommOpen(Communicator),
    CommInit(CommMembership),
    CommClose(u64),
}

impl View for Telemetry {
    type V = TelemetryView;

    open spec fn view(&self) -> TelemetryView {
        match *self {
            Telemetry::Group(g) => TelemetryView::Group(g),
            Telemetry::NcclOpIssued(op) => TelemetryView::NcclOpIssued(op@),
            Telemetry::NcclOpComplete(op) => TelemetryView::NcclOpComplete(op@),
            Telemetry::NcclOp(op) => TelemetryView::NcclOp(op@),
            Telemetry::P2pParentStart(p) => TelemetryView::P2pParentStart(p@),
            Telemetry::P2pGroupSeal(seal) => TelemetryView::P2pGroupSeal(seal),
            Telemetry::P2pParent(p) => TelemetryView::P2pParent(p@),
            Telemetry::StepProgress(p) => TelemetryView::StepProgress(p),
            Telemetry::KernelCopy(c) => TelemetryView::KernelCopy(c),
            Telemetry::ProxyOp(p) => TelemetryView::ProxyOp(p@),
            Telemetry::CommOpen(comm) => TelemetryView::CommOpen(comm),
            Telemetry::CommInit(membership) => TelemetryView::CommInit(membership),
            Telemetry::CommClose(hash) => TelemetryView::CommClose(hash),
        }
    }
}

/// A proxy operation that ended and waits for the hash of its communicator.
#[derive(Debug)]
pub struct WaitingProxyOp {
    pub op: ProxyOp,
    pub since: Instant,
}

#[verifier::ext_equal]
pub struct WaitingView {
    pub op: ProxyOpView,
    pub since: Instant,
}

impl View for WaitingProxyOp {
    type V = WaitingView;

    open spec fn view(&self) -> WaitingView {
        WaitingView { op: self.op@, since: self.since }
    }
}

/// What the daemon keeps for one thread.
#[derive(Debug)]
pub struct ThreadState {
    pub idx: usize,
    pub proxyops: BTreeMap<u32, ProxyOp>,
    pub pending_comm_hash_proxyops: BTreeMap<u32, WaitingProxyOp>,
    /// Additional facts that came ahead of the proxy operation they belong to.
    pub aux_msg: Vec<ProxyOpExtra>,
}

/// The value of a thread's state.
#[verifier::ext_equal]
pub struct ThreadView {
    pub idx: usize,
    pub proxyops: Map<u32, ProxyOpView>,
    pub waiting: Map<u32, WaitingView>,
    pub aux: Seq<ProxyOpExtra>,
}

impl View for ThreadState {
    type V = ThreadView;

    open spec fn view(&self) -> ThreadView {
        ThreadView {
            idx: self.idx,
            proxyops: view_map(self.proxyops@),
            waiting: view_map(self.pending_comm_hash_proxyops@),
            aux: self.aux_msg@,
        }
    }
}

impl ThreadView {
    pub open spec fn fresh() -> ThreadView {
        ThreadView { idx: 0, proxyops: Map::empty(), waiting: Map::empty(), aux: Seq::empty() }
    }
}

impl Default for ThreadState {
    fn default() -> (r: ThreadState)
        ensures
            r@ == ThreadView::fresh(),
    {
        let r = ThreadState {
            idx: 0,
            proxyops: BTreeMap::new(),
            pending_comm_hash_proxyops: BTreeMap::new(),
            aux_msg: Vec::new(),
        };
        assert(r@ =~= ThreadView::fresh());
        r
    }
}

/// The queues of one thread, and what the daemon keeps for it.
#[derive(Debug)]
pub struct ThreadControl {
    pub ncclop_fifo: FifoReceiver<Message>,
    pub fifo: FifoReceiver<Message>,
    pub daemon_state: ThreadState,
}

/// The value of a thread's queues and state.
#[verifier::ext_equal]
pub struct ControlView {
    pub ncclop: FifoView<Message>,
    pub fifo: FifoView<Message>,
    pub state: ThreadView,
}

impl View for ThreadControl {
    type V = ControlView;

    open spec fn view(&self) -> ControlView {
        ControlView {
            ncclop: self.ncclop_fifo@,
            fifo: self.fifo@,
            state: self.daemon_state@,
        }
    }
}

impl ThreadControl {
    pub fn new(ncclop_fifo: FifoReceiver<Message>, fifo: FifoReceiver<Message>) -> (r:
        ThreadControl)
        ensures
            r@ == (ControlView {
                ncclop: ncclop_fifo@,
                fifo: fifo@,
                state: ThreadView::fresh(),
            }),
    {
        ThreadControl { ncclop_fifo, fifo, daemon_state: ThreadState::default() }
    }
}

} // verus!
