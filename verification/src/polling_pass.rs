//! One pass of the polling daemon: it takes in what the threads and the other
//! daemons sent, handles it, lets waiting proxy operations go, and gives up
//! operations that are done or too old.
use crate::clock::{elapsed, time_between, Duration, Instant};
use crate::config::Config;
use crate::daemon::{
    ControlMessage, ControlView, FifoReceiver, FifoView, InterProcessMessage, Message, MessageView,
    ThreadControl, ThreadState, ThreadView,
};
use crate::key_order::{in_order, keys_in_order, lemma_distinct};
use crate::polling::PollingContext;
use crate::polling_messages::{answered, Export};
use crate::polling_model::{
    batch_is_usable, ipc_handled, ipc_is_addressed, ipc_key, message_handled, message_key, CtxView,
    Pair, ReclaimPolicy,
};
use crate::profiler::{Profiler, EVENT_QUEUE_SZ};
use crate::runtime_gates::GatesView;
use crate::views::{group_views, seq_at, view_seq};
use std::collections::HashSet;
use vstd::prelude::*;

verus! {

/// Pause that a blocked exporter is asked to make before it is tried again,
/// nominally in milliseconds. The exporter of the daemon sleeps that many
/// microseconds.
pub const RETRY_MS: u64 = 100;

/// Longest time for which a thread may hold events back.
pub const FIFO_FETCH_INTERVAL: Duration = 1_000_000_000;

/// Events of a thread that are handled in one pass.
pub const FIFO_PROCESS_BATCH: usize = 512;

/// Announcements of a thread that are handled in one pass.
pub const ONLINE_FIFO_PROCESS_BATCH: usize = EVENT_QUEUE_SZ;

/// Events that are taken from a queue in one pass.
pub const FIFO_RECV_BATCH: usize = EVENT_QUEUE_SZ;

/// Messages of other daemons that are taken in one pass.
pub const IPC_RECV_BATCH: usize = 512;

/// Messages that go to one other daemon in one pass.
pub const IPC_SEND_BATCH: usize = 64;

/// Operations that a sweep looks at in one pass.
pub const NCCLOP_RECLAIM_BATCH: usize = 512;

// ------------------------------------------------------------------- control

/// The threads after a request to the daemon: a new thread goes behind those
/// that are there, and learns its place.
pub open spec fn threads_after(ts: Seq<ControlView>, m: ControlMessage) -> Seq<ControlView> {
    match m {
        ControlMessage::NewThread(t) => ts.push(
            ControlView { state: ThreadView { idx: ts.len() as usize, ..t@.state }, ..t@ },
        ),
        ControlMessage::SetGates(_) => ts,
    }
}

/// The gates after a request to the daemon.
pub open spec fn gates_after(g: GatesView, m: ControlMessage) -> GatesView {
    match m {
        ControlMessage::NewThread(_) => g,
        ControlMessage::SetGates(u) => g.after_update(u),
    }
}

/// Handles a request to the daemon.
pub fn handle_control(threads: &mut Vec<ThreadControl>, p: &mut Profiler, msg: ControlMessage)
    ensures
        view_seq(final(threads)@) == threads_after(view_seq(old(threads)@), msg),
        final(p).pid == old(p).pid,
        final(p).config == old(p).config,
        final(p).time_base == old(p).time_base,
        msg is NewThread ==> final(p).gates == old(p).gates,
        final(p).gates@ == gates_after(old(p).gates@, msg),
{
    broadcast use group_views;

    match msg {
        ControlMessage::NewThread(mut t) => {
            t.daemon_state.idx = threads.len();
            threads.push(t);
        },
        ControlMessage::SetGates(update) => {
            let _ = p.gates.apply_update(&update);
        },
    }
}

// ----------------------------------------------------------------- receiving

/// One of the two queues of a thread.
#[derive(Clone, Copy, Debug, PartialEq, Eq, Structural)]
pub enum Queue {
    /// Operations that the thread announces.
    Ncclops,
    /// All other events.
    Events,
}

impl ControlView {
    pub open spec fn queue(self, q: Queue) -> FifoView<Message> {
        match q {
            Queue::Ncclops => self.ncclop,
            Queue::Events => self.fifo,
        }
    }

    pub open spec fn with_queue(self, q: Queue, f: FifoView<Message>) -> ControlView {
        match q {
            Queue::Ncclops => ControlView { ncclop: f, ..self },
            Queue::Events => ControlView { fifo: f, ..self },
        }
    }

    /// The thread after a receiving pass over one of its queues.
    pub open spec fn after_recv(self, q: Queue, max_recv: usize, force: bool, now: Instant) -> ControlView {
        self.with_queue(
            q,
            self.queue(q).after_recv(FIFO_FETCH_INTERVAL, max_recv, force, now),
        )
    }

    pub open spec fn received(self, q: Queue, max_recv: usize, force: bool, now: Instant) -> nat {
        self.queue(q).received(FIFO_FETCH_INTERVAL, max_recv, force, now)
    }
}

/// The threads after a receiving pass over one queue of each of the first `n`.
pub open spec fn received_from(
    ts: Seq<ControlView>,
    n: int,
    q: Queue,
    max_recv: usize,
    force: bool,
    now: Instant,
) -> Seq<ControlView> {
    Seq::new(
        ts.len(),
        |i: int|
            if i < n {
                ts[i].after_recv(q, max_recv, force, now)
            } else {
                ts[i]
            },
    )
}

impl ThreadControl {
    fn receive(&mut self, q: Queue, max_recv: usize, force: bool, now: Instant) -> (n: usize)
        ensures
            n == old(self)@.received(q, max_recv, force, now),
            final(self)@ == old(self)@.after_recv(q, max_recv, force, now),
    {
        match q {
            Queue::Ncclops => self.ncclop_fifo.recv_many(FIFO_FETCH_INTERVAL, max_recv, force, now),
            Queue::Events => self.fifo.recv_many(FIFO_FETCH_INTERVAL, max_recv, force, now),
        }
    }
}

/// Takes in what waits in one queue of every thread. Returns whether anything
/// did.
pub fn receive_all(
    threads: &mut Vec<ThreadControl>,
    q: Queue,
    max_recv: usize,
    force: bool,
    now: Instant,
) -> (any: bool)
    ensures
        view_seq(final(threads)@) == received_from(
            view_seq(old(threads)@),
            old(threads)@.len() as int,
            q,
            max_recv,
            force,
            now,
        ),
        any == exists|i: int|
            0 <= i < old(threads)@.len() && (#[trigger] old(threads)@[i])@.received(
                q,
                max_recv,
                force,
                now,
            ) > 0,
{
    broadcast use group_views;

    let ghost before = view_seq(threads@);
    let mut any: bool = false;
    let mut i: usize = 0;
    assert(view_seq(threads@) =~= received_from(before, 0, q, max_recv, force, now));
    while i < threads.len()
        invariant
            i <= threads@.len(),
            threads@.len() == old(threads)@.len(),
            before == view_seq(old(threads)@),
            view_seq(threads@) == received_from(before, i as int, q, max_recv, force, now),
            any == exists|j: int|
                0 <= j < i && (#[trigger] old(threads)@[j])@.received(q, max_recv, force, now) > 0,
        decreases threads@.len() - i,
    {
        assert(view_seq(threads@)[i as int] == before[i as int]);
        let ghost earlier = threads@;
        let n: usize = threads[i].receive(q, max_recv, force, now);
        assert(threads@ == earlier.update(i as int, threads@[i as int]));
        assert(view_seq(threads@) == view_seq(earlier).update(i as int, threads@[i as int]@));
        assert(threads@[i as int]@ == before[i as int].after_recv(q, max_recv, force, now));
        assert(n == old(threads)@[i as int]@.received(q, max_recv, force, now));
        if n > 0 {
            any = true;
        }
        i += 1;
        assert(view_seq(threads@) =~= received_from(before, i as int, q, max_recv, force, now));
    }
    any
}

/// Whether a receiving pass over the events of all threads takes any.
pub open spec fn events_wait(ts: Seq<ControlView>, now: Instant) -> bool {
    exists|i: int|
        0 <= i < ts.len() && (#[trigger] ts[i]).received(
            Queue::Events,
            FIFO_RECV_BATCH,
            false,
            now,
        ) > 0
}

/// The threads after the receiving part of a pass. Where events or messages of
/// other daemons came in, the announcements that they may refer to are fetched
/// too.
pub open spec fn pass_received(ts: Seq<ControlView>, ipc_waits: bool, now: Instant) -> Seq<
    ControlView,
> {
    let n = ts.len() as int;
    let us = received_from(ts, n, Queue::Events, FIFO_RECV_BATCH, false, now);
    received_from(us, n, Queue::Ncclops, FIFO_RECV_BATCH, ipc_waits || events_wait(ts, now), now)
}

/// The receiving part of a pass; `ipc_waits` says whether messages of other
/// daemons came in.
pub fn receive_pass(threads: &mut Vec<ThreadControl>, ipc_waits: bool, now: Instant)
    ensures
        view_seq(final(threads)@) == pass_received(view_seq(old(threads)@), ipc_waits, now),
{
    let ghost ts = view_seq(threads@);
    let any: bool = receive_all(threads, Queue::Events, FIFO_RECV_BATCH, false, now);
    assert(any == events_wait(ts, now)) by {
        if events_wait(ts, now) {
            let i = choose|i: int|
                0 <= i < ts.len() && (#[trigger] ts[i]).received(
                    Queue::Events,
                    FIFO_RECV_BATCH,
                    false,
                    now,
                ) > 0;
            assert(old(threads)@[i]@ == ts[i]);
        }
        if any {
            let i = choose|i: int|
                0 <= i < old(threads)@.len() && (#[trigger] old(threads)@[i])@.received(
                    Queue::Events,
                    FIFO_RECV_BATCH,
                    false,
                    now,
                ) > 0;
            assert(old(threads)@[i]@ == ts[i]);
        }
    }
    let _ = receive_all(threads, Queue::Ncclops, FIFO_RECV_BATCH, ipc_waits || any, now);
}

/// The threads after everything that they sent was taken in.
pub open spec fn rest_received(ts: Seq<ControlView>, now: Instant) -> Seq<ControlView> {
    let n = ts.len() as int;
    let us = received_from(ts, n, Queue::Ncclops, usize::MAX, true, now);
    received_from(us, n, Queue::Events, usize::MAX, true, now)
}

/// Takes in everything that the threads sent, before the daemon stops.
pub fn receive_rest(threads: &mut Vec<ThreadControl>, now: Instant)
    ensures
        view_seq(final(threads)@) == rest_received(view_seq(old(threads)@), now),
{
    let _ = receive_all(threads, Queue::Ncclops, usize::MAX, true, now);
    let _ = receive_all(threads, Queue::Events, usize::MAX, true, now);
}

// ------------------------------------------------------------------ handling

/// The proxy operations that are followed after a message, if `known` were
/// before it.
pub open spec fn known_after(known: Set<u32>, m: MessageView) -> Set<u32> {
    match m {
        MessageView::StepBatch(info, _, is_last) => if is_last {
            known.remove(info.id)
        } else {
            known.insert(info.id)
        },
        MessageView::ProxyOp(id) => known.remove(id),
        _ => known,
    }
}

/// Whether every batch of steps among `ms` is usable when its turn comes.
pub open spec fn batches_are_usable(known: Set<u32>, ms: Seq<Message>) -> bool
    decreases ms.len(),
{
    ms.len() == 0 || (batch_is_usable(known, ms[0]@) && batches_are_usable(
        known_after(known, ms[0]@),
        ms.skip(1),
    ))
}

/// The effect of several messages, oldest first; `answers` are the histograms
/// that the exporter has for each.
pub open spec fn messages_handled(
    s: Pair,
    ms: Seq<Message>,
    p: Profiler,
    now: Instant,
    answers: Seq<Option<Seq<u64>>>,
) -> Pair
    decreases ms.len(),
{
    if ms.len() == 0 {
        s
    } else {
        message_handled(
            messages_handled(s, ms.drop_last(), p, now, answers.drop_last()),
            ms.last()@,
            p,
            now,
            answers.last(),
        )
    }
}

/// Whether `answers` are what the exporter says when several messages are
/// handled: for each, the answer to the key that it needs when its turn comes.
pub open spec fn messages_answered<E: Export>(
    e: E,
    s: Pair,
    ms: Seq<Message>,
    p: Profiler,
    now: Instant,
    answers: Seq<Option<Seq<u64>>>,
) -> bool
    decreases ms.len(),
{
    &&& answers.len() == ms.len()
    &&& ms.len() > 0 ==> {
        let (c, t) = messages_handled(s, ms.drop_last(), p, now, answers.drop_last());
        &&& messages_answered(e, s, ms.drop_last(), p, now, answers.drop_last())
        &&& answered(e, message_key(c, t, ms.last()@, p), answers.last())
    }
}

proof fn lemma_known(s: Pair, m: MessageView, p: Profiler, now: Instant, answer: Option<Seq<u64>>)
    ensures
        message_handled(s, m, p, now, answer).1.proxyops.dom() == known_after(
            s.1.proxyops.dom(),
            m,
        ),
{
    assert(message_handled(s, m, p, now, answer).1.proxyops.dom() =~= known_after(
        s.1.proxyops.dom(),
        m,
    ));
}

/// The proxy operations that are followed after several messages.
pub open spec fn known_after_all(known: Set<u32>, ms: Seq<Message>) -> Set<u32>
    decreases ms.len(),
{
    if ms.len() == 0 {
        known
    } else {
        known_after_all(known_after(known, ms[0]@), ms.skip(1))
    }
}

proof fn lemma_known_push(known: Set<u32>, ms: Seq<Message>, m: Message)
    ensures
        known_after_all(known, ms.push(m)) == known_after(known_after_all(known, ms), m@),
    decreases ms.len(),
{
    if ms.len() == 0 {
        assert(ms.push(m).skip(1) =~= ms);
        assert(known_after_all(known_after(known, m@), ms) == known_after(known, m@));
    } else {
        assert(ms.push(m).skip(1) =~= ms.skip(1).push(m));
        lemma_known_push(known_after(known, ms[0]@), ms.skip(1), m);
    }
}

proof fn lemma_known_all(
    s: Pair,
    ms: Seq<Message>,
    p: Profiler,
    now: Instant,
    answers: Seq<Option<Seq<u64>>>,
)
    ensures
        messages_handled(s, ms, p, now, answers).1.proxyops.dom() == known_after_all(
            s.1.proxyops.dom(),
            ms,
        ),
    decreases ms.len(),
{
    if ms.len() > 0 {
        let front = ms.drop_last();
        lemma_known_all(s, front, p, now, answers.drop_last());
        lemma_known(
            messages_handled(s, front, p, now, answers.drop_last()),
            ms.last()@,
            p,
            now,
            answers.last(),
        );
        lemma_known_push(s.1.proxyops.dom(), front, ms.last());
        assert(front.push(ms.last()) =~= ms);
    }
}

proof fn lemma_usable_in_parts(known: Set<u32>, a: Seq<Message>, b: Seq<Message>)
    ensures
        batches_are_usable(known, a + b) == (batches_are_usable(known, a) && batches_are_usable(
            known_after_all(known, a),
            b,
        )),
    decreases a.len(),
{
    if a.len() == 0 {
        assert(a + b =~= b);
    } else {
        assert((a + b).skip(1) =~= a.skip(1) + b);
        assert((a + b)[0] == a[0]);
        lemma_usable_in_parts(known_after(known, a[0]@), a.skip(1), b);
    }
}

impl PollingContext {
    /// Handles several messages of one thread, oldest first.
    pub fn handle_messages<E: Export>(
        &mut self,
        msgs: Vec<Message>,
        t: &mut ThreadState,
        exporter: &E,
        p: &Profiler,
        now: Instant,
    )
        requires
            batches_are_usable(old(t)@.proxyops.dom(), msgs@),
        ensures
            exists|answers: Seq<Option<Seq<u64>>>|
                messages_answered(*exporter, (old(self)@, old(t)@), msgs@, *p, now, answers) && (
                final(self)@, final(t)@) == #[trigger] messages_handled(
                    (old(self)@, old(t)@),
                    msgs@,
                    *p,
                    now,
                    answers,
                ),
    {
        let ghost all = msgs@;
        let ghost first = (self@, t@);
        let ghost mut answers: Seq<Option<Seq<u64>>> = Seq::empty();
        assert(all.skip(0) =~= all);
        assert(all.take(0) =~= Seq::<Message>::empty());
        for msg in it: msgs
            invariant
                it.seq() == all,
                messages_answered(*exporter, first, all.take(it.index()), *p, now, answers),
                (self@, t@) == messages_handled(first, all.take(it.index()), *p, now, answers),
                batches_are_usable(t@.proxyops.dom(), all.skip(it.index())),
        {
            let ghost i = it.index();
            let ghost s = (self@, t@);
            assert(all.skip(i)[0] == all[i]);
            assert(msg == all[i]);
            self.handle_fifo_message(msg, t, exporter, p, now);
            proof {
                let answer = choose|answer: Option<Seq<u64>>|
                    answered(*exporter, message_key(s.0, s.1, all[i]@, *p), answer) && (self@, t@)
                        == #[trigger] message_handled(s, all[i]@, *p, now, answer);
                lemma_known(s, all[i]@, *p, now, answer);
                assert(all.skip(i).skip(1) =~= all.skip(i + 1));
                assert(all.take(i + 1).drop_last() =~= all.take(i));
                assert(answers.push(answer).drop_last() =~= answers);
                answers = answers.push(answer);
            }
        }
        assert(all.take(all.len() as int) =~= all);
    }
}

/// The messages of one queue of a thread that one pass handles.
pub open spec fn taken(t: ControlView, q: Queue, max: usize) -> Seq<Message> {
    t.queue(q).pending.take(t.queue(q).handled(max) as int)
}

/// The context and a thread after the messages of one of its queues.
pub open spec fn thread_passed(
    c: CtxView,
    t: ControlView,
    q: Queue,
    max: usize,
    p: Profiler,
    now: Instant,
    answers: Seq<Option<Seq<u64>>>,
) -> (CtxView, ControlView) {
    let f = t.queue(q);
    let rest = FifoView { pending: f.pending.skip(f.handled(max) as int), ..f };
    let (c1, state) = messages_handled((c, t.state), taken(t, q, max), p, now, answers);
    (c1, ControlView { state, ..t.with_queue(q, rest) })
}

/// The context and the threads after the messages of the first `n` threads.
pub open spec fn threads_passed(
    c: CtxView,
    ts: Seq<ControlView>,
    n: nat,
    q: Queue,
    max: usize,
    p: Profiler,
    now: Instant,
    answers: Seq<Seq<Option<Seq<u64>>>>,
) -> (CtxView, Seq<ControlView>)
    decreases n,
{
    if n == 0 {
        (c, ts)
    } else {
        let (c0, ts0) = threads_passed(c, ts, (n - 1) as nat, q, max, p, now, answers.drop_last());
        let (c1, t) = thread_passed(c0, ts0[n - 1], q, max, p, now, answers.last());
        (c1, ts0.update(n - 1, t))
    }
}

/// Whether `answers` are what the exporter says when the messages of the first
/// `n` threads are handled.
pub open spec fn threads_answered<E: Export>(
    e: E,
    c: CtxView,
    ts: Seq<ControlView>,
    n: nat,
    q: Queue,
    max: usize,
    p: Profiler,
    now: Instant,
    answers: Seq<Seq<Option<Seq<u64>>>>,
) -> bool
    decreases n,
{
    &&& answers.len() == n
    &&& n > 0 ==> {
        let front = answers.drop_last();
        let (c0, ts0) = threads_passed(c, ts, (n - 1) as nat, q, max, p, now, front);
        let t = ts0[n - 1];
        &&& threads_answered(e, c, ts, (n - 1) as nat, q, max, p, now, front)
        &&& messages_answered(e, (c0, t.state), taken(t, q, max), p, now, answers.last())
    }
}

/// Threads that were not come to yet are as they were.
pub proof fn lemma_rest_unchanged(
    c: CtxView,
    ts: Seq<ControlView>,
    n: nat,
    q: Queue,
    max: usize,
    p: Profiler,
    now: Instant,
    answers: Seq<Seq<Option<Seq<u64>>>>,
)
    requires
        n <= ts.len(),
    ensures
        threads_passed(c, ts, n, q, max, p, now, answers).1.len() == ts.len(),
        forall|i: int|
            n <= i < ts.len() ==> #[trigger] threads_passed(c, ts, n, q, max, p, now, answers).1[i]
                == ts[i],
    decreases n,
{
    if n > 0 {
        lemma_rest_unchanged(c, ts, (n - 1) as nat, q, max, p, now, answers.drop_last());
    }
}

impl ThreadControl {
    fn take_messages(&mut self, q: Queue, max: usize) -> (msgs: Vec<Message>)
        ensures
            msgs@ == taken(old(self)@, q, max),
            final(self)@ == old(self)@.with_queue(
                q,
                (FifoView {
                    pending: old(self)@.queue(q).pending.skip(
                        old(self)@.queue(q).handled(max) as int,
                    ),
                    ..old(self)@.queue(q)
                }),
            ),
    {
        match q {
            Queue::Ncclops => self.ncclop_fifo.process_many(max),
            Queue::Events => self.fifo.process_many(max),
        }
    }

    /// Handles what one pass takes out of one queue of this thread.
    pub fn handle_queue<E: Export>(
        &mut self,
        ctx: &mut PollingContext,
        q: Queue,
        max: usize,
        exporter: &E,
        p: &Profiler,
        now: Instant,
    )
        requires
            batches_are_usable(old(self)@.state.proxyops.dom(), taken(old(self)@, q, max)),
        ensures
            exists|answers: Seq<Option<Seq<u64>>>|
                messages_answered(
                    *exporter,
                    (old(ctx)@, old(self)@.state),
                    taken(old(self)@, q, max),
                    *p,
                    now,
                    answers,
                ) && (final(ctx)@, final(self)@) == #[trigger] thread_passed(
                    old(ctx)@,
                    old(self)@,
                    q,
                    max,
                    *p,
                    now,
                    answers,
                ),
    {
        let msgs: Vec<Message> = self.take_messages(q, max);
        let ghost s = (ctx@, self@.state);
        let ghost ms = msgs@;
        ctx.handle_messages(msgs, &mut self.daemon_state, exporter, p, now);
        proof {
            let answers = choose|answers: Seq<Option<Seq<u64>>>|
                messages_answered(*exporter, s, ms, *p, now, answers) && (ctx@, self@.state)
                    == #[trigger] messages_handled(s, ms, *p, now, answers);
            assert((ctx@, self@) == thread_passed(
                old(ctx)@,
                old(self)@,
                q,
                max,
                *p,
                now,
                answers,
            ));
        }
    }
}

/// Handles what one pass takes out of one queue of every thread.
pub fn handle_all<E: Export>(
    ctx: &mut PollingContext,
    threads: &mut Vec<ThreadControl>,
    q: Queue,
    max: usize,
    exporter: &E,
    p: &Profiler,
    now: Instant,
)
    requires
        forall|i: int|
            0 <= i < old(threads)@.len() ==> batches_are_usable(
                (#[trigger] old(threads)@[i])@.state.proxyops.dom(),
                taken(old(threads)@[i]@, q, max),
            ),
    ensures
        exists|answers: Seq<Seq<Option<Seq<u64>>>>|
            threads_answered(
                *exporter,
                old(ctx)@,
                view_seq(old(threads)@),
                old(threads)@.len(),
                q,
                max,
                *p,
                now,
                answers,
            ) && (final(ctx)@, view_seq(final(threads)@)) == #[trigger] threads_passed(
                old(ctx)@,
                view_seq(old(threads)@),
                old(threads)@.len(),
                q,
                max,
                *p,
                now,
                answers,
            ),
{
    broadcast use group_views;

    let ghost before = view_seq(threads@);
    let ghost c = ctx@;
    let ghost mut answers: Seq<Seq<Option<Seq<u64>>>> = Seq::empty();
    let mut i: usize = 0;
    while i < threads.len()
        invariant
            i <= threads@.len(),
            threads@.len() == old(threads)@.len(),
            before == view_seq(old(threads)@),
            threads_answered(*exporter, c, before, i as nat, q, max, *p, now, answers),
            (ctx@, view_seq(threads@)) == threads_passed(
                c,
                before,
                i as nat,
                q,
                max,
                *p,
                now,
                answers,
            ),
            forall|j: int|
                0 <= j < old(threads)@.len() ==> batches_are_usable(
                    (#[trigger] old(threads)@[j])@.state.proxyops.dom(),
                    taken(old(threads)@[j]@, q, max),
                ),
        decreases threads@.len() - i,
    {
        proof {
            lemma_rest_unchanged(c, before, i as nat, q, max, *p, now, answers);
        }
        assert(view_seq(threads@)[i as int] == before[i as int]);
        assert(before[i as int] == old(threads)@[i as int]@);
        let ghost earlier = threads@;
        let ghost c0 = ctx@;
        threads[i].handle_queue(ctx, q, max, exporter, p, now);
        proof {
            let given = choose|given: Seq<Option<Seq<u64>>>|
                messages_answered(
                    *exporter,
                    (c0, earlier[i as int]@.state),
                    taken(earlier[i as int]@, q, max),
                    *p,
                    now,
                    given,
                ) && (ctx@, threads@[i as int]@) == #[trigger] thread_passed(
                    c0,
                    earlier[i as int]@,
                    q,
                    max,
                    *p,
                    now,
                    given,
                );
            assert(threads@ == earlier.update(i as int, threads@[i as int]));
            assert(view_seq(threads@) == view_seq(earlier).update(i as int, threads@[i as int]@));
            assert(answers.push(given).drop_last() =~= answers);
            answers = answers.push(given);
        }
        i += 1;
    }
}

/// Notes what a message does to the proxy operations that are followed.
/// Returns whether it is usable.
fn follow(known: &mut HashSet<u32>, m: &Message) -> (usable: bool)
    ensures
        usable == batch_is_usable(old(known)@, m@),
        final(known)@ == known_after(old(known)@, m@),
{
    match m {
        Message::StepBatch(info, steps, is_last) => {
            let usable: bool = known.contains(&info.id) || steps.len() > 0;
            if *is_last {
                known.remove(&info.id);
            } else {
                known.insert(info.id);
            }
            usable
        },
        Message::ProxyOp(id) => {
            known.remove(id);
            true
        },
        _ => true,
    }
}

impl ThreadState {
    fn followed(&self) -> (known: HashSet<u32>)
        ensures
            known@ == self@.proxyops.dom(),
    {
        let keys: Vec<u32> = keys_in_order(&self.proxyops);
        let mut known: HashSet<u32> = HashSet::new();
        let mut i: usize = 0;
        while i < keys.len()
            invariant
                i <= keys@.len(),
                known@ == keys@.take(i as int).to_set(),
            decreases keys@.len() - i,
        {
            known.insert(keys[i]);
            assert(keys@.take(i + 1) =~= keys@.take(i as int).push(keys@[i as int]));
            assert(keys@.take(i + 1).to_set() =~= keys@.take(i as int).to_set().insert(
                keys@[i as int],
            )) by {
                broadcast use vstd::seq_lib::group_seq_properties;

            }
            i += 1;
        }
        assert(keys@.take(keys@.len() as int) =~= keys@);
        assert(self@.proxyops.dom() =~= self.proxyops@.dom());
        known
    }
}

/// Follows the first `n` messages of a queue. Returns whether all of them are
/// usable; what is known after them is right only then.
fn follow_all(known: &mut HashSet<u32>, fifo: &FifoReceiver<Message>, n: usize) -> (usable: bool)
    requires
        n <= fifo@.pending.len(),
    ensures
        usable == batches_are_usable(old(known)@, fifo@.pending.take(n as int)),
        usable ==> final(known)@ == known_after_all(old(known)@, fifo@.pending.take(n as int)),
{
    let ghost all = fifo@.pending.take(n as int);
    let mut i: usize = 0;
    assert(all.skip(0) =~= all);
    while i < n
        invariant
            i <= n,
            n == all.len(),
            n <= fifo@.pending.len(),
            all == fifo@.pending.take(n as int),
            batches_are_usable(old(known)@, all) == batches_are_usable(known@, all.skip(i as int)),
            known_after_all(old(known)@, all) == known_after_all(known@, all.skip(i as int)),
        decreases n - i,
    {
        assert(all.skip(i as int)[0] == all[i as int]);
        assert(all.skip(i as int).skip(1) =~= all.skip(i + 1));
        if !follow(known, fifo.pending_at(i)) {
            return false;
        }
        i += 1;
    }
    true
}

/// How many of the messages of a queue one pass takes.
fn n_taken(fifo: &FifoReceiver<Message>, max: usize) -> (n: usize)
    ensures
        n == fifo@.handled(max),
{
    let most: usize = if max == 0 {
        1
    } else {
        max
    };
    if fifo.n_pending() <= most {
        fifo.n_pending()
    } else {
        most
    }
}

impl ThreadControl {
    fn fifo_of(&self, q: Queue) -> (r: &FifoReceiver<Message>)
        ensures
            r@ == self@.queue(q),
    {
        match q {
            Queue::Ncclops => &self.ncclop_fifo,
            Queue::Events => &self.fifo,
        }
    }

    /// Whether [`Self::handle_queue`] can handle what it would take out.
    pub fn queue_is_usable(&self, q: Queue, max: usize) -> (r: bool)
        ensures
            r == batches_are_usable(self@.state.proxyops.dom(), taken(self@, q, max)),
    {
        let mut known: HashSet<u32> = self.daemon_state.followed();
        let fifo: &FifoReceiver<Message> = self.fifo_of(q);
        follow_all(&mut known, fifo, n_taken(fifo, max))
    }

    /// Whether a pass can handle what it would take out of both queues.
    pub fn is_usable(&self, max_ncclops: usize, max_events: usize) -> (r: bool)
        ensures
            r == thread_is_usable(self@, max_ncclops, max_events),
    {
        let mut known: HashSet<u32> = self.daemon_state.followed();
        let ncclops: &FifoReceiver<Message> = self.fifo_of(Queue::Ncclops);
        let events: &FifoReceiver<Message> = self.fifo_of(Queue::Events);
        proof {
            lemma_usable_in_parts(
                self@.state.proxyops.dom(),
                taken(self@, Queue::Ncclops, max_ncclops),
                taken(self@, Queue::Events, max_events),
            );
        }
        follow_all(&mut known, ncclops, n_taken(ncclops, max_ncclops)) && follow_all(
            &mut known,
            events,
            n_taken(events, max_events),
        )
    }
}

/// Whether every batch of steps is usable that a pass takes out of the two
/// queues of a thread.
pub open spec fn thread_is_usable(t: ControlView, max_ncclops: usize, max_events: usize) -> bool {
    batches_are_usable(
        t.state.proxyops.dom(),
        taken(t, Queue::Ncclops, max_ncclops) + taken(t, Queue::Events, max_events),
    )
}

/// Whether a pass can handle what it would take out of the queues of all
/// threads, and the messages of other daemons `ipc`.
pub open spec fn pass_usable(
    ts: Seq<ControlView>,
    ipc: Seq<InterProcessMessage>,
    max_ncclops: usize,
    max_events: usize,
) -> bool {
    &&& forall|i: int|
        0 <= i < ts.len() ==> thread_is_usable(#[trigger] ts[i], max_ncclops, max_events)
    &&& forall|i: int| 0 <= i < ipc.len() ==> ipc_is_addressed(ts.len(), #[trigger] ipc[i])
}

/// Whether [`handle_pass`] can handle a pass.
pub fn pass_is_usable(
    threads: &Vec<ThreadControl>,
    ipc: &Vec<InterProcessMessage>,
    max_ncclops: usize,
    max_events: usize,
) -> (r: bool)
    ensures
        r == pass_usable(view_seq(threads@), ipc@, max_ncclops, max_events),
{
    let ghost ts = view_seq(threads@);
    let mut i: usize = 0;
    while i < threads.len()
        invariant
            i <= threads@.len(),
            ts == view_seq(threads@),
            forall|j: int|
                0 <= j < i ==> thread_is_usable(#[trigger] ts[j], max_ncclops, max_events),
        decreases threads@.len() - i,
    {
        assert(ts[i as int] == threads@[i as int]@);
        if !threads[i].is_usable(max_ncclops, max_events) {
            return false;
        }
        i += 1;
    }
    let mut k: usize = 0;
    while k < ipc.len()
        invariant
            k <= ipc@.len(),
            ts == view_seq(threads@),
            forall|j: int| 0 <= j < k ==> ipc_is_addressed(ts.len(), #[trigger] ipc@[j]),
        decreases ipc@.len() - k,
    {
        match ipc[k] {
            InterProcessMessage::ReplyProxyOpComm(idx, _, _) => {
                if idx >= threads.len() {
                    assert(!ipc_is_addressed(ts.len(), ipc@[k as int]));
                    return false;
                }
            },
            _ => {},
        }
        k += 1;
    }
    true
}

// --------------------------------------------------- messages of other daemons

/// Whether another message of another daemon is taken after `n` of them.
pub open spec fn takes_more_ipc(n: nat) -> bool {
    n <= IPC_RECV_BATCH
}

/// Whether a pass that has taken `n` messages of other daemons takes another.
pub fn ipc_recv_continues(n: usize) -> (r: bool)
    ensures
        r == takes_more_ipc(n as nat),
{
    n <= IPC_RECV_BATCH
}

/// The effect of several messages of other daemons, oldest first.
pub open spec fn ipc_all_handled(
    c: CtxView,
    ts: Seq<ControlView>,
    ms: Seq<InterProcessMessage>,
    p: Profiler,
    now: Instant,
    answers: Seq<Option<Seq<u64>>>,
) -> (CtxView, Seq<ControlView>)
    decreases ms.len(),
{
    if ms.len() == 0 {
        (c, ts)
    } else {
        let (c0, ts0) = ipc_all_handled(c, ts, ms.drop_last(), p, now, answers.drop_last());
        ipc_handled(c0, ts0, ms.last(), p, now, answers.last())
    }
}

/// Whether `answers` are what the exporter says when several messages of other
/// daemons are handled.
pub open spec fn ipc_all_answered<E: Export>(
    e: E,
    c: CtxView,
    ts: Seq<ControlView>,
    ms: Seq<InterProcessMessage>,
    p: Profiler,
    now: Instant,
    answers: Seq<Option<Seq<u64>>>,
) -> bool
    decreases ms.len(),
{
    &&& answers.len() == ms.len()
    &&& ms.len() > 0 ==> {
        let front = answers.drop_last();
        let (c0, ts0) = ipc_all_handled(c, ts, ms.drop_last(), p, now, front);
        &&& ipc_all_answered(e, c, ts, ms.drop_last(), p, now, front)
        &&& answered(e, ipc_key(ts0, ms.last(), p), answers.last())
    }
}

/// Handles the messages of other daemons, oldest first.
pub fn handle_ipc_all<E: Export>(
    ctx: &mut PollingContext,
    threads: &mut Vec<ThreadControl>,
    exporter: &E,
    msgs: &Vec<InterProcessMessage>,
    p: &Profiler,
    now: Instant,
)
    requires
        forall|i: int|
            0 <= i < msgs@.len() ==> ipc_is_addressed(old(threads)@.len(), #[trigger] msgs@[i]),
    ensures
        exists|answers: Seq<Option<Seq<u64>>>|
            ipc_all_answered(
                *exporter,
                old(ctx)@,
                view_seq(old(threads)@),
                msgs@,
                *p,
                now,
                answers,
            ) && (final(ctx)@, view_seq(final(threads)@)) == #[trigger] ipc_all_handled(
                old(ctx)@,
                view_seq(old(threads)@),
                msgs@,
                *p,
                now,
                answers,
            ),
{
    let ghost c = ctx@;
    let ghost ts = view_seq(threads@);
    let ghost mut answers: Seq<Option<Seq<u64>>> = Seq::empty();
    let mut i: usize = 0;
    assert(msgs@.take(0) =~= Seq::<InterProcessMessage>::empty());
    while i < msgs.len()
        invariant
            i <= msgs@.len(),
            ipc_all_answered(*exporter, c, ts, msgs@.take(i as int), *p, now, answers),
            threads@.len() == old(threads)@.len(),
            (ctx@, view_seq(threads@)) == ipc_all_handled(
                c,
                ts,
                msgs@.take(i as int),
                *p,
                now,
                answers,
            ),
            forall|j: int|
                0 <= j < msgs@.len() ==> ipc_is_addressed(old(threads)@.len(), #[trigger] msgs@[j]),
        decreases msgs@.len() - i,
    {
        let ghost c0 = ctx@;
        let ghost ts0 = view_seq(threads@);
        ctx.handle_ipc_message(threads, exporter, msgs[i], p, now);
        proof {
            let answer = choose|answer: Option<Seq<u64>>|
                answered(*exporter, ipc_key(ts0, msgs@[i as int], *p), answer) && (
                ctx@, view_seq(threads@)) == #[trigger] ipc_handled(
                    c0,
                    ts0,
                    msgs@[i as int],
                    *p,
                    now,
                    answer,
                );
            assert(view_seq(threads@).len() == ts0.len());
            assert(msgs@.take(i + 1).drop_last() =~= msgs@.take(i as int));
            assert(answers.push(answer).drop_last() =~= answers);
            answers = answers.push(answer);
        }
        i += 1;
    }
    assert(msgs@.take(msgs@.len() as int) =~= msgs@);
}

/// What the exporter answered in one pass: for the announcements and the events
/// of each thread, and for the messages of other daemons.
pub ghost struct Answers {
    pub ncclops: Seq<Seq<Option<Seq<u64>>>>,
    pub events: Seq<Seq<Option<Seq<u64>>>>,
    pub ipc: Seq<Option<Seq<u64>>>,
}

/// The context and the threads after one pass: announcements of all threads
/// come first, then their events, then the messages of other daemons.
pub open spec fn passed(
    c: CtxView,
    ts: Seq<ControlView>,
    ipc: Seq<InterProcessMessage>,
    max_ncclops: usize,
    max_events: usize,
    p: Profiler,
    now: Instant,
    answers: Answers,
) -> (CtxView, Seq<ControlView>) {
    let (c1, ts1) = threads_passed(
        c,
        ts,
        ts.len(),
        Queue::Ncclops,
        max_ncclops,
        p,
        now,
        answers.ncclops,
    );
    let (c2, ts2) = threads_passed(
        c1,
        ts1,
        ts.len(),
        Queue::Events,
        max_events,
        p,
        now,
        answers.events,
    );
    ipc_all_handled(c2, ts2, ipc, p, now, answers.ipc)
}

/// Whether `answers` are what the exporter says in one pass.
pub open spec fn pass_answered<E: Export>(
    e: E,
    c: CtxView,
    ts: Seq<ControlView>,
    ipc: Seq<InterProcessMessage>,
    max_ncclops: usize,
    max_events: usize,
    p: Profiler,
    now: Instant,
    answers: Answers,
) -> bool {
    let n = ts.len();
    let q = Queue::Ncclops;
    let r = Queue::Events;
    let (c1, ts1) = threads_passed(c, ts, n, q, max_ncclops, p, now, answers.ncclops);
    let (c2, ts2) = threads_passed(c1, ts1, n, r, max_events, p, now, answers.events);
    &&& threads_answered(e, c, ts, n, q, max_ncclops, p, now, answers.ncclops)
    &&& threads_answered(e, c1, ts1, n, r, max_events, p, now, answers.events)
    &&& ipc_all_answered(e, c2, ts2, ipc, p, now, answers.ipc)
}

/// What a pass over the announcements leaves of each thread.
pub proof fn lemma_passed_threads(
    c: CtxView,
    ts: Seq<ControlView>,
    n: nat,
    max: usize,
    p: Profiler,
    now: Instant,
    answers: Seq<Seq<Option<Seq<u64>>>>,
)
    requires
        n <= ts.len(),
    ensures
        ({
            let us = threads_passed(c, ts, n, Queue::Ncclops, max, p, now, answers).1;
            &&& us.len() == ts.len()
            &&& forall|i: int|
                0 <= i < n ==> (#[trigger] us[i]).fifo == ts[i].fifo && us[i].state.proxyops.dom()
                    == known_after_all(
                    ts[i].state.proxyops.dom(),
                    taken(ts[i], Queue::Ncclops, max),
                )
            &&& forall|i: int| n <= i < ts.len() ==> #[trigger] us[i] == ts[i]
        }),
    decreases n,
{
    if n > 0 {
        let before = answers.drop_last();
        lemma_passed_threads(c, ts, (n - 1) as nat, max, p, now, before);
        let (c0, ts0) = threads_passed(c, ts, (n - 1) as nat, Queue::Ncclops, max, p, now, before);
        lemma_known_all(
            (c0, ts0[n - 1].state),
            taken(ts[n - 1], Queue::Ncclops, max),
            p,
            now,
            answers.last(),
        );
    }
}

/// Handles what one pass takes out of the queues of all threads, and the
/// messages of other daemons that came in.
pub fn handle_pass<E: Export>(
    ctx: &mut PollingContext,
    threads: &mut Vec<ThreadControl>,
    ipc: &Vec<InterProcessMessage>,
    max_ncclops: usize,
    max_events: usize,
    exporter: &E,
    p: &Profiler,
    now: Instant,
)
    requires
        pass_usable(view_seq(old(threads)@), ipc@, max_ncclops, max_events),
    ensures
        exists|answers: Answers|
            pass_answered(
                *exporter,
                old(ctx)@,
                view_seq(old(threads)@),
                ipc@,
                max_ncclops,
                max_events,
                *p,
                now,
                answers,
            ) && (final(ctx)@, view_seq(final(threads)@)) == #[trigger] passed(
                old(ctx)@,
                view_seq(old(threads)@),
                ipc@,
                max_ncclops,
                max_events,
                *p,
                now,
                answers,
            ),
{
    let ghost c = ctx@;
    let ghost ts = view_seq(threads@);
    proof {
        assert forall|i: int| 0 <= i < threads@.len() implies batches_are_usable(
            (#[trigger] threads@[i])@.state.proxyops.dom(),
            taken(threads@[i]@, Queue::Ncclops, max_ncclops),
        ) by {
            assert(ts[i] == threads@[i]@);
            lemma_usable_in_parts(
                threads@[i]@.state.proxyops.dom(),
                taken(threads@[i]@, Queue::Ncclops, max_ncclops),
                taken(threads@[i]@, Queue::Events, max_events),
            );
        }
    }
    handle_all(ctx, threads, Queue::Ncclops, max_ncclops, exporter, p, now);
    let ghost ncclops = choose|a: Seq<Seq<Option<Seq<u64>>>>|
        threads_answered(
            *exporter,
            c,
            ts,
            ts.len(),
            Queue::Ncclops,
            max_ncclops,
            *p,
            now,
            a,
        ) && (ctx@, view_seq(threads@)) == #[trigger] threads_passed(
            c,
            ts,
            ts.len(),
            Queue::Ncclops,
            max_ncclops,
            *p,
            now,
            a,
        );
    let ghost c1 = ctx@;
    let ghost ts1 = view_seq(threads@);
    proof {
        lemma_passed_threads(c, ts, ts.len(), max_ncclops, *p, now, ncclops);
        assert forall|i: int| 0 <= i < threads@.len() implies batches_are_usable(
            (#[trigger] threads@[i])@.state.proxyops.dom(),
            taken(threads@[i]@, Queue::Events, max_events),
        ) by {
            assert(ts1[i] == threads@[i]@);
            assert(ts[i] == old(threads)@[i]@);
            assert(taken(ts1[i], Queue::Events, max_events) == taken(
                ts[i],
                Queue::Events,
                max_events,
            ));
            lemma_usable_in_parts(
                ts[i].state.proxyops.dom(),
                taken(ts[i], Queue::Ncclops, max_ncclops),
                taken(ts[i], Queue::Events, max_events),
            );
        }
    }
    handle_all(ctx, threads, Queue::Events, max_events, exporter, p, now);
    let ghost events = choose|a: Seq<Seq<Option<Seq<u64>>>>|
        threads_answered(
            *exporter,
            c1,
            ts1,
            ts1.len(),
            Queue::Events,
            max_events,
            *p,
            now,
            a,
        ) && (ctx@, view_seq(threads@)) == #[trigger] threads_passed(
            c1,
            ts1,
            ts1.len(),
            Queue::Events,
            max_events,
            *p,
            now,
            a,
        );
    let ghost c2 = ctx@;
    let ghost ts2 = view_seq(threads@);
    proof {
        lemma_rest_unchanged(c1, ts1, ts1.len(), Queue::Events, max_events, *p, now, events);
        assert(threads@.len() == ts.len());
    }
    handle_ipc_all(ctx, threads, exporter, ipc, p, now);
    proof {
        let told = choose|a: Seq<Option<Seq<u64>>>|
            ipc_all_answered(*exporter, c2, ts2, ipc@, *p, now, a) && (ctx@, view_seq(threads@))
                == #[trigger] ipc_all_handled(c2, ts2, ipc@, *p, now, a);
        let answers = Answers { ncclops, events, ipc: told };
        assert((ctx@, view_seq(threads@)) == passed(
            c,
            ts,
            ipc@,
            max_ncclops,
            max_events,
            *p,
            now,
            answers,
        ));
    }
}

impl CtxView {
    /// The messages for the process `pid` that the next pass tries to send.
    pub open spec fn ipc_next(self, pid: i32) -> Seq<InterProcessMessage> {
        let waiting = seq_at(self.ipc, pid);
        if waiting.len() <= IPC_SEND_BATCH {
            waiting
        } else {
            waiting.take(IPC_SEND_BATCH as int)
        }
    }

    /// The first `n` messages for the process `pid` were sent.
    pub open spec fn ipc_gone(self, pid: i32, n: nat) -> CtxView {
        let waiting = seq_at(self.ipc, pid);
        CtxView {
            ipc: if n >= waiting.len() {
                self.ipc.remove(pid)
            } else {
                self.ipc.insert(pid, waiting.skip(n as int))
            },
            ..self
        }
    }
}

impl PollingContext {
    /// The processes for which messages wait.
    pub fn ipc_peers(&self) -> (r: Vec<i32>)
        ensures
            r@ == in_order(self@.ipc.dom()),
    {
        assert(self@.ipc.dom() =~= self.pending_ipc_msg@.dom());
        keys_in_order(&self.pending_ipc_msg)
    }

    /// The messages to send to one process in this pass, in order. They stay
    /// here until [`Self::ipc_delivered`] says that they went out.
    pub fn ipc_batch(&self, pid: i32) -> (r: Vec<InterProcessMessage>)
        ensures
            r@ == self@.ipc_next(pid),
    {
        let mut batch: Vec<InterProcessMessage> = Vec::new();
        match self.pending_ipc_msg.get(&pid) {
            Some(waiting) => {
                assert(waiting@ == seq_at(self@.ipc, pid));
                let mut i: usize = 0;
                while i < waiting.len() && i < IPC_SEND_BATCH
                    invariant
                        i <= waiting@.len(),
                        i <= IPC_SEND_BATCH,
                        batch@ == waiting@.take(i as int),
                    decreases waiting@.len() - i,
                {
                    batch.push(waiting[i]);
                    assert(batch@ =~= waiting@.take(i + 1));
                    i += 1;
                }
                assert(batch@ =~= self@.ipc_next(pid));
            },
            None => {
                assert(batch@ =~= self@.ipc_next(pid));
            },
        }
        batch
    }

    /// The first `n` messages of a batch were sent; the others are tried again
    /// in the next pass.
    pub fn ipc_delivered(&mut self, pid: i32, n: usize)
        ensures
            final(self)@ == old(self)@.ipc_gone(pid, n as nat),
    {
        broadcast use group_views;

        match self.pending_ipc_msg.remove(&pid) {
            Some(mut waiting) => {
                let ghost all = waiting@;
                let mut i: usize = 0;
                assert(all.skip(0) =~= all);
                while i < n && waiting.len() > 0
                    invariant
                        i <= n,
                        i <= all.len(),
                        waiting@ == all.skip(i as int),
                    decreases n - i,
                {
                    let _ = waiting.pop_front();
                    assert(waiting@ =~= all.skip(i + 1));
                    i += 1;
                }
                if waiting.len() > 0 {
                    self.pending_ipc_msg.insert(pid, waiting);
                }
            },
            None => {},
        }
        assert(self@ =~= old(self)@.ipc_gone(pid, n as nat));
    }
}

// ---------------------------------------------------- waiting proxy operations

/// Whether a waiting proxy operation is let go: with a limit, where it waited
/// longer than that.
pub open spec fn lets_go(since: Instant, limit: Option<Duration>, now: Instant) -> bool {
    match limit {
        Some(d) => time_between(since, now) > d,
        None => true,
    }
}

/// The context and a thread after the waiting proxy operations `ids` were
/// looked at.
pub open spec fn expired_among(
    s: Pair,
    ids: Seq<u32>,
    limit: Option<Duration>,
    p: Profiler,
    now: Instant,
) -> Pair
    decreases ids.len(),
{
    if ids.len() == 0 {
        s
    } else {
        let (c, t) = expired_among(s, ids.drop_last(), limit, p, now);
        let id = ids.last();
        if lets_go(t.waiting[id].since, limit, now) {
            (
                c.waiting_finalized(t.waiting[id].op, p, now),
                ThreadView { waiting: t.waiting.remove(id), ..t },
            )
        } else {
            (c, t)
        }
    }
}

/// The context and a thread after all its waiting proxy operations were looked
/// at, in ascending order.
pub open spec fn expired(s: Pair, limit: Option<Duration>, p: Profiler, now: Instant) -> Pair {
    expired_among(s, in_order(s.1.waiting.dom()), limit, p, now)
}

/// The context and the threads after the first `n` threads were looked at.
pub open spec fn threads_expired(
    c: CtxView,
    ts: Seq<ControlView>,
    n: nat,
    limit: Option<Duration>,
    p: Profiler,
    now: Instant,
) -> (CtxView, Seq<ControlView>)
    decreases n,
{
    if n == 0 {
        (c, ts)
    } else {
        let (c0, ts0) = threads_expired(c, ts, (n - 1) as nat, limit, p, now);
        let (c1, state) = expired((c0, ts0[n - 1].state), limit, p, now);
        (c1, ts0.update(n - 1, ControlView { state, ..ts0[n - 1] }))
    }
}

impl ThreadState {
    /// Lets go of the waiting proxy operations whose time is up.
    pub fn expire_waiting(
        &mut self,
        ctx: &mut PollingContext,
        limit: Option<Duration>,
        p: &Profiler,
        now: Instant,
    )
        ensures
            (final(ctx)@, final(self)@) == expired((old(ctx)@, old(self)@), limit, *p, now),
    {
        broadcast use group_views;

        let ids: Vec<u32> = keys_in_order(&self.pending_comm_hash_proxyops);
        let ghost first = (ctx@, self@);
        assert(self@.waiting.dom() =~= self.pending_comm_hash_proxyops@.dom());
        proof {
            lemma_distinct(ids@, self@.waiting.dom());
            assert forall|j: int| 0 <= j < ids@.len() implies self@.waiting.contains_key(
                #[trigger] ids@[j],
            ) by {
                assert(ids@.to_set().contains(ids@[j]));
            }
        }
        assert(ids@.take(0) =~= Seq::<u32>::empty());
        let mut i: usize = 0;
        while i < ids.len()
            invariant
                i <= ids@.len(),
                ids@.no_duplicates(),
                forall|j: int|
                    i <= j < ids@.len() ==> self@.waiting.contains_key(#[trigger] ids@[j]),
                (ctx@, self@) == expired_among(first, ids@.take(i as int), limit, *p, now),
            decreases ids@.len() - i,
        {
            let ghost t = self@;
            let id: u32 = ids[i];
            assert(ids@.take(i + 1).drop_last() =~= ids@.take(i as int));
            match self.pending_comm_hash_proxyops.remove(&id) {
                Some(waiting) => {
                    let up: bool = match limit {
                        Some(d) => elapsed(waiting.since, now) > d,
                        None => true,
                    };
                    if up {
                        ctx.finalize_pending_comm_hash_proxyop(waiting.op, p, now);
                        assert(self@ =~= (ThreadView { waiting: t.waiting.remove(id), ..t }));
                    } else {
                        self.pending_comm_hash_proxyops.insert(id, waiting);
                        assert(self@ =~= t);
                    }
                },
                None => {
                    assert(false);
                },
            }
            i += 1;
        }
        assert(ids@.take(ids@.len() as int) =~= ids@);
    }
}

/// Lets go of the waiting proxy operations of all threads whose time is up;
/// without a limit, of all of them.
pub fn expire_all_waiting(
    ctx: &mut PollingContext,
    threads: &mut Vec<ThreadControl>,
    limit: Option<Duration>,
    p: &Profiler,
    now: Instant,
)
    ensures
        (final(ctx)@, view_seq(final(threads)@)) == threads_expired(
            old(ctx)@,
            view_seq(old(threads)@),
            old(threads)@.len(),
            limit,
            *p,
            now,
        ),
{
    broadcast use group_views;

    let ghost c = ctx@;
    let ghost before = view_seq(threads@);
    let mut i: usize = 0;
    while i < threads.len()
        invariant
            i <= threads@.len(),
            threads@.len() == old(threads)@.len(),
            (ctx@, view_seq(threads@)) == threads_expired(c, before, i as nat, limit, *p, now),
        decreases threads@.len() - i,
    {
        let ghost earlier = threads@;
        threads[i].daemon_state.expire_waiting(ctx, limit, p, now);
        assert(threads@ == earlier.update(i as int, threads@[i as int]));
        assert(view_seq(threads@) == view_seq(earlier).update(i as int, threads@[i as int]@));
        i += 1;
    }
}

// ---------------------------------------------------------------- reclaiming

/// How an ordinary sweep decides.
pub open spec fn aged_policy(config: Config) -> ReclaimPolicy {
    ReclaimPolicy::Aged {
        batch: NCCLOP_RECLAIM_BATCH,
        comp_delay: config.ncclop_completion_delay,
        timeout: config.ncclop_timeout,
    }
}

impl CtxView {
    /// Operations that are done or too old were given up. Where too many are
    /// left, those that were announced first follow.
    pub open spec fn trimmed(self, config: Config, now: Instant) -> CtxView {
        let c = self.swept(aged_policy(config), now);
        if c.ncclops.len() > config.max_tracked_ncclop {
            c.swept(
                ReclaimPolicy::Oldest {
                    n: (c.ncclops.len() - config.max_tracked_ncclop) as usize,
                },
                now,
            )
        } else {
            c
        }
    }

    /// Nothing is followed any more; what was is reported.
    pub open spec fn closed(self, now: Instant) -> CtxView {
        self.swept(ReclaimPolicy::All, now).all_groups_flushed()
    }
}

impl PollingContext {
    fn n_inflight(&self) -> (n: usize)
        ensures
            n == self@.ncclops.len(),
    {
        assert(self@.ncclops.dom() =~= self.ncclops@.dom());
        self.ncclops.len()
    }

    /// Gives up operations that are done, too old or too many.
    pub fn reclaim_pass(&mut self, config: &Config, now: Instant)
        ensures
            final(self)@ == old(self)@.trimmed(*config, now),
    {
        self.try_reclaim_ncclops_from_map(
            ReclaimPolicy::Aged {
                batch: NCCLOP_RECLAIM_BATCH,
                comp_delay: config.ncclop_completion_delay,
                timeout: config.ncclop_timeout,
            },
            now,
        );
        let n: usize = self.n_inflight();
        if n > config.max_tracked_ncclop {
            self.try_reclaim_ncclops_from_map(
                ReclaimPolicy::Oldest { n: n - config.max_tracked_ncclop },
                now,
            );
        }
    }
}

/// The last step of a pass: proxy operations that waited too long are let go,
/// and operations that are done, too old or too many are given up.
pub fn settle_pass(
    ctx: &mut PollingContext,
    threads: &mut Vec<ThreadControl>,
    p: &Profiler,
    now: Instant,
)
    ensures
        ({
            let (c, ts) = threads_expired(
                old(ctx)@,
                view_seq(old(threads)@),
                old(threads)@.len(),
                Some(p.config.comm_hash_ipc_timeout),
                *p,
                now,
            );
            final(ctx)@ == c.trimmed(p.config, now) && view_seq(final(threads)@) == ts
        }),
{
    expire_all_waiting(ctx, threads, Some(p.config.comm_hash_ipc_timeout), p, now);
    ctx.reclaim_pass(&p.config, now);
}

/// The last step before the daemon stops, after every queue was emptied:
/// nothing waits and nothing is followed any more.
pub fn finish(
    ctx: &mut PollingContext,
    threads: &mut Vec<ThreadControl>,
    p: &Profiler,
    now: Instant,
)
    ensures
        ({
            let (c, ts) = threads_expired(
                old(ctx)@,
                view_seq(old(threads)@),
                old(threads)@.len(),
                None,
                *p,
                now,
            );
            final(ctx)@ == c.closed(now) && view_seq(final(threads)@) == ts
        }),
{
    expire_all_waiting(ctx, threads, None, p, now);
    ctx.reclaim_all_ncclops_in_map(now);
    ctx.flush_p2p_parents();
}

} // verus!
