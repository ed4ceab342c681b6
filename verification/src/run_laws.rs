//! From start to end: what the threads announce over the whole life of the
//! daemon is handed on once.
use crate::clock::Instant;
use crate::daemon::{ControlView, FifoView, InterProcessMessage, Message, TelemetryView};
use crate::event::{NcclOpView, OpInfo};
use crate::exporter::{taken_out, Outcome};
use crate::polling_laws::{
    law_handling_takes_the_oldest, law_last_pass_handles_everything, law_nothing_is_left_behind,
    law_receiving_keeps_messages_in_order, lemma_same_wf, lemma_threads_expired_same, same_progress,
    same_reports,
};
use crate::polling_model::{ipc_handled, ipc_is_addressed, CtxView};
use crate::polling_pass::{
    events_wait, ipc_all_handled, lemma_passed_threads, lemma_rest_unchanged, pass_received,
    pass_usable, passed, received_from, rest_received, taken, threads_expired, threads_passed,
    Answers, Queue, FIFO_FETCH_INTERVAL, FIFO_PROCESS_BATCH, FIFO_RECV_BATCH,
    ONLINE_FIFO_PROCESS_BATCH,
};
use crate::profiler::Profiler;
use crate::rounds::{last_round_ended, round_begun, round_ended};
use crate::telling_laws::{
    announced_by, announced_in, announced_in_pass, at_home, law_passes_account_for_operations,
    lemma_closed, lemma_exported, lemma_same_events, lemma_same_tally, lemma_told_concat,
    lemma_trimmed, named_by, named_in, named_in_pass, names, pass_at_home, threads_at_home, told,
    watch, Watch,
};
use vstd::prelude::*;

verus! {

// ---------------------------------------------------------------------- rounds

/// One round of the daemon: the threads as it finds them, what other daemons
/// sent, what the exporter answered, how much went out to other daemons, and
/// what became of the attempts to export. `begin_round`, `end_round` and one
/// scan of the exporter take these steps.
pub ghost struct Round {
    pub ts: Seq<ControlView>,
    pub ipc: Seq<InterProcessMessage>,
    pub p: Profiler,
    pub now: Instant,
    pub answers: Answers,
    pub sent: Seq<(i32, usize)>,
    pub later: Instant,
    pub outcomes: Seq<Outcome>,
}

/// The last round: the threads as it finds them, and what became of the attempts
/// to export, which are made again and again. `last_round` and scans of the
/// exporter take these steps.
pub ghost struct LastRound {
    pub ts: Seq<ControlView>,
    pub p: Profiler,
    pub now: Instant,
    pub answers: Answers,
    pub outcomes: Seq<Seq<Outcome>>,
}

/// What the daemon knows, the threads, and the records that it handed on, in
/// order.
pub ghost struct DaemonView {
    pub c: CtxView,
    pub ts: Seq<ControlView>,
    pub handed: Seq<TelemetryView>,
}

impl Round {
    /// The threads after what they sent was taken in.
    pub open spec fn received(self) -> Seq<ControlView> {
        pass_received(self.ts, self.ipc.len() > 0, self.now)
    }

    /// Whether what is taken in can be handled.
    pub open spec fn is_usable(self) -> bool {
        pass_usable(self.received(), self.ipc, ONLINE_FIFO_PROCESS_BATCH, FIFO_PROCESS_BATCH)
    }

    /// The context and the threads before this round's attempts to export.
    pub open spec fn settled(self, c: CtxView) -> (CtxView, Seq<ControlView>) {
        let (d, us) = round_begun(c, self.ts, self.ipc, self.p, self.now, self.answers);
        round_ended(d, us, self.sent, self.p, self.later)
    }

    /// How often the operation is announced in what this round handles.
    pub open spec fn announced(self, w: Watch) -> nat {
        announced_in_pass(self.received(), ONLINE_FIFO_PROCESS_BATCH, FIFO_PROCESS_BATCH, w)
    }

    /// How often an operation with this id is announced in it.
    pub open spec fn named(self, id: usize) -> nat {
        named_in_pass(self.received(), ONLINE_FIFO_PROCESS_BATCH, FIFO_PROCESS_BATCH, id)
    }
}

impl LastRound {
    /// The threads after all that they sent was taken in.
    pub open spec fn received(self) -> Seq<ControlView> {
        rest_received(self.ts, self.now)
    }

    /// The context and the threads before the last attempts to export.
    pub open spec fn settled(self, c: CtxView) -> (CtxView, Seq<ControlView>) {
        last_round_ended(c, self.ts, self.p, self.now, self.answers)
    }

    pub open spec fn announced(self, w: Watch) -> nat {
        announced_in_pass(self.received(), usize::MAX, usize::MAX, w)
    }

    pub open spec fn named(self, id: usize) -> nat {
        named_in_pass(self.received(), usize::MAX, usize::MAX, id)
    }
}

impl DaemonView {
    pub open spec fn fresh() -> DaemonView {
        DaemonView { c: CtxView::fresh(), ts: Seq::empty(), handed: Seq::empty() }
    }

    /// The daemon after one scan over its records.
    pub open spec fn exported(self, os: Seq<Outcome>, retrying: bool) -> DaemonView {
        DaemonView {
            c: self.c.exported(os.len(), os, retrying).0,
            handed: self.handed + taken_out(self.c, os.len(), os, retrying),
            ..self
        }
    }

    pub open spec fn exported_all(self, oss: Seq<Seq<Outcome>>) -> DaemonView
        decreases oss.len(),
    {
        if oss.len() == 0 {
            self
        } else {
            self.exported_all(oss.drop_last()).exported(oss.last(), true)
        }
    }

    /// The daemon in a round, before its attempts to export.
    pub open spec fn settled(self, r: Round) -> DaemonView {
        DaemonView { c: r.settled(self.c).0, ts: r.settled(self.c).1, ..self }
    }

    pub open spec fn after_round(self, r: Round) -> DaemonView {
        self.settled(r).exported(r.outcomes, false)
    }

    pub open spec fn after_rounds(self, rs: Seq<Round>) -> DaemonView
        decreases rs.len(),
    {
        if rs.len() == 0 {
            self
        } else {
            self.after_rounds(rs.drop_last()).after_round(rs.last())
        }
    }

    /// The daemon in its last round, before the attempts to export.
    pub open spec fn closed(self, l: LastRound) -> DaemonView {
        DaemonView { c: l.settled(self.c).0, ts: l.settled(self.c).1, ..self }
    }

    pub open spec fn after_last(self, l: LastRound) -> DaemonView {
        self.closed(l).exported_all(l.outcomes)
    }

    /// Whether the attempts of every scan find a record to try.
    pub open spec fn tries_what_is_there(self, oss: Seq<Seq<Outcome>>) -> bool
        decreases oss.len(),
    {
        oss.len() == 0 || (self.tries_what_is_there(oss.drop_last()) && oss.last().len()
            <= self.exported_all(oss.drop_last()).c.pending.len())
    }

    /// Whether the daemon can go through `rs`: each round finds the threads as
    /// the one before left them, but for what they sent since and for threads
    /// that are new, and can handle what it takes in.
    pub open spec fn goes_through(self, rs: Seq<Round>) -> bool
        decreases rs.len(),
    {
        rs.len() == 0 || ({
            let (s, r) = (self.after_rounds(rs.drop_last()), rs.last());
            &&& self.goes_through(rs.drop_last())
            &&& grew(s.ts, r.ts)
            &&& r.is_usable()
            &&& r.outcomes.len() <= s.settled(r).c.pending.len()
        })
    }

    /// Whether the daemon can stop with `l`, and hands on every record. No queue
    /// holds more than a number counts.
    pub open spec fn stops_with(self, l: LastRound) -> bool {
        &&& grew(self.ts, l.ts)
        &&& forall|i: int, q: Queue|
            0 <= i < l.ts.len() ==> waiting(#[trigger] l.ts[i].queue(q)).len() <= usize::MAX
        &&& self.closed(l).tries_what_is_there(l.outcomes)
        &&& self.after_last(l).c.pending.len() == 0
    }

    /// How often the operation is announced by what the threads send before and
    /// during `rs`.
    pub open spec fn sent_in(self, rs: Seq<Round>, w: Watch) -> nat
        decreases rs.len(),
    {
        if rs.len() == 0 {
            0
        } else {
            self.sent_in(rs.drop_last(), w) + sent_between(
                self.after_rounds(rs.drop_last()).ts,
                rs.last().ts,
                rs.last().ts.len(),
                w,
            )
        }
    }

    /// How often the operation is in flight, waits, or was told, handed on or
    /// not.
    pub open spec fn tally(self, w: Watch) -> nat {
        self.c.tally(w) + told(self.handed, w.id, w.own)
    }

    /// Whether `d` follows from this daemon by steps that announced the
    /// operation `k` times, and `any` times if its kind is left aside.
    spec fn gives(self, d: DaemonView, w: Watch, k: nat, any: nat) -> bool {
        &&& d.c.sound()
        &&& d.c.homed(w)
        &&& d.tally(w) == self.tally(w) + k
        &&& any == 0 && !self.c.ncclops.contains_key(w.id) ==> !d.c.ncclops.contains_key(w.id)
    }
}

// ---------------------------------------------------------------------- queues

/// What a thread sent through a queue and the daemon has not handled yet,
/// oldest first.
pub open spec fn waiting(f: FifoView<Message>) -> Seq<Message> {
    f.pending + f.queue.ready + f.queue.held
}

/// Whether `us` are the threads `ts` after they sent more messages, with new
/// threads behind them.
pub open spec fn grew(ts: Seq<ControlView>, us: Seq<ControlView>) -> bool {
    &&& ts.len() <= us.len()
    &&& forall|i: int, q: Queue|
        0 <= i < ts.len() ==> waiting(ts[i].queue(q)).is_prefix_of(
            waiting(#[trigger] us[i].queue(q)),
        )
}

/// What the thread `i` of `us` sent through a queue since it was as in `ts`.
pub open spec fn news(ts: Seq<ControlView>, us: Seq<ControlView>, i: int, q: Queue) -> Seq<Message> {
    waiting(us[i].queue(q)).skip(
        if i < ts.len() {
            waiting(ts[i].queue(q)).len() as int
        } else {
            0
        },
    )
}

/// How often the operation is announced in what the first `n` threads sent
/// between `ts` and `us`.
pub open spec fn sent_between(ts: Seq<ControlView>, us: Seq<ControlView>, n: nat, w: Watch) -> nat
    decreases n,
{
    if n == 0 {
        0
    } else {
        sent_between(ts, us, (n - 1) as nat, w) + announced_in(
            news(ts, us, n - 1, Queue::Ncclops),
            w,
        ) + announced_in(news(ts, us, n - 1, Queue::Events), w)
    }
}

/// Whether all that waits announces the operation in its group.
pub open spec fn waits_at_home(ts: Seq<ControlView>, w: Watch) -> bool {
    forall|i: int, q: Queue|
        0 <= i < ts.len() ==> at_home(waiting(#[trigger] ts[i].queue(q)), w)
}

/// Whether the operation is announced in its group whenever it is.
pub open spec fn sent_at_home(rs: Seq<Round>, w: Watch) -> bool {
    forall|i: int| 0 <= i < rs.len() ==> waits_at_home((#[trigger] rs[i]).ts, w)
}

/// How often the operation is announced in what waits in the queues of the first
/// `n` threads.
spec fn waits(ts: Seq<ControlView>, n: nat, w: Watch) -> nat
    decreases n,
{
    if n == 0 {
        0
    } else {
        waits(ts, (n - 1) as nat, w) + announced_in(waiting(ts[n - 1].ncclop), w) + announced_in(
            waiting(ts[n - 1].fifo),
            w,
        )
    }
}

proof fn lemma_announced_concat(a: Seq<Message>, b: Seq<Message>, w: Watch)
    ensures
        announced_in(a + b, w) == announced_in(a, w) + announced_in(b, w),
    decreases b.len(),
{
    if b.len() == 0 {
        assert(a + b =~= a);
    } else {
        assert((a + b).drop_last() =~= a + b.drop_last());
        lemma_announced_concat(a, b.drop_last(), w);
    }
}

/// What waits is what waited, and what was sent since.
proof fn lemma_grew(ts: Seq<ControlView>, us: Seq<ControlView>, n: nat, w: Watch)
    requires
        grew(ts, us),
        n <= us.len(),
    ensures
        waits(us, n, w) == sent_between(ts, us, n, w) + waits(
            ts,
            if n <= ts.len() {
                n
            } else {
                ts.len()
            },
            w,
        ),
    decreases n,
{
    if n > 0 {
        let i = n - 1;
        lemma_grew(ts, us, i as nat, w);
        lemma_grew_in_queue(ts, us, i, Queue::Ncclops, w);
        lemma_grew_in_queue(ts, us, i, Queue::Events, w);
    }
}

proof fn lemma_grew_in_queue(ts: Seq<ControlView>, us: Seq<ControlView>, i: int, q: Queue, w: Watch)
    requires
        grew(ts, us),
        0 <= i < us.len(),
    ensures
        announced_in(waiting(us[i].queue(q)), w) == announced_in(news(ts, us, i, q), w) + if i
            < ts.len() {
            announced_in(waiting(ts[i].queue(q)), w)
        } else {
            0
        },
{
    let after = waiting(us[i].queue(q));
    if i < ts.len() {
        let before = waiting(ts[i].queue(q));
        assert(us[i].queue(q) == us[i].queue(q));
        assert(before.is_prefix_of(after));
        assert(before + news(ts, us, i, q) =~= after);
        lemma_announced_concat(before, news(ts, us, i, q), w);
    } else {
        assert(news(ts, us, i, q) =~= after);
    }
}

/// Whether the same messages wait in two listings of threads.
spec fn same_waiting(ts: Seq<ControlView>, us: Seq<ControlView>) -> bool {
    &&& us.len() == ts.len()
    &&& forall|i: int, q: Queue|
        0 <= i < ts.len() ==> waiting(#[trigger] us[i].queue(q)) == waiting(ts[i].queue(q))
}

proof fn lemma_same_waits(ts: Seq<ControlView>, us: Seq<ControlView>, n: nat, w: Watch)
    requires
        same_waiting(ts, us),
        n <= ts.len(),
    ensures
        waits(us, n, w) == waits(ts, n, w),
    decreases n,
{
    if n > 0 {
        lemma_same_waits(ts, us, (n - 1) as nat, w);
        assert(waiting(us[n - 1].queue(Queue::Ncclops)) == waiting(ts[n - 1].queue(Queue::Ncclops)));
        assert(waiting(us[n - 1].queue(Queue::Events)) == waiting(ts[n - 1].queue(Queue::Events)));
    }
}

proof fn lemma_received(
    ts: Seq<ControlView>,
    q: Queue,
    max_recv: usize,
    force: bool,
    now: Instant,
)
    ensures
        same_waiting(ts, received_from(ts, ts.len() as int, q, max_recv, force, now)),
{
    let us = received_from(ts, ts.len() as int, q, max_recv, force, now);
    assert forall|i: int, r: Queue| 0 <= i < ts.len() implies waiting(#[trigger] us[i].queue(r))
        == waiting(ts[i].queue(r)) by {
        law_receiving_keeps_messages_in_order(
            ts[i].queue(q),
            FIFO_FETCH_INTERVAL,
            max_recv,
            force,
            now,
        );
    }
}

/// What a pass handles waited at the front of its queue.
proof fn lemma_taken_is_first(t: ControlView, q: Queue, max: usize)
    ensures
        waiting(t.queue(q)) == taken(t, q, max) + waiting(
            (FifoView {
                pending: t.queue(q).pending.skip(t.queue(q).handled(max) as int),
                ..t.queue(q)
            }),
        ),
{
    let f = t.queue(q);
    let rest = FifoView { pending: f.pending.skip(f.handled(max) as int), ..f };
    law_handling_takes_the_oldest(f, max);
    assert(taken(t, q, max) + waiting(rest) =~= (taken(t, q, max) + rest.pending) + f.queue.ready
        + f.queue.held);
}

/// What a pass over one queue of the first `n` threads leaves waiting.
proof fn lemma_left_waiting(
    c: CtxView,
    ts: Seq<ControlView>,
    n: nat,
    q: Queue,
    max: usize,
    p: Profiler,
    now: Instant,
    answers: Seq<Seq<Option<Seq<u64>>>>,
)
    requires
        n <= ts.len(),
    ensures
        ({
            let us = threads_passed(c, ts, n, q, max, p, now, answers).1;
            &&& us.len() == ts.len()
            &&& forall|i: int, r: Queue|
                0 <= i < ts.len() ==> waiting(ts[i].queue(r)) == if i < n && r == q {
                    taken(ts[i], q, max) + waiting(#[trigger] us[i].queue(r))
                } else {
                    waiting(us[i].queue(r))
                }
        }),
    decreases n,
{
    if n > 0 {
        let before = answers.drop_last();
        lemma_left_waiting(c, ts, (n - 1) as nat, q, max, p, now, before);
        lemma_rest_unchanged(c, ts, (n - 1) as nat, q, max, p, now, before);
        let us0 = threads_passed(c, ts, (n - 1) as nat, q, max, p, now, before).1;
        let us = threads_passed(c, ts, n, q, max, p, now, answers).1;
        assert(us0[n - 1] == ts[n - 1]);
        lemma_taken_is_first(ts[n - 1], q, max);
        assert forall|i: int, r: Queue| 0 <= i < ts.len() implies waiting(ts[i].queue(r)) == if i
            < n && r == q {
            taken(ts[i], q, max) + waiting(#[trigger] us[i].queue(r))
        } else {
            waiting(us[i].queue(r))
        } by {
            if i != n - 1 {
                assert(us[i] == us0[i]);
                assert(us0[i].queue(r) == us[i].queue(r));
            }
        }
    }
}

/// A pass over one queue takes what it handles off what waits.
proof fn lemma_waits_less(
    ts: Seq<ControlView>,
    us: Seq<ControlView>,
    n: nat,
    q: Queue,
    max: usize,
    w: Watch,
)
    requires
        n <= ts.len(),
        us.len() == ts.len(),
        forall|i: int, r: Queue|
            0 <= i < ts.len() ==> waiting(ts[i].queue(r)) == if r == q {
                taken(ts[i], q, max) + waiting(#[trigger] us[i].queue(r))
            } else {
                waiting(us[i].queue(r))
            },
    ensures
        waits(ts, n, w) == announced_by(ts, n, q, max, w) + waits(us, n, w),
    decreases n,
{
    if n > 0 {
        let i = n - 1;
        lemma_waits_less(ts, us, i as nat, q, max, w);
        assert(us[i].queue(Queue::Ncclops) == us[i].ncclop);
        assert(us[i].queue(Queue::Events) == us[i].fifo);
        lemma_announced_concat(taken(ts[i], q, max), waiting(us[i].queue(q)), w);
    }
}

/// A message of another daemon leaves the queues alone.
proof fn lemma_ipc_queues(
    c: CtxView,
    ts: Seq<ControlView>,
    ms: Seq<InterProcessMessage>,
    p: Profiler,
    now: Instant,
    answers: Seq<Option<Seq<u64>>>,
)
    requires
        forall|i: int| 0 <= i < ms.len() ==> ipc_is_addressed(ts.len(), #[trigger] ms[i]),
    ensures
        same_waiting(ts, ipc_all_handled(c, ts, ms, p, now, answers).1),
    decreases ms.len(),
{
    if ms.len() > 0 {
        let front = ms.drop_last();
        assert forall|i: int| 0 <= i < front.len() implies ipc_is_addressed(
            ts.len(),
            #[trigger] front[i],
        ) by {
            assert(front[i] == ms[i]);
        }
        lemma_ipc_queues(c, ts, front, p, now, answers.drop_last());
        let (c0, us) = ipc_all_handled(c, ts, front, p, now, answers.drop_last());
        let vs = ipc_handled(c0, us, ms.last(), p, now, answers.last()).1;
        assert(ipc_is_addressed(ts.len(), ms[ms.len() - 1]));
        assert forall|i: int, q: Queue| 0 <= i < ts.len() implies waiting(#[trigger] vs[i].queue(q))
            == waiting(ts[i].queue(q)) by {
            assert(vs[i].queue(q) == us[i].queue(q));
        }
    }
}

/// Nor does letting waiting proxy operations go.
proof fn lemma_expired_queues(
    c: CtxView,
    ts: Seq<ControlView>,
    n: nat,
    limit: Option<u128>,
    p: Profiler,
    now: Instant,
)
    requires
        n <= ts.len(),
    ensures
        same_waiting(ts, threads_expired(c, ts, n, limit, p, now).1),
    decreases n,
{
    if n > 0 {
        lemma_expired_queues(c, ts, (n - 1) as nat, limit, p, now);
        let us = threads_expired(c, ts, (n - 1) as nat, limit, p, now).1;
        let vs = threads_expired(c, ts, n, limit, p, now).1;
        assert forall|i: int, q: Queue| 0 <= i < ts.len() implies waiting(#[trigger] vs[i].queue(q))
            == waiting(ts[i].queue(q)) by {
            assert(vs[i].queue(q) == us[i].queue(q));
        }
    }
}

/// A round takes what it handles off what waits, and nothing else.
proof fn lemma_round_waits(c: CtxView, r: Round, w: Watch)
    requires
        r.is_usable(),
    ensures
        ({
            let us = r.settled(c).1;
            waits(r.ts, r.ts.len(), w) == r.announced(w) + waits(us, us.len(), w)
        }),
{
    let (n, m) = (ONLINE_FIFO_PROCESS_BATCH, FIFO_PROCESS_BATCH);
    let k = r.ts.len();
    let ts = r.received();
    lemma_round_received(r);
    lemma_same_waits(r.ts, ts, k, w);
    let a = r.answers;
    lemma_left_waiting(c, ts, k, Queue::Ncclops, n, r.p, r.now, a.ncclops);
    let (c1, ts1) = threads_passed(c, ts, k, Queue::Ncclops, n, r.p, r.now, a.ncclops);
    lemma_waits_less(ts, ts1, k, Queue::Ncclops, n, w);
    lemma_left_waiting(c1, ts1, k, Queue::Events, m, r.p, r.now, a.events);
    let (c2, ts2) = threads_passed(c1, ts1, k, Queue::Events, m, r.p, r.now, a.events);
    lemma_waits_less(ts1, ts2, k, Queue::Events, m, w);
    lemma_same_events_taken(c, ts, k, n, m, r.p, r.now, a.ncclops, w);
    lemma_ipc_queues(c2, ts2, r.ipc, r.p, r.now, a.ipc);
    let (c3, ts3) = ipc_all_handled(c2, ts2, r.ipc, r.p, r.now, a.ipc);
    lemma_same_waits(ts2, ts3, k, w);
    let limit = Some(r.p.config.comm_hash_ipc_timeout);
    let c4 = c3.all_gone(r.sent);
    lemma_expired_queues(c4, ts3, k, limit, r.p, r.later);
    lemma_same_waits(ts3, threads_expired(c4, ts3, k, limit, r.p, r.later).1, k, w);
}

proof fn lemma_round_received(r: Round)
    ensures
        same_waiting(r.ts, r.received()),
{
    let us = received_from(
        r.ts,
        r.ts.len() as int,
        Queue::Events,
        FIFO_RECV_BATCH,
        false,
        r.now,
    );
    lemma_received(r.ts, Queue::Events, FIFO_RECV_BATCH, false, r.now);
    let force = r.ipc.len() > 0 || events_wait(r.ts, r.now);
    lemma_received(us, Queue::Ncclops, FIFO_RECV_BATCH, force, r.now);
    let vs = r.received();
    assert forall|i: int, q: Queue| 0 <= i < r.ts.len() implies waiting(#[trigger] vs[i].queue(q))
        == waiting(r.ts[i].queue(q)) by {
        assert(waiting(us[i].queue(q)) == waiting(r.ts[i].queue(q)));
    }
}

/// A pass over the announcements does not change what the pass over the events
/// takes.
proof fn lemma_same_events_taken(
    c: CtxView,
    ts: Seq<ControlView>,
    n: nat,
    max_ncclops: usize,
    max_events: usize,
    p: Profiler,
    now: Instant,
    answers: Seq<Seq<Option<Seq<u64>>>>,
    w: Watch,
)
    requires
        n == ts.len(),
    ensures
        ({
            let us = threads_passed(c, ts, n, Queue::Ncclops, max_ncclops, p, now, answers).1;
            announced_by(us, n, Queue::Events, max_events, w) == announced_by(
                ts,
                n,
                Queue::Events,
                max_events,
                w,
            )
        }),
{
    let us = threads_passed(c, ts, n, Queue::Ncclops, max_ncclops, p, now, answers).1;
    lemma_passed_threads(c, ts, n, max_ncclops, p, now, answers);
    lemma_same_events(ts, us, n, max_events, w);
}

/// The last round handles all that waits.
proof fn lemma_last_takes_all(l: LastRound, n: nat, w: Watch)
    requires
        n <= l.ts.len(),
        forall|i: int, q: Queue|
            0 <= i < l.ts.len() ==> waiting(#[trigger] l.ts[i].queue(q)).len() <= usize::MAX,
    ensures
        ({
            let us = l.received();
            announced_by(us, n, Queue::Ncclops, usize::MAX, w) + announced_by(
                us,
                n,
                Queue::Events,
                usize::MAX,
                w,
            ) == waits(l.ts, n, w)
        }),
    decreases n,
{
    if n > 0 {
        lemma_last_takes_all(l, (n - 1) as nat, w);
        lemma_last_taken(l, n - 1);
        assert(l.ts[n - 1].queue(Queue::Ncclops) == l.ts[n - 1].ncclop);
        assert(l.ts[n - 1].queue(Queue::Events) == l.ts[n - 1].fifo);
    }
}

proof fn lemma_last_taken(l: LastRound, i: int)
    requires
        0 <= i < l.ts.len(),
        forall|i: int, q: Queue|
            0 <= i < l.ts.len() ==> waiting(#[trigger] l.ts[i].queue(q)).len() <= usize::MAX,
    ensures
        forall|q: Queue|
            taken(l.received()[i], q, usize::MAX) == waiting(#[trigger] l.ts[i].queue(q)),
{
    let t = l.received()[i];
    assert(waiting(l.ts[i].queue(Queue::Ncclops)).len() <= usize::MAX);
    assert(waiting(l.ts[i].queue(Queue::Events)).len() <= usize::MAX);
    law_nothing_is_left_behind(l.ts, l.now, i);
    law_last_pass_handles_everything(t, Queue::Ncclops);
    law_last_pass_handles_everything(t, Queue::Events);
    assert forall|q: Queue| taken(t, q, usize::MAX) == waiting(#[trigger] l.ts[i].queue(q)) by {
        match q {
            Queue::Ncclops => {},
            Queue::Events => {},
        }
    }
}

/// Over all rounds, what was handled and what waits is what was sent.
proof fn lemma_sent(s: DaemonView, rs: Seq<Round>, w: Watch)
    requires
        s.ts.len() == 0,
        s.goes_through(rs),
    ensures
        s.sent_in(rs, w) == handled_in(rs, w) + waits(
            s.after_rounds(rs).ts,
            s.after_rounds(rs).ts.len(),
            w,
        ),
    decreases rs.len(),
{
    if rs.len() > 0 {
        let front = rs.drop_last();
        let r = rs.last();
        let d = s.after_rounds(front);
        lemma_sent(s, front, w);
        lemma_grew(d.ts, r.ts, r.ts.len(), w);
        lemma_round_waits(d.c, r, w);
    }
}

/// What waits in its group is handled in its group.
proof fn lemma_taken_at_home(
    ts: Seq<ControlView>,
    us: Seq<ControlView>,
    max_ncclops: usize,
    max_events: usize,
    w: Watch,
)
    requires
        same_waiting(ts, us),
        waits_at_home(ts, w),
    ensures
        pass_at_home(us, max_ncclops, max_events, w),
{
    lemma_queue_at_home(ts, us, Queue::Ncclops, max_ncclops, w);
    lemma_queue_at_home(ts, us, Queue::Events, max_events, w);
}

proof fn lemma_queue_at_home(
    ts: Seq<ControlView>,
    us: Seq<ControlView>,
    q: Queue,
    max: usize,
    w: Watch,
)
    requires
        same_waiting(ts, us),
        waits_at_home(ts, w),
    ensures
        threads_at_home(us, q, max, w),
{
    assert forall|i: int| 0 <= i < us.len() implies at_home(taken(#[trigger] us[i], q, max), w) by {
        let all = waiting(ts[i].queue(q));
        assert(at_home(all, w));
        assert(waiting(us[i].queue(q)) == all);
        let ms = taken(us[i], q, max);
        assert forall|j: int| 0 <= j < ms.len() && names((#[trigger] ms[j])@, w.id) > 0 implies
            ms[j]@->NcclOp_0.info.parent_group_id == w.home by {
            assert(ms[j] == all[j]);
        }
    }
}

proof fn lemma_last_received(l: LastRound)
    ensures
        same_waiting(l.ts, l.received()),
{
    let us = received_from(
        l.ts,
        l.ts.len() as int,
        Queue::Ncclops,
        usize::MAX,
        true,
        l.now,
    );
    lemma_received(l.ts, Queue::Ncclops, usize::MAX, true, l.now);
    lemma_received(us, Queue::Events, usize::MAX, true, l.now);
    let vs = l.received();
    assert forall|i: int, q: Queue| 0 <= i < l.ts.len() implies waiting(#[trigger] vs[i].queue(q))
        == waiting(l.ts[i].queue(q)) by {
        assert(waiting(us[i].queue(q)) == waiting(l.ts[i].queue(q)));
    }
}

// --------------------------------------------------------------------- telling

/// How often `rs` handle an announcement of the operation.
pub open spec fn handled_in(rs: Seq<Round>, w: Watch) -> nat
    decreases rs.len(),
{
    if rs.len() == 0 {
        0
    } else {
        handled_in(rs.drop_last(), w) + rs.last().announced(w)
    }
}

/// How often they handle one of an operation with this id.
spec fn named_in_rounds(rs: Seq<Round>, id: usize) -> nat
    decreases rs.len(),
{
    if rs.len() == 0 {
        0
    } else {
        named_in_rounds(rs.drop_last(), id) + rs.last().named(id)
    }
}

proof fn lemma_daemon_exported(s: DaemonView, os: Seq<Outcome>, retrying: bool, w: Watch)
    requires
        s.c.sound(),
        s.c.homed(w),
        os.len() <= s.c.pending.len(),
    ensures
        s.gives(s.exported(os, retrying), w, 0, 0),
        s.exported(os, retrying).c.ncclops == s.c.ncclops,
{
    let d = s.exported(os, retrying);
    lemma_exported(s.c, os.len(), os, retrying, w.id, w.own);
    lemma_told_concat(s.handed, taken_out(s.c, os.len(), os, retrying), w.id, w.own);
    assert(d.c.groups == s.c.groups);
    assert(d.c.groups_homed(w)) by {
        assert(s.c.groups_homed(w));
    }
}

/// Sending to other daemons changes nothing that is told.
proof fn lemma_gone_same(c: CtxView, sent: Seq<(i32, usize)>)
    ensures
        same_reports(c, c.all_gone(sent)),
        same_progress(c, c.all_gone(sent)),
    decreases sent.len(),
{
    if sent.len() > 0 {
        lemma_gone_same(c, sent.drop_last());
    }
}

proof fn lemma_round(s: DaemonView, r: Round, w: Watch)
    requires
        s.c.sound(),
        s.c.homed(w),
        s.c.has_place(w, r.named(w.id)),
        waits_at_home(r.ts, w),
        r.outcomes.len() <= s.settled(r).c.pending.len(),
    ensures
        s.gives(s.after_round(r), w, r.announced(w), r.named(w.id)),
{
    let (c, n, e) = (s.c, ONLINE_FIFO_PROCESS_BATCH, FIFO_PROCESS_BATCH);
    let ts = r.received();
    lemma_round_received(r);
    lemma_taken_at_home(r.ts, ts, n, e, w);
    law_passes_account_for_operations(c, ts, r.ipc, n, e, r.p, r.now, r.answers, w);
    let (c1, us) = passed(c, ts, r.ipc, n, e, r.p, r.now, r.answers);
    let c2 = c1.all_gone(r.sent);
    lemma_gone_same(c1, r.sent);
    lemma_same_tally(c1, c2, w);
    lemma_same_sound(c1, c2);
    let limit = Some(r.p.config.comm_hash_ipc_timeout);
    let c3 = threads_expired(c2, us, us.len(), limit, r.p, r.later).0;
    lemma_threads_expired_same(c2, us, us.len(), limit, r.p, r.later);
    lemma_same_tally(c2, c3, w);
    lemma_same_sound(c2, c3);
    lemma_trimmed(c3, r.p.config, r.later, w);
    lemma_daemon_exported(s.settled(r), r.outcomes, false, w);
}

proof fn lemma_same_sound(c: CtxView, d: CtxView)
    requires
        c.sound(),
        same_progress(c, d),
        same_reports(c, d),
    ensures
        d.sound(),
{
    lemma_same_wf(c, d);
}

proof fn lemma_rounds(s: DaemonView, rs: Seq<Round>, w: Watch)
    requires
        s.c.sound(),
        s.c.homed(w),
        s.c.has_place(w, named_in_rounds(rs, w.id)),
        sent_at_home(rs, w),
        s.goes_through(rs),
    ensures
        s.gives(
            s.after_rounds(rs),
            w,
            handled_in(rs, w),
            named_in_rounds(rs, w.id),
        ),
    decreases rs.len(),
{
    if rs.len() > 0 {
        let front = rs.drop_last();
        assert(sent_at_home(front, w)) by {
            assert forall|i: int| 0 <= i < front.len() implies waits_at_home(
                (#[trigger] front[i]).ts,
                w,
            ) by {
                assert(front[i] == rs[i]);
            }
        }
        lemma_rounds(s, front, w);
        assert(rs[rs.len() - 1] == rs.last());
        lemma_round(s.after_rounds(front), rs.last(), w);
    }
}

proof fn lemma_last(s: DaemonView, l: LastRound, w: Watch)
    requires
        s.c.sound(),
        s.c.homed(w),
        s.c.has_place(w, l.named(w.id)),
        waits_at_home(l.ts, w),
        s.closed(l).tries_what_is_there(l.outcomes),
        s.after_last(l).c.pending.len() == 0,
    ensures
        told(s.after_last(l).handed, w.id, w.own) == s.tally(w) + l.announced(w),
        s.after_last(l).c.ncclops == Map::<usize, NcclOpView>::empty(),
{
    let max = usize::MAX;
    let none = Seq::<InterProcessMessage>::empty();
    let ts = l.received();
    lemma_last_received(l);
    lemma_taken_at_home(l.ts, ts, max, max, w);
    law_passes_account_for_operations(s.c, ts, none, max, max, l.p, l.now, l.answers, w);
    let (c1, us) = passed(s.c, ts, none, max, max, l.p, l.now, l.answers);
    let c2 = threads_expired(c1, us, us.len(), None, l.p, l.now).0;
    lemma_threads_expired_same(c1, us, us.len(), None, l.p, l.now);
    lemma_same_tally(c1, c2, w);
    lemma_same_sound(c1, c2);
    lemma_closed(c2, l.now, w);
    lemma_handed(s.closed(l), l.outcomes, w.id, w.own);
}

/// What was told and is not handed on yet waits.
proof fn lemma_handed(s: DaemonView, oss: Seq<Seq<Outcome>>, id: usize, own: bool)
    requires
        s.tries_what_is_there(oss),
    ensures
        ({
            let d = s.exported_all(oss);
            &&& told(d.handed, id, own) + told(d.c.pending, id, own) == told(s.handed, id, own)
                + told(s.c.pending, id, own)
            &&& d.c.ncclops == s.c.ncclops
        }),
    decreases oss.len(),
{
    if oss.len() > 0 {
        lemma_handed(s, oss.drop_last(), id, own);
        let e = s.exported_all(oss.drop_last());
        let os = oss.last();
        lemma_exported(e.c, os.len(), os, true, id, own);
        lemma_told_concat(e.handed, taken_out(e.c, os.len(), os, true), id, own);
    }
}

/// The same operation, watched as the other kind.
pub open spec fn other_kind(w: Watch) -> Watch {
    Watch { own: !w.own, ..w }
}

/// An announcement is of one kind or the other.
proof fn lemma_kinds(ms: Seq<Message>, w: Watch)
    ensures
        announced_in(ms, w) + announced_in(ms, other_kind(w)) == named_in(ms, w.id),
    decreases ms.len(),
{
    if ms.len() > 0 {
        lemma_kinds(ms.drop_last(), w);
    }
}

proof fn lemma_kinds_of_threads(ts: Seq<ControlView>, n: nat, q: Queue, max: usize, w: Watch)
    ensures
        announced_by(ts, n, q, max, w) + announced_by(ts, n, q, max, other_kind(w)) == named_by(
            ts,
            n,
            q,
            max,
            w.id,
        ),
    decreases n,
{
    if n > 0 {
        lemma_kinds_of_threads(ts, (n - 1) as nat, q, max, w);
        lemma_kinds(taken(ts[n - 1], q, max), w);
    }
}

proof fn lemma_kinds_of_pass(ts: Seq<ControlView>, max_ncclops: usize, max_events: usize, w: Watch)
    ensures
        announced_in_pass(ts, max_ncclops, max_events, w) + announced_in_pass(
            ts,
            max_ncclops,
            max_events,
            other_kind(w),
        ) == named_in_pass(ts, max_ncclops, max_events, w.id),
{
    lemma_kinds_of_threads(ts, ts.len(), Queue::Ncclops, max_ncclops, w);
    lemma_kinds_of_threads(ts, ts.len(), Queue::Events, max_events, w);
}

proof fn lemma_kinds_of_rounds(rs: Seq<Round>, w: Watch)
    ensures
        handled_in(rs, w) + handled_in(rs, other_kind(w)) == named_in_rounds(
            rs,
            w.id,
        ),
    decreases rs.len(),
{
    if rs.len() > 0 {
        let r = rs.last();
        lemma_kinds_of_rounds(rs.drop_last(), w);
        lemma_kinds_of_pass(r.received(), ONLINE_FIFO_PROCESS_BATCH, FIFO_PROCESS_BATCH, w);
    }
}

/// Every announcement that a thread sends is handled, at the latest when the
/// daemon stops.
pub proof fn law_every_announcement_is_handled(rs: Seq<Round>, l: LastRound, w: Watch)
    requires
        DaemonView::fresh().goes_through(rs),
        DaemonView::fresh().after_rounds(rs).stops_with(l),
    ensures
        ({
            let s = DaemonView::fresh();
            handled_in(rs, w) + l.announced(w) == s.sent_in(rs, w) + sent_between(
                s.after_rounds(rs).ts,
                l.ts,
                l.ts.len(),
                w,
            )
        }),
{
    let s = DaemonView::fresh();
    lemma_sent(s, rs, w);
    lemma_grew(s.after_rounds(rs).ts, l.ts, l.ts.len(), w);
    lemma_last_takes_all(l, l.ts.len(), w);
}

/// Every operation that a thread announces once, under an id that no other has,
/// is handed on exactly once as done: a collective in a record of its own, a
/// transfer as a member of a group. It does not matter in which round the
/// announcement is handled, nor whether the operation left because it was done,
/// too old or one too many, or because the daemon stopped. In the end nothing is
/// in flight. What a channel that nobody receives from is handed is lost.
pub proof fn law_every_operation_is_told_once(rs: Seq<Round>, l: LastRound, op: OpInfo)
    requires
        DaemonView::fresh().goes_through(rs),
        DaemonView::fresh().after_rounds(rs).stops_with(l),
        ({
            let s = DaemonView::fresh();
            let d = s.after_rounds(rs);
            let w = watch(op);
            let v = other_kind(w);
            &&& s.sent_in(rs, w) + sent_between(d.ts, l.ts, l.ts.len(), w) == 1
            &&& s.sent_in(rs, v) + sent_between(d.ts, l.ts, l.ts.len(), v) == 0
            &&& sent_at_home(rs, w)
            &&& waits_at_home(l.ts, w)
        }),
    ensures
        ({
            let d = DaemonView::fresh().after_rounds(rs).after_last(l);
            &&& told(d.handed, op.id, !op.spec_is_p2p()) == 1
            &&& told(d.handed, op.id, op.spec_is_p2p()) == 0
            &&& d.c.ncclops == Map::<usize, NcclOpView>::empty()
        }),
{
    let s = DaemonView::fresh();
    let w = watch(op);
    let v = other_kind(w);
    law_every_announcement_is_handled(rs, l, w);
    law_every_announcement_is_handled(rs, l, v);
    lemma_kinds_of_rounds(rs, w);
    lemma_kinds_of_pass(l.received(), usize::MAX, usize::MAX, w);
    lemma_rounds(s, rs, w);
    lemma_last(s.after_rounds(rs), l, w);
    assert(sent_at_home(rs, v)) by {
        assert forall|i: int| 0 <= i < rs.len() implies waits_at_home((#[trigger] rs[i]).ts, v) by {
            lemma_home_of_kinds(rs[i].ts, w);
        }
    }
    lemma_home_of_kinds(l.ts, w);
    lemma_rounds(s, rs, v);
    lemma_last(s.after_rounds(rs), l, v);
}

/// The group does not depend on the kind.
proof fn lemma_home_of_kinds(ts: Seq<ControlView>, w: Watch)
    requires
        waits_at_home(ts, w),
    ensures
        waits_at_home(ts, other_kind(w)),
{
    assert forall|i: int, q: Queue| 0 <= i < ts.len() implies at_home(
        waiting(#[trigger] ts[i].queue(q)),
        other_kind(w),
    ) by {
        assert(at_home(waiting(ts[i].queue(q)), w));
    }
}

} // verus!
