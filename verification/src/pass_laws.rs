//! How far a pass goes, and in which order.
use crate::clock::{Duration, Instant};
use crate::daemon::{
    ControlMessage, ControlView, FifoView, InterProcessMessage, Message, MessageView,
};
use crate::event::NcclOpView;
use crate::key_order::{
    in_order, law_processes_are_listed_in_order, law_proxy_operations_are_listed_in_order,
    lemma_distinct, lemma_listing_exists,
};
use crate::polling_model::{ipc_is_addressed, message_handled, CtxView, Pair};
use crate::polling_pass::{
    batches_are_usable, events_wait, expired_among, gates_after, ipc_all_handled, known_after,
    messages_handled, pass_received, pass_usable, passed, rest_received, taken, takes_more_ipc,
    thread_passed, threads_after, threads_expired, threads_passed, Answers, Queue,
    FIFO_FETCH_INTERVAL, FIFO_PROCESS_BATCH, FIFO_RECV_BATCH, IPC_RECV_BATCH, IPC_SEND_BATCH,
    NCCLOP_RECLAIM_BATCH, ONLINE_FIFO_PROCESS_BATCH, RETRY_MS,
};
use crate::profiler::Profiler;
use crate::reclaim_laws::law_tracking_is_bounded;
use crate::rounds::{last_round_ended, round_begun, round_ended};
use crate::runtime_gates::GatesView;
use crate::spsc::QueueView;
use crate::views::seq_at;
use vstd::prelude::*;

verus! {

// ---------------------------------------------------------------------- limits

/// How much one pass does: what it takes from a queue and handles of it, what it
/// takes from and sends to other daemons, and how many operations it looks at.
/// What a thread holds back is fetched after a second.
pub proof fn law_passes_are_bounded()
    ensures
        FIFO_RECV_BATCH == 8192,
        ONLINE_FIFO_PROCESS_BATCH == 8192,
        FIFO_PROCESS_BATCH == 512,
        IPC_RECV_BATCH == 512,
        IPC_SEND_BATCH == 64,
        NCCLOP_RECLAIM_BATCH == 512,
        FIFO_FETCH_INTERVAL == 1_000_000_000,
        RETRY_MS == 100,
{
}

/// What a pass takes from a queue: what was published, and what is held back too
/// where that is asked for or the queue was idle for too long; of that no more
/// than one message beyond the limit. The queue was last seen now if anything
/// came or was asked for.
pub proof fn law_queues_give_what_they_have<T>(
    f: FifoView<T>,
    max_idle: Duration,
    max_recv: usize,
    force: bool,
    now: Instant,
)
    ensures
        ({
            let g = f.after_recv(max_idle, max_recv, force, now);
            let fetches = force || now - f.last_fetch > max_idle;
            let there = if fetches {
                f.queue.ready.len() + f.queue.held.len()
            } else {
                f.queue.ready.len()
            };
            let n = f.received(max_idle, max_recv, force, now);
            &&& n <= there && n <= max_recv + 1
            &&& n == there || n == max_recv + 1
            &&& g.pending.len() == f.pending.len() + n
            &&& f.pending.is_prefix_of(g.pending)
            &&& fetches ==> g.queue.held.len() == 0
            &&& !fetches ==> g.queue.held == f.queue.held
            &&& g.last_fetch == if fetches || n > 0 {
                now
            } else {
                f.last_fetch
            }
        }),
{
    let g = f.after_recv(max_idle, max_recv, force, now);
    assert(g.pending.subrange(0, f.pending.len() as int) =~= f.pending);
}

/// What a pass handles of what it took: as much as its limit, which is at least
/// one, or all.
pub proof fn law_handling_is_bounded<T>(f: FifoView<T>, max: usize)
    ensures
        f.handled(max) <= f.pending.len(),
        max > 0 ==> f.handled(max) <= max && (f.handled(max) == max || f.handled(max)
            == f.pending.len()),
        max == 0 && f.pending.len() > 0 ==> f.handled(max) == 1,
{
}

/// A round handles no more than 512 events of a thread and 8192 announcements,
/// and takes in no more than one message beyond 8192 of each queue.
pub proof fn law_rounds_are_bounded(ts: Seq<ControlView>, ipc_waits: bool, now: Instant, i: int)
    requires
        0 <= i < ts.len(),
    ensures
        ({
            let us = pass_received(ts, ipc_waits, now);
            &&& us.len() == ts.len()
            &&& us[i].fifo.pending.len() <= ts[i].fifo.pending.len() + 8193
            &&& us[i].ncclop.pending.len() <= ts[i].ncclop.pending.len() + 8193
            &&& taken(us[i], Queue::Events, FIFO_PROCESS_BATCH).len() <= 512
            &&& taken(us[i], Queue::Ncclops, ONLINE_FIFO_PROCESS_BATCH).len() <= 8192
            &&& us[i].state == ts[i].state
        }),
{
    law_queues_give_what_they_have(ts[i].fifo, FIFO_FETCH_INTERVAL, FIFO_RECV_BATCH, false, now);
    let force = ipc_waits || events_wait(ts, now);
    law_queues_give_what_they_have(ts[i].ncclop, FIFO_FETCH_INTERVAL, FIFO_RECV_BATCH, force, now);
}

// ----------------------------------------------------------------------- order

proof fn lemma_one_message(
    s: Pair,
    m: Message,
    p: Profiler,
    now: Instant,
    answers: Seq<Option<Seq<u64>>>,
)
    ensures
        messages_handled(s, seq![m], p, now, answers) == message_handled(
            s,
            m@,
            p,
            now,
            answers.last(),
        ),
{
    let one = seq![m];
    assert(one.drop_last() =~= Seq::<Message>::empty());
    assert(messages_handled(s, one.drop_last(), p, now, answers.drop_last()) == s);
    assert(one.last() == m);
}

/// Messages of a thread are handled one after the other, the oldest first.
pub proof fn law_messages_are_handled_in_order(
    s: Pair,
    a: Message,
    b: Message,
    p: Profiler,
    now: Instant,
    x: Option<Seq<u64>>,
    y: Option<Seq<u64>>,
)
    ensures
        messages_handled(s, seq![a, b], p, now, seq![x, y]) == message_handled(
            message_handled(s, a@, p, now, x),
            b@,
            p,
            now,
            y,
        ),
        messages_handled(s, seq![a], p, now, seq![x]) == message_handled(s, a@, p, now, x),
        messages_handled(s, Seq::empty(), p, now, Seq::empty()) == s,
{
    lemma_one_message(s, a, p, now, seq![x]);
    assert(seq![a, b].drop_last() =~= seq![a]);
    assert(seq![x, y].drop_last() =~= seq![x]);
}

/// In one pass what a thread announced is handled before its events: a kernel
/// finds the operation that was announced with it, and completes it.
pub proof fn law_announcements_are_handled_first(
    c: CtxView,
    t: ControlView,
    announced: Message,
    event: Message,
    op: NcclOpView,
    start: Instant,
    dur: u64,
    p: Profiler,
    now: Instant,
    answers: Answers,
)
    requires
        t.ncclop.pending == seq![announced],
        t.fifo.pending == seq![event],
        announced@ == MessageView::NcclOp(op),
        event@ == MessageView::KernelCh(start, dur, op.info.id),
        !c.completed.contains(op.info.id),
        !c.early_completions.contains_key(op.info.id),
        seq_at(c.early_progress, op.info.id).len() == 0,
    ensures
        ({
            let (d, us) = passed(c, seq![t], Seq::empty(), 1, 1, p, now, answers);
            &&& d.completed.contains(op.info.id)
            &&& d.ncclops.contains_key(op.info.id)
            &&& !d.early_completions.contains_key(op.info.id)
            &&& us.len() == 1 && us[0].ncclop.pending.len() == 0 && us[0].fifo.pending.len() == 0
        }),
{
    let ts = seq![t];
    let a = answers.ncclops;
    let b = answers.events;
    assert(taken(t, Queue::Ncclops, 1) =~= seq![announced]);
    assert(threads_passed(c, ts, 0, Queue::Ncclops, 1, p, now, a.drop_last()) == (c, ts));
    let (c1, t1) = thread_passed(c, t, Queue::Ncclops, 1, p, now, a.last());
    lemma_one_message((c, t.state), announced, p, now, a.last());
    assert(c1 == c.announced(op));
    let ts1 = ts.update(0, t1);
    assert(threads_passed(c, ts, 1, Queue::Ncclops, 1, p, now, a) == (c1, ts1));
    assert(taken(t1, Queue::Events, 1) =~= seq![event]);
    assert(threads_passed(c1, ts1, 0, Queue::Events, 1, p, now, b.drop_last()) == (c1, ts1));
    let (c2, t2) = thread_passed(c1, t1, Queue::Events, 1, p, now, b.last());
    lemma_one_message((c1, t1.state), event, p, now, b.last());
    assert(threads_passed(c1, ts1, 1, Queue::Events, 1, p, now, b) == (c2, ts1.update(0, t2)));
    assert(passed(c, ts, Seq::empty(), 1, 1, p, now, answers) == (c2, ts1.update(0, t2)));
    assert(c1.ncclops.contains_key(op.info.id));
    assert(!c1.completed.contains(op.info.id));
}

/// A new thread comes last and learns its place; the others stay as they are.
pub proof fn law_new_threads_come_last(ts: Seq<ControlView>, m: ControlMessage)
    requires
        ts.len() <= usize::MAX,
    ensures
        ({
            let us = threads_after(ts, m);
            &&& m matches ControlMessage::NewThread(t) ==> us.len() == ts.len() + 1
                && us.drop_last() == ts && us.last().state.idx == ts.len()
                && us.last().state.proxyops == t@.state.proxyops && us.last().ncclop == t@.ncclop
                && us.last().fifo == t@.fifo
            &&& m is SetGates ==> us == ts
        }),
{
    let us = threads_after(ts, m);
    if m is NewThread {
        assert(us.drop_last() =~= ts);
    }
}

// --------------------------------------------------------------- other daemons

/// A round sends to every process for which messages wait, in ascending order,
/// the oldest of them, at most 64. Where other processes are not followed it
/// sends none. It takes in messages until there are more than 512.
pub proof fn law_rounds_send_the_oldest_messages(c: CtxView, track: bool, n: nat)
    requires
        c.ipc.dom().finite(),
    ensures
        !track ==> c.outgoing(track).len() == 0,
        track ==> ({
            let out = c.outgoing(track);
            &&& forall|i: int, j: int|
                0 <= i < j < out.len() ==> (#[trigger] out[i]).0 < (#[trigger] out[j]).0
            &&& forall|i: int|
                0 <= i < out.len() ==> ({
                    let (pid, msgs) = #[trigger] out[i];
                    &&& c.ipc.contains_key(pid)
                    &&& msgs.is_prefix_of(c.ipc[pid])
                    &&& msgs.len() <= 64
                    &&& msgs.len() == 64 || msgs.len() == c.ipc[pid].len()
                })
            &&& forall|pid: i32| #[trigger]
                c.ipc.contains_key(pid) ==> exists|i: int|
                    0 <= i < out.len() && (#[trigger] out[i]).0 == pid
        }),
        takes_more_ipc(n) <==> n <= 512,
{
    let peers = in_order(c.ipc.dom());
    law_processes_are_listed_in_order(c.ipc.dom());
    if track {
        let out = c.outgoing(track);
        assert forall|i: int| 0 <= i < out.len() implies ({
            let (pid, msgs) = #[trigger] out[i];
            &&& c.ipc.contains_key(pid)
            &&& msgs.is_prefix_of(c.ipc[pid])
            &&& msgs.len() <= 64
            &&& msgs.len() == 64 || msgs.len() == c.ipc[pid].len()
        }) by {
            assert(peers.contains(peers[i]));
            assert(c.ipc.dom().contains(peers[i]));
            let (pid, msgs) = out[i];
            assert(c.ipc[pid].subrange(0, msgs.len() as int) =~= msgs);
        }
        assert forall|pid: i32| #[trigger] c.ipc.contains_key(pid) implies exists|i: int|
            0 <= i < out.len() && (#[trigger] out[i]).0 == pid by {
            assert(c.ipc.dom().contains(pid));
            assert(peers.contains(pid));
            let i = choose|i: int| 0 <= i < peers.len() && peers[i] == pid;
            assert(out[i].0 == pid);
        }
    }
}

/// What was sent is not sent again, and what was not keeps its place; nothing
/// else changes.
pub proof fn law_sent_messages_are_gone(c: CtxView, pid: i32, n: usize, other: i32)
    requires
        n <= seq_at(c.ipc, pid).len(),
        other != pid,
    ensures
        ({
            let d = c.all_gone(seq![(pid, n)]);
            &&& seq_at(d.ipc, pid) == seq_at(c.ipc, pid).skip(n as int)
            &&& seq_at(d.ipc, other) == seq_at(c.ipc, other)
            &&& d.pending == c.pending && d.ncclops == c.ncclops && d.groups == c.groups
        }),
{
    let one = seq![(pid, n)];
    assert(one.drop_last() =~= Seq::<(i32, usize)>::empty());
    assert(c.all_gone(one.drop_last()) == c);
    let all = seq_at(c.ipc, pid);
    if n == all.len() {
        assert(all.skip(n as int) =~= Seq::<InterProcessMessage>::empty());
    }
}

// -------------------------------------------------------------------- waiting

/// Whether a proxy operation that waits since `since` has waited too long.
spec fn waited_out(since: Instant, limit: Option<Duration>, now: Instant) -> bool {
    match limit {
        Some(most) => now - since > most,
        None => true,
    }
}

proof fn lemma_expired(
    s: Pair,
    ids: Seq<u32>,
    limit: Option<Duration>,
    p: Profiler,
    now: Instant,
    id: u32,
)
    requires
        ids.no_duplicates(),
        forall|i: int| 0 <= i < ids.len() ==> s.1.waiting.contains_key(#[trigger] ids[i]),
        s.1.waiting.contains_key(id),
    ensures
        ({
            let u = expired_among(s, ids, limit, p, now).1;
            &&& u.waiting.contains_key(id) <==> !(ids.contains(id) && waited_out(
                s.1.waiting[id].since,
                limit,
                now,
            ))
            &&& u.waiting.contains_key(id) ==> u.waiting[id] == s.1.waiting[id]
        }),
    decreases ids.len(),
{
    if ids.len() > 0 {
        let front = ids.drop_last();
        let last = ids.last();
        assert(ids[ids.len() - 1] == last);
        assert forall|i: int| 0 <= i < front.len() implies s.1.waiting.contains_key(
            #[trigger] front[i],
        ) by {
            assert(front[i] == ids[i]);
        }
        lemma_expired(s, front, limit, p, now, id);
        lemma_expired(s, front, limit, p, now, last);
        assert(!front.contains(last)) by {
            if front.contains(last) {
                let i = choose|i: int| 0 <= i < front.len() && front[i] == last;
                assert(ids[i] == ids[ids.len() - 1]);
            }
        }
        assert(ids.contains(id) <==> front.contains(id) || id == last) by {
            if front.contains(id) {
                let i = choose|i: int| 0 <= i < front.len() && front[i] == id;
                assert(ids[i] == id);
            }
            if ids.contains(id) {
                let i = choose|i: int| 0 <= i < ids.len() && ids[i] == id;
                if i < front.len() {
                    assert(front[i] == id);
                }
            }
        }
    }
}

proof fn lemma_threads_expired(
    c: CtxView,
    ts: Seq<ControlView>,
    n: nat,
    limit: Option<Duration>,
    p: Profiler,
    now: Instant,
    i: int,
    id: u32,
)
    requires
        0 <= i < ts.len(),
        n <= ts.len(),
        ts[i].state.waiting.dom().finite(),
        ts[i].state.waiting.contains_key(id),
    ensures
        ({
            let us = threads_expired(c, ts, n, limit, p, now).1;
            &&& us.len() == ts.len()
            &&& i >= n ==> us[i] == ts[i]
            &&& i < n ==> (us[i].state.waiting.contains_key(id) <==> !waited_out(
                ts[i].state.waiting[id].since,
                limit,
                now,
            ))
            &&& i < n && us[i].state.waiting.contains_key(id) ==> us[i].state.waiting[id]
                == ts[i].state.waiting[id]
        }),
    decreases n,
{
    if n > 0 {
        lemma_threads_expired(c, ts, (n - 1) as nat, limit, p, now, i, id);
        let (c0, ts0) = threads_expired(c, ts, (n - 1) as nat, limit, p, now);
        if i == n - 1 {
            let w = ts[i].state.waiting;
            let ids = in_order(w.dom());
            lemma_listing_exists(w.dom());
            lemma_distinct(ids, w.dom());
            law_proxy_operations_are_listed_in_order(w.dom());
            assert forall|j: int| 0 <= j < ids.len() implies w.contains_key(#[trigger] ids[j]) by {
                assert(ids.contains(ids[j]));
                assert(w.dom().contains(ids[j]));
            }
            assert(w.dom().contains(id));
            assert(ids.contains(id));
            lemma_expired((c0, ts0[i].state), ids, limit, p, now, id);
        }
    }
}

/// A round lets every proxy operation go that has waited for its communicator
/// longer than the settings allow, and keeps the others waiting.
pub proof fn law_rounds_end_waiting(
    c: CtxView,
    ts: Seq<ControlView>,
    sent: Seq<(i32, usize)>,
    p: Profiler,
    now: Instant,
    i: int,
    id: u32,
)
    requires
        0 <= i < ts.len(),
        ts[i].state.waiting.dom().finite(),
        ts[i].state.waiting.contains_key(id),
    ensures
        ({
            let us = round_ended(c, ts, sent, p, now).1;
            let waits = now - ts[i].state.waiting[id].since <= p.config.comm_hash_ipc_timeout;
            &&& us[i].state.waiting.contains_key(id) <==> waits
            &&& waits ==> us[i].state.waiting[id] == ts[i].state.waiting[id]
        }),
{
    let limit = Some(p.config.comm_hash_ipc_timeout);
    lemma_threads_expired(c.all_gone(sent), ts, ts.len(), limit, p, now, i, id);
}

/// The last round keeps none waiting.
pub proof fn law_nobody_waits_in_the_end(
    c: CtxView,
    ts: Seq<ControlView>,
    p: Profiler,
    now: Instant,
    answers: Answers,
    i: int,
    id: u32,
)
    requires
        ({
            let none = Seq::<InterProcessMessage>::empty();
            let max = usize::MAX;
            let us = passed(c, rest_received(ts, now), none, max, max, p, now, answers).1;
            0 <= i < us.len() && us[i].state.waiting.dom().finite()
        }),
    ensures
        !last_round_ended(c, ts, p, now, answers).1[i].state.waiting.contains_key(id),
{
    let none = Seq::<InterProcessMessage>::empty();
    let max = usize::MAX;
    let (d, us) = passed(c, rest_received(ts, now), none, max, max, p, now, answers);
    if us[i].state.waiting.contains_key(id) {
        lemma_threads_expired(d, us, us.len(), None, p, now, i, id);
    } else {
        lemma_never_waits(d, us, us.len(), None, p, now, i, id);
    }
}

proof fn lemma_never_waits(
    c: CtxView,
    ts: Seq<ControlView>,
    n: nat,
    limit: Option<Duration>,
    p: Profiler,
    now: Instant,
    i: int,
    id: u32,
)
    requires
        0 <= i < ts.len(),
        n <= ts.len(),
        !ts[i].state.waiting.contains_key(id),
    ensures
        !threads_expired(c, ts, n, limit, p, now).1[i].state.waiting.contains_key(id),
        threads_expired(c, ts, n, limit, p, now).1.len() == ts.len(),
    decreases n,
{
    if n > 0 {
        lemma_never_waits(c, ts, (n - 1) as nat, limit, p, now, i, id);
        let (c0, ts0) = threads_expired(c, ts, (n - 1) as nat, limit, p, now);
        if i == n - 1 {
            let s = (c0, ts0[i].state);
            lemma_never_added(s, in_order(s.1.waiting.dom()), limit, p, now, id);
        }
    }
}

proof fn lemma_never_added(
    s: Pair,
    ids: Seq<u32>,
    limit: Option<Duration>,
    p: Profiler,
    now: Instant,
    id: u32,
)
    requires
        !s.1.waiting.contains_key(id),
    ensures
        !expired_among(s, ids, limit, p, now).1.waiting.contains_key(id),
    decreases ids.len(),
{
    if ids.len() > 0 {
        lemma_never_added(s, ids.drop_last(), limit, p, now, id);
    }
}

// --------------------------------------------------------------- whole rounds

/// After a round no more operations are in flight than the settings allow.
pub proof fn law_rounds_bound_what_is_in_flight(
    c: CtxView,
    ts: Seq<ControlView>,
    sent: Seq<(i32, usize)>,
    p: Profiler,
    now: Instant,
)
    requires
        ({
            let limit = Some(p.config.comm_hash_ipc_timeout);
            let d = threads_expired(c.all_gone(sent), ts, ts.len(), limit, p, now).0;
            d.ncclops.dom().finite() && d.ncclops.len() <= usize::MAX
        }),
    ensures
        round_ended(c, ts, sent, p, now).0.ncclops.len() <= p.config.max_tracked_ncclop,
{
    let limit = Some(p.config.comm_hash_ipc_timeout);
    let d = threads_expired(c.all_gone(sent), ts, ts.len(), limit, p, now).0;
    law_tracking_is_bounded(d, p.config, now);
}

/// What one pass takes out of a queue is what waited there longest, and the rest
/// waits on, in order. The other queue is not touched.
pub proof fn law_passes_take_the_oldest_messages(
    c: CtxView,
    t: ControlView,
    q: Queue,
    max: usize,
    p: Profiler,
    now: Instant,
    answers: Seq<Option<Seq<u64>>>,
)
    ensures
        ({
            let u = thread_passed(c, t, q, max, p, now, answers).1;
            &&& taken(t, q, max) + u.queue(q).pending == t.queue(q).pending
            &&& u.queue(q).queue == t.queue(q).queue
            &&& q == Queue::Events ==> u.ncclop == t.ncclop && taken(t, q, max).is_prefix_of(
                t.fifo.pending,
            )
            &&& q == Queue::Ncclops ==> u.fifo == t.fifo && taken(t, q, max).is_prefix_of(
                t.ncclop.pending,
            )
        }),
{
    let u = thread_passed(c, t, q, max, p, now, answers).1;
    let f = t.queue(q);
    assert(taken(t, q, max) + u.queue(q).pending =~= f.pending);
    assert(f.pending.subrange(0, taken(t, q, max).len() as int) =~= taken(t, q, max));
}

/// What a thread sends comes out in the order in which it was sent, and what is
/// held back comes out too once it is fetched.
pub proof fn law_queues_keep_their_order<T>(q: QueueView<T>, msg: T)
    ensures
        q.holding(msg).ready + q.holding(msg).held == (q.ready + q.held).push(msg),
        q.holding(msg).ready == q.ready,
        q.fetched().ready == q.ready + q.held,
        q.fetched().held.len() == 0,
        q.ready.len() > 0 ==> seq![q.ready[0]] + q.without_next().ready == q.ready,
        q.without_next().held == q.held,
{
    assert(q.holding(msg).ready + q.holding(msg).held =~= (q.ready + q.held).push(msg));
    if q.ready.len() > 0 {
        assert(seq![q.ready[0]] + q.without_next().ready =~= q.ready);
    }
}

/// A request to turn gates turns those that it names, and a new thread turns
/// none.
pub proof fn law_requests_turn_gates(g: GatesView, m: ControlMessage)
    ensures
        m is NewThread ==> gates_after(g, m) == g,
        m matches ControlMessage::SetGates(u) ==> (u.track_steps matches Some(v) ==> gates_after(
            g,
            m,
        ).track_steps == v) && (u.track_proxyop matches Some(v) ==> gates_after(g, m).track_proxyop
            == v) && (u.aggregate_steps matches Some(v) ==> gates_after(g, m).aggregate_steps == v)
            && gates_after(g, m) == g.after_update(u),
{
}

/// What histograms are owed is handed over once.
pub proof fn law_samples_are_handed_over_once(c: CtxView)
    ensures
        c.samples_gone().samples.len() == 0,
        c.samples_gone().pending == c.pending,
        c.samples_gone().ncclops == c.ncclops,
        c.samples_gone().groups == c.groups,
        c.samples_gone().ipc == c.ipc,
{
}

proof fn lemma_left_pending(
    c: CtxView,
    ts: Seq<ControlView>,
    n: nat,
    q: Queue,
    max: usize,
    p: Profiler,
    now: Instant,
    answers: Seq<Seq<Option<Seq<u64>>>>,
)
    requires
        n <= ts.len(),
    ensures
        ({
            let us = threads_passed(c, ts, n, q, max, p, now, answers).1;
            &&& us.len() == ts.len()
            &&& forall|i: int|
                0 <= i < n ==> (#[trigger] us[i]).queue(q).pending == ts[i].queue(q).pending.skip(
                    ts[i].queue(q).handled(max) as int,
                ) && us[i].queue(q).queue == ts[i].queue(q).queue
            &&& forall|i: int|
                0 <= i < ts.len() && q == Queue::Ncclops ==> (#[trigger] us[i]).fifo == ts[i].fifo
            &&& forall|i: int|
                0 <= i < ts.len() && q == Queue::Events ==> (#[trigger] us[i]).ncclop
                    == ts[i].ncclop
            &&& forall|i: int| n <= i < ts.len() ==> #[trigger] us[i] == ts[i]
        }),
    decreases n,
{
    if n > 0 {
        lemma_left_pending(c, ts, (n - 1) as nat, q, max, p, now, answers.drop_last());
    }
}

proof fn lemma_ipc_leaves_queues(
    c: CtxView,
    ts: Seq<ControlView>,
    ms: Seq<InterProcessMessage>,
    p: Profiler,
    now: Instant,
    answers: Seq<Option<Seq<u64>>>,
    i: int,
)
    requires
        forall|j: int| 0 <= j < ms.len() ==> ipc_is_addressed(ts.len(), #[trigger] ms[j]),
        0 <= i < ts.len(),
    ensures
        ({
            let us = ipc_all_handled(c, ts, ms, p, now, answers).1;
            us.len() == ts.len() && us[i].fifo == ts[i].fifo && us[i].ncclop == ts[i].ncclop
        }),
    decreases ms.len(),
{
    if ms.len() > 0 {
        let front = ms.drop_last();
        assert forall|j: int| 0 <= j < front.len() implies ipc_is_addressed(
            ts.len(),
            #[trigger] front[j],
        ) by {
            assert(front[j] == ms[j]);
        }
        lemma_ipc_leaves_queues(c, ts, front, p, now, answers.drop_last(), i);
        assert(ipc_is_addressed(ts.len(), ms[ms.len() - 1]));
    }
}

/// A round handles the 512 oldest events of a thread that were taken in and the
/// 8192 oldest announcements, or all; the others wait for the next.
pub proof fn law_rounds_leave_the_rest(
    c: CtxView,
    ts: Seq<ControlView>,
    ipc: Seq<InterProcessMessage>,
    p: Profiler,
    now: Instant,
    answers: Answers,
    i: int,
)
    requires
        0 <= i < ts.len(),
        forall|j: int| 0 <= j < ipc.len() ==> ipc_is_addressed(ts.len(), #[trigger] ipc[j]),
    ensures
        ({
            let before = pass_received(ts, ipc.len() > 0, now)[i];
            let after = round_begun(c, ts, ipc, p, now, answers).1[i];
            let (n, m) = (before.fifo.pending.len(), before.ncclop.pending.len());
            &&& after.fifo.pending == before.fifo.pending.skip(
                if n <= 512 {
                    n as int
                } else {
                    512
                },
            )
            &&& after.ncclop.pending == before.ncclop.pending.skip(
                if m <= 8192 {
                    m as int
                } else {
                    8192
                },
            )
        }),
{
    let us = pass_received(ts, ipc.len() > 0, now);
    let (n, m) = (ONLINE_FIFO_PROCESS_BATCH, FIFO_PROCESS_BATCH);
    let k = us.len();
    lemma_left_pending(c, us, k, Queue::Ncclops, n, p, now, answers.ncclops);
    let (c1, vs) = threads_passed(c, us, k, Queue::Ncclops, n, p, now, answers.ncclops);
    lemma_left_pending(c1, vs, k, Queue::Events, m, p, now, answers.events);
    let (c2, ws) = threads_passed(c1, vs, k, Queue::Events, m, p, now, answers.events);
    lemma_ipc_leaves_queues(c2, ws, ipc, p, now, answers.ipc, i);
    assert(vs[i].queue(Queue::Ncclops).pending == vs[i].ncclop.pending);
    assert(ws[i].queue(Queue::Events).pending == ws[i].fifo.pending);
}

/// Announcements that a thread holds back are fetched when events arrived or
/// another daemon wrote, so that an event finds its operation. Otherwise they are
/// left alone until a second has passed.
pub proof fn law_announcements_are_fetched_with_events(
    ts: Seq<ControlView>,
    ipc_waits: bool,
    now: Instant,
    i: int,
)
    requires
        0 <= i < ts.len(),
    ensures
        ({
            let us = pass_received(ts, ipc_waits, now);
            let arrived = exists|j: int|
                0 <= j < ts.len() && (#[trigger] us[j]).fifo.pending.len()
                    > ts[j].fifo.pending.len();
            &&& us.len() == ts.len()
            &&& ipc_waits || arrived ==> us[i].ncclop.queue.held.len() == 0
            &&& !ipc_waits && !arrived && now <= ts[i].ncclop.last_fetch + 1_000_000_000
                ==> us[i].ncclop.queue.held == ts[i].ncclop.queue.held
        }),
{
    let us = pass_received(ts, ipc_waits, now);
    assert forall|j: int| 0 <= j < ts.len() implies (#[trigger] us[j]).fifo.pending.len()
        == ts[j].fifo.pending.len() + ts[j].received(Queue::Events, FIFO_RECV_BATCH, false, now) by {
    }
    if events_wait(ts, now) {
        let j = choose|j: int|
            0 <= j < ts.len() && (#[trigger] ts[j]).received(
                Queue::Events,
                FIFO_RECV_BATCH,
                false,
                now,
            ) > 0;
        assert(us[j].fifo.pending.len() > ts[j].fifo.pending.len());
    }
}

/// The last pass takes in everything that the threads said, in order.
pub proof fn law_the_last_pass_takes_everything_in(ts: Seq<ControlView>, now: Instant, i: int)
    requires
        0 <= i < ts.len(),
        ts[i].ncclop.queue.ready.len() + ts[i].ncclop.queue.held.len() <= usize::MAX,
        ts[i].fifo.queue.ready.len() + ts[i].fifo.queue.held.len() <= usize::MAX,
    ensures
        ({
            let us = rest_received(ts, now);
            let (a, b) = (ts[i].ncclop, ts[i].fifo);
            &&& us.len() == ts.len()
            &&& us[i].ncclop.pending == a.pending + a.queue.ready + a.queue.held
            &&& us[i].ncclop.queue.ready.len() == 0 && us[i].ncclop.queue.held.len() == 0
            &&& us[i].fifo.pending == b.pending + b.queue.ready + b.queue.held
            &&& us[i].fifo.queue.ready.len() == 0 && us[i].fifo.queue.held.len() == 0
            &&& us[i].state == ts[i].state
        }),
{
    let us = rest_received(ts, now);
    let (a, b) = (ts[i].ncclop, ts[i].fifo);
    let (x, y) = (a.queue.ready + a.queue.held, b.queue.ready + b.queue.held);
    assert(x.take(x.len() as int) =~= x);
    assert(y.take(y.len() as int) =~= y);
    assert(us[i].ncclop.pending =~= a.pending + a.queue.ready + a.queue.held);
    assert(us[i].fifo.pending =~= b.pending + b.queue.ready + b.queue.held);
}

proof fn lemma_expiry_leaves_queues(
    c: CtxView,
    ts: Seq<ControlView>,
    n: nat,
    limit: Option<Duration>,
    p: Profiler,
    now: Instant,
    i: int,
)
    requires
        n <= ts.len(),
        0 <= i < ts.len(),
    ensures
        ({
            let us = threads_expired(c, ts, n, limit, p, now).1;
            us.len() == ts.len() && us[i].fifo == ts[i].fifo && us[i].ncclop == ts[i].ncclop
        }),
    decreases n,
{
    if n > 0 {
        lemma_expiry_leaves_queues(c, ts, (n - 1) as nat, limit, p, now, i);
    }
}

/// The last round leaves nothing behind of what the threads said.
pub proof fn law_the_last_round_leaves_nothing(
    c: CtxView,
    ts: Seq<ControlView>,
    p: Profiler,
    now: Instant,
    answers: Answers,
    i: int,
)
    requires
        0 <= i < ts.len(),
        ts[i].ncclop.pending.len() + ts[i].ncclop.queue.ready.len()
            + ts[i].ncclop.queue.held.len() <= usize::MAX,
        ts[i].fifo.pending.len() + ts[i].fifo.queue.ready.len() + ts[i].fifo.queue.held.len()
            <= usize::MAX,
    ensures
        ({
            let t = last_round_ended(c, ts, p, now, answers).1[i];
            &&& t.ncclop.pending.len() == 0 && t.fifo.pending.len() == 0
            &&& t.ncclop.queue.ready.len() == 0 && t.ncclop.queue.held.len() == 0
            &&& t.fifo.queue.ready.len() == 0 && t.fifo.queue.held.len() == 0
        }),
{
    law_the_last_pass_takes_everything_in(ts, now, i);
    let us = rest_received(ts, now);
    let max = usize::MAX;
    let k = us.len();
    lemma_left_pending(c, us, k, Queue::Ncclops, max, p, now, answers.ncclops);
    let (c1, vs) = threads_passed(c, us, k, Queue::Ncclops, max, p, now, answers.ncclops);
    lemma_left_pending(c1, vs, k, Queue::Events, max, p, now, answers.events);
    let (c2, ws) = threads_passed(c1, vs, k, Queue::Events, max, p, now, answers.events);
    assert(vs[i].queue(Queue::Ncclops) == vs[i].ncclop);
    assert(ws[i].queue(Queue::Events) == ws[i].fifo);
    lemma_expiry_leaves_queues(c2, ws, ws.len(), None, p, now, i);
}

// ----------------------------------------------------------------- what is usable

/// A batch of steps can be used where its operation is followed or it has a
/// first step; every other message can.
pub proof fn law_first_steps_are_needed(known: Set<u32>, m: Message)
    ensures
        batches_are_usable(known, seq![m]) <==> (m@ matches MessageView::StepBatch(info, steps, _)
            ==> known.contains(info.id) || steps.len() > 0),
{
    assert(seq![m].skip(1) =~= Seq::<Message>::empty());
    assert(batches_are_usable(known_after(known, m@), Seq::<Message>::empty()));
    assert(seq![m][0] == m);
}

/// Messages that have all their first steps can always be used.
pub proof fn law_complete_batches_are_usable(known: Set<u32>, ms: Seq<Message>)
    requires
        forall|i: int|
            0 <= i < ms.len() ==> ((#[trigger] ms[i])@ matches MessageView::StepBatch(_, steps, _)
                ==> steps.len() > 0),
    ensures
        batches_are_usable(known, ms),
    decreases ms.len(),
{
    if ms.len() > 0 {
        let rest = ms.skip(1);
        assert(ms[0]@ matches MessageView::StepBatch(_, steps, _) ==> steps.len() > 0);
        assert forall|i: int| 0 <= i < rest.len() implies ((
        #[trigger] rest[i])@ matches MessageView::StepBatch(_, steps, _) ==> steps.len() > 0) by {
            assert(rest[i] == ms[i + 1]);
        }
        law_complete_batches_are_usable(known_after(known, ms[0]@), rest);
    }
}

/// An operation is followed from its first batch of steps until its last, or
/// until its end is told.
pub proof fn law_batches_are_followed(known: Set<u32>, m: MessageView, other: u32)
    ensures
        m matches MessageView::StepBatch(info, _, false) ==> known_after(known, m).contains(info.id),
        m matches MessageView::StepBatch(info, _, true) ==> !known_after(known, m).contains(info.id),
        m matches MessageView::ProxyOp(id) ==> !known_after(known, m).contains(id),
        !(m matches MessageView::StepBatch(info, _, _) && info.id == other) && !(
        m matches MessageView::ProxyOp(id) && id == other) ==> known_after(known, m).contains(other)
            == known.contains(other),
{
}

/// A pass can be handled where all that it takes can be used and every reply of
/// another daemon names a thread that is there.
pub proof fn law_passes_are_usable(
    ts: Seq<ControlView>,
    ipc: Seq<InterProcessMessage>,
    max_ncclops: usize,
    max_events: usize,
)
    requires
        forall|i: int|
            0 <= i < ts.len() ==> batches_are_usable(
                (#[trigger] ts[i]).state.proxyops.dom(),
                taken(ts[i], Queue::Ncclops, max_ncclops) + taken(ts[i], Queue::Events, max_events),
            ),
        forall|i: int|
            0 <= i < ipc.len() ==> (
            #[trigger] ipc[i] matches InterProcessMessage::ReplyProxyOpComm(idx, _, _) ==> idx
                < ts.len()),
    ensures
        pass_usable(ts, ipc, max_ncclops, max_events),
{
    assert forall|i: int| 0 <= i < ipc.len() implies ipc_is_addressed(
        ts.len(),
        #[trigger] ipc[i],
    ) by {
        assert(ipc[i] matches InterProcessMessage::ReplyProxyOpComm(idx, _, _) ==> idx < ts.len());
    }
}

} // verus!
