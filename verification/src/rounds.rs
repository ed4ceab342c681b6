//! The rounds of the polling daemon, from what the threads sent to what is left
//! to export.
//!
//! A round has two parts, because messages for other daemons go out in between.
use crate::clock::Instant;
use crate::daemon::{ControlView, InterProcessMessage, ThreadControl};
use crate::key_order::in_order;
use crate::polling::PollingContext;
use crate::polling_messages::Export;
use crate::polling_model::CtxView;
use crate::polling_pass::{
    finish, handle_pass, pass_answered, pass_is_usable, pass_received, pass_usable, passed,
    receive_pass, receive_rest, rest_received, settle_pass, threads_expired, Answers,
    FIFO_PROCESS_BATCH, ONLINE_FIFO_PROCESS_BATCH,
};
use crate::profiler::Profiler;
use crate::views::view_seq;
use vstd::prelude::*;

verus! {

/// Messages for the daemon of another process, in the order in which they go
/// out.
#[derive(Debug)]
pub struct Outgoing {
    pub pid: i32,
    pub msgs: Vec<InterProcessMessage>,
}

impl View for Outgoing {
    type V = (i32, Seq<InterProcessMessage>);

    open spec fn view(&self) -> (i32, Seq<InterProcessMessage>) {
        (self.pid, self.msgs@)
    }
}

impl CtxView {
    /// What a round tries to send: for each process in ascending order, the
    /// messages that are next. Without tracking between processes all of them
    /// stay.
    pub open spec fn outgoing(self, track: bool) -> Seq<(i32, Seq<InterProcessMessage>)> {
        let peers = in_order(self.ipc.dom());
        if track {
            Seq::new(peers.len(), |i: int| (peers[i], self.ipc_next(peers[i])))
        } else {
            Seq::empty()
        }
    }

    /// As many messages as `sent` says went out, to one process after the other.
    pub open spec fn all_gone(self, sent: Seq<(i32, usize)>) -> CtxView
        decreases sent.len(),
    {
        if sent.len() == 0 {
            self
        } else {
            self.all_gone(sent.drop_last()).ipc_gone(sent.last().0, sent.last().1 as nat)
        }
    }
}

/// The context and the threads in the middle of a round: what came in was
/// handled, as far as a round goes.
pub open spec fn round_begun(
    c: CtxView,
    ts: Seq<ControlView>,
    ipc: Seq<InterProcessMessage>,
    p: Profiler,
    now: Instant,
    answers: Answers,
) -> (CtxView, Seq<ControlView>) {
    passed(
        c,
        pass_received(ts, ipc.len() > 0, now),
        ipc,
        ONLINE_FIFO_PROCESS_BATCH,
        FIFO_PROCESS_BATCH,
        p,
        now,
        answers,
    )
}

/// The context and the threads after the second part of a round, if `sent` is
/// what went out since the first.
pub open spec fn round_ended(
    c: CtxView,
    ts: Seq<ControlView>,
    sent: Seq<(i32, usize)>,
    p: Profiler,
    now: Instant,
) -> (CtxView, Seq<ControlView>) {
    let limit = Some(p.config.comm_hash_ipc_timeout);
    let (d, us) = threads_expired(c.all_gone(sent), ts, ts.len(), limit, p, now);
    (d.trimmed(p.config, now), us)
}

/// The context and the threads after the last round: all that came in was
/// handled, nothing waits and nothing is followed any more.
pub open spec fn last_round_ended(
    c: CtxView,
    ts: Seq<ControlView>,
    p: Profiler,
    now: Instant,
    answers: Answers,
) -> (CtxView, Seq<ControlView>) {
    let (d, us) = passed(
        c,
        rest_received(ts, now),
        Seq::empty(),
        usize::MAX,
        usize::MAX,
        p,
        now,
        answers,
    );
    let (e, vs) = threads_expired(d, us, us.len(), None, p, now);
    (e.closed(now), vs)
}

impl PollingContext {
    /// What to send to other daemons in this round.
    pub fn outgoing(&self, track: bool) -> (r: Vec<Outgoing>)
        ensures
            view_seq(r@) == self@.outgoing(track),
    {
        let mut r: Vec<Outgoing> = Vec::new();
        if !track {
            assert(view_seq(r@) =~= self@.outgoing(track));
            return r;
        }
        let peers: Vec<i32> = self.ipc_peers();
        let ghost all = self@.outgoing(track);
        let mut i: usize = 0;
        assert(view_seq(r@) =~= all.take(0));
        while i < peers.len()
            invariant
                i <= peers@.len(),
                track,
                peers@ == in_order(self@.ipc.dom()),
                all == self@.outgoing(track),
                view_seq(r@) == all.take(i as int),
            decreases peers@.len() - i,
        {
            let next: Outgoing = Outgoing { pid: peers[i], msgs: self.ipc_batch(peers[i]) };
            assert(next@ == all[i as int]);
            let ghost before = r@;
            r.push(next);
            assert(view_seq(r@) =~= view_seq(before).push(next@));
            assert(view_seq(r@) =~= all.take(i + 1));
            i += 1;
        }
        assert(all.take(i as int) =~= all);
        r
    }
}

/// The first part of a round: takes in what the threads sent and handles it,
/// with the messages `ipc` of other daemons. Returns what to send to those. A
/// batch of steps without a first step, or a reply for an unknown thread, cannot
/// be handled: nothing is, and there is no result.
pub fn begin_round<E: Export>(
    ctx: &mut PollingContext,
    threads: &mut Vec<ThreadControl>,
    ipc: &Vec<InterProcessMessage>,
    exporter: &E,
    p: &Profiler,
    now: Instant,
) -> (r: Option<Vec<Outgoing>>)
    ensures
        ({
            let (c, ts) = (old(ctx)@, view_seq(old(threads)@));
            let us = pass_received(ts, ipc@.len() > 0, now);
            let (n, m) = (ONLINE_FIFO_PROCESS_BATCH, FIFO_PROCESS_BATCH);
            match r {
                None => !pass_usable(us, ipc@, n, m) && final(ctx)@ == c && view_seq(
                    final(threads)@,
                ) == us,
                Some(out) => {
                    &&& pass_usable(us, ipc@, n, m)
                    &&& exists|answers: Answers|
                        pass_answered(*exporter, c, us, ipc@, n, m, *p, now, answers) && (
                        final(ctx)@, view_seq(final(threads)@)) == #[trigger] round_begun(
                            c,
                            ts,
                            ipc@,
                            *p,
                            now,
                            answers,
                        )
                    &&& view_seq(out@) == final(ctx)@.outgoing(
                        p.config.track_interprocess_proxyop,
                    )
                },
            }
        }),
{
    let ghost (c, ts) = (ctx@, view_seq(threads@));
    let (n, m): (usize, usize) = (ONLINE_FIFO_PROCESS_BATCH, FIFO_PROCESS_BATCH);
    receive_pass(threads, ipc.len() > 0, now);
    let ghost us = view_seq(threads@);
    if !pass_is_usable(threads, ipc, n, m) {
        return None;
    }
    handle_pass(ctx, threads, ipc, n, m, exporter, p, now);
    proof {
        let answers = choose|answers: Answers|
            pass_answered(*exporter, c, us, ipc@, n, m, *p, now, answers) && (
            ctx@, view_seq(threads@)) == #[trigger] passed(c, us, ipc@, n, m, *p, now, answers);
        assert((ctx@, view_seq(threads@)) == round_begun(c, ts, ipc@, *p, now, answers));
    }
    Some(ctx.outgoing(p.config.track_interprocess_proxyop))
}

/// The second part of a round, after as many messages went out as `sent` says:
/// proxy operations that waited too long are let go, and operations that are
/// done, too old or too many are given up.
pub fn end_round(
    ctx: &mut PollingContext,
    threads: &mut Vec<ThreadControl>,
    sent: &Vec<(i32, usize)>,
    p: &Profiler,
    now: Instant,
)
    ensures
        (final(ctx)@, view_seq(final(threads)@)) == round_ended(
            old(ctx)@,
            view_seq(old(threads)@),
            sent@,
            *p,
            now,
        ),
{
    let ghost c = ctx@;
    let mut i: usize = 0;
    assert(sent@.take(0) =~= Seq::<(i32, usize)>::empty());
    while i < sent.len()
        invariant
            i <= sent@.len(),
            ctx@ == c.all_gone(sent@.take(i as int)),
        decreases sent@.len() - i,
    {
        ctx.ipc_delivered(sent[i].0, sent[i].1);
        assert(sent@.take(i + 1).drop_last() =~= sent@.take(i as int));
        i += 1;
    }
    assert(sent@.take(i as int) =~= sent@);
    settle_pass(ctx, threads, p, now);
}

/// The last round, when the daemon stops: takes in all that the threads sent,
/// handles it and reports what is still followed. Returns whether it could: a
/// batch of steps without a first step cannot be handled, and then nothing is.
pub fn last_round<E: Export>(
    ctx: &mut PollingContext,
    threads: &mut Vec<ThreadControl>,
    exporter: &E,
    p: &Profiler,
    now: Instant,
) -> (done: bool)
    ensures
        ({
            let (c, ts) = (old(ctx)@, view_seq(old(threads)@));
            let us = rest_received(ts, now);
            let (none, max) = (Seq::<InterProcessMessage>::empty(), usize::MAX);
            &&& done == pass_usable(us, none, max, max)
            &&& !done ==> final(ctx)@ == c && view_seq(final(threads)@) == us
            &&& done ==> exists|answers: Answers|
                pass_answered(*exporter, c, us, none, max, max, *p, now, answers) && (
                final(ctx)@, view_seq(final(threads)@)) == #[trigger] last_round_ended(
                    c,
                    ts,
                    *p,
                    now,
                    answers,
                )
        }),
{
    let ghost (c, ts) = (ctx@, view_seq(threads@));
    let none: Vec<InterProcessMessage> = Vec::new();
    let max: usize = usize::MAX;
    receive_rest(threads, now);
    let ghost us = view_seq(threads@);
    assert(none@ =~= Seq::<InterProcessMessage>::empty());
    if !pass_is_usable(threads, &none, max, max) {
        return false;
    }
    handle_pass(ctx, threads, &none, max, max, exporter, p, now);
    let ghost answers = choose|answers: Answers|
        pass_answered(*exporter, c, us, none@, max, max, *p, now, answers) && (
        ctx@, view_seq(threads@)) == #[trigger] passed(c, us, none@, max, max, *p, now, answers);
    finish(ctx, threads, p, now);
    assert((ctx@, view_seq(threads@)) == last_round_ended(c, ts, *p, now, answers));
    true
}

} // verus!
