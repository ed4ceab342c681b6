//! How records reach the exporter's channels.
//!
//! There are three lanes. Records that drive the clock of an online reader
//! have one of their own, compact evidence has another, and everything else
//! takes the third.
use crate::daemon::{Telemetry, TelemetryView};
use crate::polling::PollingContext;
use crate::polling_model::CtxView;
use crate::views::group_views;
use tokio::sync::mpsc::error::TrySendError;
use tokio::sync::mpsc::Sender;
use vstd::prelude::*;

verus! {

/// Records that the lane for bulk data holds.
pub const TELEMETRY_CHANNEL_SZ: usize = 4096;

/// Records that the lane for compact evidence holds.
pub const ONLINE_CHANNEL_SZ: usize = 1024;

/// Records that the lane with deadlines holds.
pub const DEADLINE_CHANNEL_SZ: usize = 256;

/// A way to the exporter.
#[derive(Clone, Copy, Debug, PartialEq, Eq, Structural)]
pub enum Lane {
    Regular,
    Online,
    Deadline,
}

/// Whether a record drives the clock of an online reader.
pub open spec fn has_deadline(t: TelemetryView) -> bool {
    ||| t is NcclOpIssued
    ||| t is P2pParentStart
    ||| t is P2pGroupSeal
    ||| t is NcclOpComplete
    ||| t is CommOpen
    ||| t is CommInit
    ||| t is CommClose
}

/// Whether a record is compact evidence of progress.
pub open spec fn is_evidence(t: TelemetryView) -> bool {
    t is StepProgress || t is KernelCopy
}

pub open spec fn lane_for(t: TelemetryView) -> Lane {
    if has_deadline(t) {
        Lane::Deadline
    } else if is_evidence(t) {
        Lane::Online
    } else {
        Lane::Regular
    }
}

pub fn is_deadline_telemetry(t: &Telemetry) -> (r: bool)
    ensures
        r == has_deadline(t@),
{
    match t {
        Telemetry::NcclOpIssued(_) => true,
        Telemetry::P2pParentStart(_) => true,
        Telemetry::P2pGroupSeal(_) => true,
        Telemetry::NcclOpComplete(_) => true,
        Telemetry::CommOpen(_) => true,
        Telemetry::CommInit(_) => true,
        Telemetry::CommClose(_) => true,
        _ => false,
    }
}

pub fn is_online_evidence(t: &Telemetry) -> (r: bool)
    ensures
        r == is_evidence(t@),
{
    match t {
        Telemetry::StepProgress(_) => true,
        Telemetry::KernelCopy(_) => true,
        _ => false,
    }
}

/// The sending end of a channel.
#[verifier::external_type_specification]
#[verifier::external_body]
#[verifier::reject_recursive_types(T)]
pub struct ExSender<T>(tokio::sync::mpsc::Sender<T>);

/// What came of an attempt to send.
#[derive(Debug)]
pub enum Attempt {
    Accepted,
    /// The channel is full; here is the record back.
    Full(Telemetry),
    /// Nobody receives any more.
    Closed,
}

/// Calls `tokio::sync::mpsc::Sender::try_send`. Claims that a full channel
/// hands back the record that it was given. Whether a channel is full, closed
/// or takes the record depends on its receiver and is left open.
#[verifier::external_body]
fn try_send(tx: &Sender<Telemetry>, t: Telemetry) -> (r: Attempt)
    ensures
        r matches Attempt::Full(v) ==> v == t,
{
    match tx.try_send(t) {
        Ok(()) => Attempt::Accepted,
        Err(TrySendError::Full(v)) => Attempt::Full(v),
        Err(TrySendError::Closed(_)) => Attempt::Closed,
    }
}

/// Whether `a` came of an attempt to send `t` on `tx`.
pub closed spec fn came_of(tx: Sender<Telemetry>, t: Telemetry, a: Attempt) -> bool {
    call_ensures(try_send, (&tx, t), a)
}

/// The sending ends of the lanes. Where a lane has no channel of its own, its
/// records take the next one.
pub struct Exporter {
    pub tx: Sender<Telemetry>,
    pub online_tx: Option<Sender<Telemetry>>,
    pub deadline_tx: Option<Sender<Telemetry>>,
}

/// How an attempt to send ended.
#[derive(Clone, Copy, Debug, PartialEq, Eq, Structural)]
pub enum Outcome {
    Accepted,
    Full,
    Closed,
}

impl Attempt {
    pub open spec fn outcome(self) -> Outcome {
        match self {
            Attempt::Accepted => Outcome::Accepted,
            Attempt::Full(_) => Outcome::Full,
            Attempt::Closed => Outcome::Closed,
        }
    }
}

impl CtxView {
    /// The context after an attempt to send the oldest record, and whether the
    /// scan ends there. A record that finds its lane full goes behind the
    /// others, so that they get their turn; one with a deadline, and any
    /// record when the daemon stops, keeps its place instead. A closed channel
    /// loses the record.
    pub open spec fn attempted(self, o: Outcome, retrying: bool) -> (CtxView, bool) {
        let t = self.pending[0];
        let rest = self.pending.skip(1);
        if o is Full {
            if has_deadline(t) || retrying {
                (self, true)
            } else {
                (CtxView { pending: rest.push(t), ..self }, false)
            }
        } else {
            (CtxView { pending: rest, ..self }, false)
        }
    }

    /// The context after the `n` oldest records were tried in turn, each with
    /// its outcome, and whether one of them blocked the way.
    pub open spec fn exported(self, n: nat, os: Seq<Outcome>, retrying: bool) -> (CtxView, bool)
        decreases n,
    {
        if n == 0 {
            (self, false)
        } else {
            let (next, blocked) = self.attempted(os[0], retrying);
            if blocked {
                (next, true)
            } else {
                next.exported((n - 1) as nat, os.skip(1), retrying)
            }
        }
    }
}

impl PollingContext {
    /// Takes out the oldest record, with the lane that it belongs to.
    pub fn next_export(&mut self) -> (r: Option<(Lane, Telemetry)>)
        ensures
            old(self)@.pending.len() == 0 ==> r is None && final(self)@ == old(self)@,
            old(self)@.pending.len() > 0 ==> (r matches Some((lane, t)) && t@
                == old(self)@.pending[0] && lane == lane_for(t@)) && final(self)@ == (CtxView {
                pending: old(self)@.pending.skip(1),
                ..old(self)@
            }),
    {
        broadcast use group_views;

        match self.pending_telemetry.pop_front() {
            Some(t) => {
                assert(self@.pending =~= old(self)@.pending.skip(1));
                let lane: Lane = if is_deadline_telemetry(&t) {
                    Lane::Deadline
                } else if is_online_evidence(&t) {
                    Lane::Online
                } else {
                    Lane::Regular
                };
                Some((lane, t))
            },
            None => None,
        }
    }

    /// Puts back a record that found its lane full. Returns whether the scan
    /// ends here.
    pub fn settle_export(&mut self, lane: Lane, attempt: Attempt, retrying: bool) -> (blocked: bool)
        ensures
            blocked == (attempt is Full && (lane is Deadline || retrying)),
            attempt !is Full ==> final(self)@ == old(self)@,
            attempt matches Attempt::Full(t) ==> final(self)@ == (CtxView {
                pending: if blocked {
                    seq![t@] + old(self)@.pending
                } else {
                    old(self)@.pending.push(t@)
                },
                ..old(self)@
            }),
    {
        broadcast use group_views;

        match attempt {
            Attempt::Full(t) => {
                let stays: bool = match lane {
                    Lane::Deadline => true,
                    _ => retrying,
                };
                if stays {
                    self.pending_telemetry.push_front(t);
                    assert(self@.pending =~= seq![t@] + old(self)@.pending);
                } else {
                    self.pending_telemetry.push_back(t);
                }
                stays
            },
            _ => false,
        }
    }
}

impl Exporter {
    /// The channel that records of `lane` take: that of the lane, else that of
    /// the next lane that has one.
    pub open spec fn channel_for(self, lane: Lane) -> Sender<Telemetry> {
        match (lane, self.deadline_tx, self.online_tx) {
            (Lane::Deadline, Some(tx), _) => tx,
            (Lane::Deadline, None, Some(tx)) => tx,
            (Lane::Online, _, Some(tx)) => tx,
            _ => self.tx,
        }
    }

    fn channel(&self, lane: Lane) -> (r: &Sender<Telemetry>)
        ensures
            *r == self.channel_for(lane),
    {
        let online: &Sender<Telemetry> = match &self.online_tx {
            Some(tx) => tx,
            None => &self.tx,
        };
        match lane {
            Lane::Deadline => match &self.deadline_tx {
                Some(tx) => tx,
                None => online,
            },
            Lane::Online => online,
            Lane::Regular => &self.tx,
        }
    }

    /// Whether `sent` are attempts to send the oldest records of `pending` in
    /// turn, each on the channel of its lane.
    pub open spec fn offered(
        self,
        pending: Seq<TelemetryView>,
        sent: Seq<(Telemetry, Attempt)>,
    ) -> bool {
        &&& sent.len() <= pending.len()
        &&& forall|i: int|
            0 <= i < sent.len() ==> (#[trigger] sent[i]).0@ == pending[i] && came_of(
                self.channel_for(lane_for(pending[i])),
                sent[i].0,
                sent[i].1,
            )
    }

    /// Tries every record that waits once, oldest first. Returns whether one
    /// that must not be overtaken found its lane full.
    pub fn export_pending(&self, ctx: &mut PollingContext, retrying: bool) -> (blocked: bool)
        ensures
            exists|sent: Seq<(Telemetry, Attempt)>|
                #[trigger] self.offered(old(ctx)@.pending, sent) && (blocked || sent.len()
                    == old(ctx)@.pending.len()) && (final(ctx)@, blocked) == old(ctx)@.exported(
                    sent.len(),
                    outcomes(sent),
                    retrying,
                ),
    {
        let ghost start = ctx@;
        let mut remaining: usize = ctx.pending_telemetry.len();
        let ghost all = remaining as nat;
        let ghost mut sent: Seq<(Telemetry, Attempt)> = Seq::empty();
        while remaining > 0
            invariant
                start == old(ctx)@,
                all == start.pending.len(),
                sent.len() + remaining == all,
                ctx@.pending.len() >= remaining,
                forall|i: int|
                    0 <= i < remaining ==> #[trigger] ctx@.pending[i] == start.pending[sent.len()
                        + i],
                self.offered(start.pending, sent),
                start.exported(sent.len(), outcomes(sent), retrying) == (ctx@, false),
            decreases remaining,
        {
            let ghost c = ctx@;
            let ghost before = sent;
            remaining = remaining - 1;
            match ctx.next_export() {
                Some((lane, t)) => {
                    let ghost record = t;
                    assert(c.pending[0] == start.pending[before.len() as int]);
                    let attempt: Attempt = try_send(self.channel(lane), t);
                    proof {
                        sent = sent.push((record, attempt));
                    }
                    let ghost o = attempt.outcome();
                    let blocked: bool = ctx.settle_export(lane, attempt, retrying);
                    assert((ctx@, blocked) == c.attempted(o, retrying)) by {
                        if blocked {
                            assert(seq![record@] + c.pending.skip(1) =~= c.pending);
                        }
                    }
                    proof {
                        assert(outcomes(sent) =~= outcomes(before).push(o));
                        lemma_one_more_attempt(start, outcomes(before), o, retrying);
                        assert(self.offered(start.pending, sent));
                    }
                    if blocked {
                        return true;
                    }
                    assert forall|i: int| 0 <= i < remaining implies #[trigger] ctx@.pending[i]
                        == start.pending[sent.len() + i] by {
                        assert(ctx@.pending[i] == c.pending[i + 1]);
                    }
                },
                None => {
                    assert(false);
                },
            }
        }
        false
    }

    /// An exporter with one channel for all lanes.
    pub fn new(tx: Sender<Telemetry>) -> (r: Exporter)
        ensures
            r.tx == tx,
            r.online_tx is None,
            r.deadline_tx is None,
    {
        Exporter { tx, online_tx: None, deadline_tx: None }
    }
}

/// How the attempts ended.
pub open spec fn outcomes(sent: Seq<(Telemetry, Attempt)>) -> Seq<Outcome> {
    Seq::new(sent.len(), |i: int| sent[i].1.outcome())
}

/// A scan that goes one attempt further.
proof fn lemma_one_more_attempt(c: CtxView, os: Seq<Outcome>, o: Outcome, retrying: bool)
    requires
        !c.exported(os.len(), os, retrying).1,
    ensures
        c.exported(os.len() + 1, os.push(o), retrying) == c.exported(
            os.len(),
            os,
            retrying,
        ).0.attempted(o, retrying),
    decreases os.len(),
{
    if os.len() == 0 {
        let (next, blocked) = c.attempted(o, retrying);
        assert(next.exported(0, os.push(o).skip(1), retrying) == (next, false));
    } else {
        let (next, blocked) = c.attempted(os[0], retrying);
        assert(os.push(o).skip(1) =~= os.skip(1).push(o));
        lemma_one_more_attempt(next, os.skip(1), o, retrying);
    }
}

// ----------------------------------------------------------------------- laws

/// The records that a scan took out, in the order in which it came to them:
/// those that were accepted, or lost to a closed channel.
pub open spec fn taken_out(c: CtxView, n: nat, os: Seq<Outcome>, retrying: bool) -> Seq<
    TelemetryView,
>
    decreases n,
{
    if n == 0 {
        Seq::empty()
    } else {
        let (next, blocked) = c.attempted(os[0], retrying);
        if blocked {
            Seq::empty()
        } else {
            (if os[0] is Full {
                Seq::empty()
            } else {
                seq![c.pending[0]]
            }) + taken_out(next, (n - 1) as nat, os.skip(1), retrying)
        }
    }
}

/// A scan loses no record: each was taken out or still waits.
pub proof fn law_exporting_accounts_for_records(
    c: CtxView,
    n: nat,
    os: Seq<Outcome>,
    retrying: bool,
)
    requires
        n <= c.pending.len(),
        n <= os.len(),
    ensures
        taken_out(c, n, os, retrying).to_multiset().add(
            c.exported(n, os, retrying).0.pending.to_multiset(),
        ) =~= c.pending.to_multiset(),
    decreases n,
{
    broadcast use vstd::seq_lib::group_to_multiset_ensures;

    if n == 0 {
        assert(taken_out(c, n, os, retrying) =~= Seq::empty());
    } else {
        let (next, blocked) = c.attempted(os[0], retrying);
        let t = c.pending[0];
        let rest = c.pending.skip(1);
        assert(c.pending =~= seq![t] + rest);
        vstd::seq_lib::lemma_multiset_commutative(seq![t], rest);
        assert(seq![t] =~= Seq::empty().push(t));
        if blocked {
            assert(taken_out(c, n, os, retrying) =~= Seq::empty());
        } else {
            law_exporting_accounts_for_records(next, (n - 1) as nat, os.skip(1), retrying);
            let later = taken_out(next, (n - 1) as nat, os.skip(1), retrying);
            if os[0] is Full {
                assert(taken_out(c, n, os, retrying) =~= later);
            } else {
                vstd::seq_lib::lemma_multiset_commutative(seq![t], later);
            }
        }
    }
}

/// Those of `s` whose attempt found its lane full, or, with `full` false, those
/// whose attempt did not.
pub open spec fn tried(s: Seq<TelemetryView>, os: Seq<Outcome>, full: bool) -> Seq<TelemetryView>
    decreases s.len(),
{
    if s.len() == 0 {
        s
    } else if (os[0] is Full) == full {
        seq![s[0]] + tried(s.skip(1), os.skip(1), full)
    } else {
        tried(s.skip(1), os.skip(1), full)
    }
}

/// A scan that nothing blocks tries every record once, whatever became of
/// those before it: what found its lane full still waits, in the order in which
/// it waited before, and the rest was taken out in that order.
pub proof fn law_scans_try_every_record_once(c: CtxView, n: nat, os: Seq<Outcome>, retrying: bool)
    requires
        n <= c.pending.len(),
        n <= os.len(),
        !c.exported(n, os, retrying).1,
    ensures
        taken_out(c, n, os, retrying) == tried(c.pending.take(n as int), os, false),
        c.exported(n, os, retrying).0.pending == c.pending.skip(n as int) + tried(
            c.pending.take(n as int),
            os,
            true,
        ),
    decreases n,
{
    let front = c.pending.take(n as int);
    if n == 0 {
        assert(c.pending.skip(0) + tried(front, os, true) =~= c.pending);
    } else {
        let (next, blocked) = c.attempted(os[0], retrying);
        let t = c.pending[0];
        let m = (n - 1) as nat;
        law_scans_try_every_record_once(next, m, os.skip(1), retrying);
        assert(front[0] == t);
        let later = front.skip(1);
        assert(next.pending.take(m as int) =~= later);
        if os[0] is Full {
            let rest = c.pending.skip(n as int);
            assert(next.pending.skip(m as int) =~= rest.push(t));
            let kept = tried(later, os.skip(1), true);
            assert(rest.push(t) + kept =~= rest + (seq![t] + kept));
            assert(taken_out(c, n, os, retrying) =~= taken_out(next, m, os.skip(1), retrying));
        } else {
            assert(next.pending.skip(m as int) =~= c.pending.skip(n as int));
        }
    }
}

/// When the daemon stops, records leave in the order in which they were
/// reported.
pub proof fn law_retrying_keeps_the_order(c: CtxView, n: nat, os: Seq<Outcome>)
    requires
        n <= c.pending.len(),
        n <= os.len(),
    ensures
        taken_out(c, n, os, true) + c.exported(n, os, true).0.pending == c.pending,
    decreases n,
{
    if n == 0 {
        assert(taken_out(c, n, os, true) + c.pending =~= c.pending);
    } else {
        let (next, blocked) = c.attempted(os[0], true);
        if blocked {
            assert(taken_out(c, n, os, true) + c.pending =~= c.pending);
        } else {
            law_retrying_keeps_the_order(next, (n - 1) as nat, os.skip(1));
            let later = taken_out(next, (n - 1) as nat, os.skip(1), true);
            let left = c.exported(n, os, true).0.pending;
            assert(taken_out(c, n, os, true) + left =~= seq![c.pending[0]] + (later + left));
            assert(seq![c.pending[0]] + c.pending.skip(1) =~= c.pending);
        }
    }
}

/// The records with a deadline among `s`, in order.
pub open spec fn with_deadline(s: Seq<TelemetryView>) -> Seq<TelemetryView>
    decreases s.len(),
{
    if s.len() == 0 {
        s
    } else if has_deadline(s[0]) {
        seq![s[0]] + with_deadline(s.skip(1))
    } else {
        with_deadline(s.skip(1))
    }
}

proof fn lemma_with_deadline_push(s: Seq<TelemetryView>, t: TelemetryView)
    requires
        !has_deadline(t),
    ensures
        with_deadline(s.push(t)) == with_deadline(s),
    decreases s.len(),
{
    if s.len() == 0 {
        assert(s.push(t).skip(1) =~= s);
        assert(with_deadline(s.push(t)) == with_deadline(s.push(t).skip(1)));
    } else {
        assert(s.push(t).skip(1) =~= s.skip(1).push(t));
        lemma_with_deadline_push(s.skip(1), t);
        assert(s.push(t)[0] == s[0]);
    }
}

/// Records with a deadline never overtake each other: those that a scan took
/// out came before those that still wait.
pub proof fn law_deadline_records_keep_their_order(
    c: CtxView,
    n: nat,
    os: Seq<Outcome>,
    retrying: bool,
)
    requires
        n <= c.pending.len(),
        n <= os.len(),
    ensures
        with_deadline(taken_out(c, n, os, retrying)) + with_deadline(
            c.exported(n, os, retrying).0.pending,
        ) == with_deadline(c.pending),
    decreases n,
{
    let taken = taken_out(c, n, os, retrying);
    let left = c.exported(n, os, retrying).0.pending;
    if n == 0 {
        assert(taken =~= Seq::empty());
        assert(with_deadline(taken) + with_deadline(left) =~= with_deadline(left));
    } else {
        let (next, blocked) = c.attempted(os[0], retrying);
        let t = c.pending[0];
        let rest = c.pending.skip(1);
        if blocked {
            assert(taken =~= Seq::empty());
            assert(with_deadline(taken) + with_deadline(left) =~= with_deadline(left));
        } else {
            law_deadline_records_keep_their_order(next, (n - 1) as nat, os.skip(1), retrying);
            let later = taken_out(next, (n - 1) as nat, os.skip(1), retrying);
            if os[0] is Full {
                assert(taken =~= later);
                lemma_with_deadline_push(rest, t);
            } else {
                assert(taken =~= seq![t] + later);
                assert(taken.skip(1) =~= later);
                assert(taken[0] == t);
                assert((seq![t] + with_deadline(later)) + with_deadline(left) =~= seq![t] + (
                with_deadline(later) + with_deadline(left)));
            }
        }
    }
}

} // verus!
