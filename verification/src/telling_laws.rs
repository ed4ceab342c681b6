//! Every operation is told once: from its announcement on it is in flight,
//! waits for the report of its group, or has been reported, and never two of
//! these.
use crate::clock::{instant_after, Instant};
use crate::config::Config;
use crate::daemon::{ControlView, InterProcessMessage, Message, MessageView, TelemetryView};
use crate::event::{Group, NcclOpView, OpInfo, PendingProgress};
use crate::exporter::{taken_out, Outcome};
use crate::key_order::in_order;
use crate::polling_laws::{
    law_messages_keep_context_wf, law_passes_keep_context_wf, law_sweeps_keep_context_wf,
    lemma_inflight_keys, lemma_ipc_same, lemma_others_same, lemma_same_reports_is_transitive,
    same_reports,
};
use crate::polling_model::{
    all_ungrouped, closings, group_report, message_handled, not_after, ordered, placed, CtxView,
    GroupAccView, Pair, ReclaimAction, ReclaimPolicy,
};
use crate::polling_pass::{
    aged_policy, ipc_all_handled, lemma_passed_threads, lemma_rest_unchanged, messages_handled,
    passed, taken, threads_passed, Answers, Queue,
};
use crate::profiler::Profiler;
use crate::reclaim_laws::law_closing_tells_every_operation;
use crate::views::seq_at;
use vstd::prelude::*;

verus! {

// -------------------------------------------------------------------- counting

/// How many of `cs` have the id `id`.
pub open spec fn members(cs: Seq<NcclOpView>, id: usize) -> nat
    decreases cs.len(),
{
    if cs.len() == 0 {
        0
    } else {
        members(cs.drop_last(), id) + if cs.last().info.id == id {
            1nat
        } else {
            0
        }
    }
}

/// How often a record tells of the operation `id`: in a record of its own, as a
/// collective has one, or as a member of a group, as a transfer is.
pub open spec fn weight(t: TelemetryView, id: usize, own: bool) -> nat {
    match t {
        TelemetryView::NcclOp(o) => if own && o.info.id == id {
            1
        } else {
            0
        },
        TelemetryView::P2pParent(r) => if own {
            0
        } else {
            members(r.children, id)
        },
        _ => 0,
    }
}

/// How often the records `ts` tell of the operation `id`.
pub open spec fn told(ts: Seq<TelemetryView>, id: usize, own: bool) -> nat
    decreases ts.len(),
{
    if ts.len() == 0 {
        0
    } else {
        told(ts.drop_last(), id, own) + weight(ts.last(), id, own)
    }
}

/// An operation, the group that it was issued in, and whether it has a record
/// of its own.
pub ghost struct Watch {
    pub id: usize,
    pub home: Option<u64>,
    pub own: bool,
}

/// How an operation is watched: collectives have records of their own.
pub open spec fn watch(op: OpInfo) -> Watch {
    Watch { id: op.id, home: op.parent_group_id, own: !op.spec_is_p2p() }
}

impl CtxView {
    /// How often the operation waits for the report of its group.
    pub open spec fn waiting_for(self, w: Watch) -> nat {
        match w.home {
            Some(g) if !w.own => members(self.group(g).children, w.id),
            _ => 0,
        }
    }

    /// How often the operation was reported, or waits for the report of its
    /// group.
    pub open spec fn accounted(self, w: Watch) -> nat {
        told(self.pending, w.id, w.own) + self.waiting_for(w)
    }

    /// Whether the operation is in flight, as a number.
    pub open spec fn in_hand(self, w: Watch) -> nat {
        if self.ncclops.contains_key(w.id) && self.ncclops[w.id].info.spec_is_p2p() != w.own {
            1
        } else {
            0
        }
    }

    /// How often the operation is in flight, waits or was reported.
    pub open spec fn tally(self, w: Watch) -> nat {
        self.accounted(w) + self.in_hand(w)
    }

    /// Whether no group but its own holds the operation.
    pub open spec fn groups_homed(self, w: Watch) -> bool {
        w.own || forall|g: u64| #[trigger]
            self.groups.contains_key(g) && Some(g) != w.home ==> members(
                self.groups[g].children,
                w.id,
            ) == 0
    }

    /// Whether the operation, where it is in flight, belongs to its group.
    pub open spec fn op_homed(self, w: Watch) -> bool {
        self.ncclops.contains_key(w.id) && !w.own ==> self.ncclops[w.id].info.parent_group_id
            == w.home
    }

    pub open spec fn homed(self, w: Watch) -> bool {
        self.groups_homed(w) && self.op_homed(w)
    }

    /// What holds of the context of a daemon at all times.
    pub open spec fn sound(self) -> bool {
        &&& self.wf()
        &&& self.ncclops.dom().finite()
        &&& self.groups.dom().finite()
    }
}

proof fn lemma_told_push(ts: Seq<TelemetryView>, t: TelemetryView, id: usize, own: bool)
    ensures
        told(ts.push(t), id, own) == told(ts, id, own) + weight(t, id, own),
{
    assert(ts.push(t).drop_last() =~= ts);
}

pub(crate) proof fn lemma_told_concat(a: Seq<TelemetryView>, b: Seq<TelemetryView>, id: usize, own: bool)
    ensures
        told(a + b, id, own) == told(a, id, own) + told(b, id, own),
    decreases b.len(),
{
    if b.len() == 0 {
        assert(a + b =~= a);
    } else {
        assert((a + b).drop_last() =~= a + b.drop_last());
        lemma_told_concat(a, b.drop_last(), id, own);
    }
}

/// Records that tell of no operation do not count.
proof fn lemma_told_quiet(a: Seq<TelemetryView>, b: Seq<TelemetryView>, id: usize, own: bool)
    requires
        a.is_prefix_of(b),
        forall|i: int|
            a.len() <= i < b.len() ==> (#[trigger] b[i]) !is NcclOp && b[i] !is P2pParent,
    ensures
        told(b, id, own) == told(a, id, own),
    decreases b.len(),
{
    if b.len() == a.len() {
        assert(a =~= b);
    } else {
        let c = b.drop_last();
        assert(a.is_prefix_of(c)) by {
            assert(a =~= c.subrange(0, a.len() as int));
        }
        lemma_told_quiet(a, c, id, own);
        assert(b[b.len() - 1] !is NcclOp);
    }
}

proof fn lemma_members_push(cs: Seq<NcclOpView>, c: NcclOpView, id: usize)
    ensures
        members(cs.push(c), id) == members(cs, id) + if c.info.id == id {
            1nat
        } else {
            0
        },
{
    assert(cs.push(c).drop_last() =~= cs);
}

proof fn lemma_members_placed(cs: Seq<NcclOpView>, c: NcclOpView, id: usize)
    ensures
        members(placed(cs, c), id) == members(cs.push(c), id),
    decreases cs.len(),
{
    lemma_members_push(cs, c, id);
    if cs.len() == 0 {
        assert(seq![c] =~= cs.push(c));
    } else if !not_after(cs.last().info, c.info) {
        lemma_members_placed(cs.drop_last(), c, id);
        lemma_members_push(cs.drop_last(), c, id);
        lemma_members_push(placed(cs.drop_last(), c), cs.last(), id);
    }
}

proof fn lemma_members_reported(cs: Seq<NcclOpView>, id: usize)
    ensures
        members(all_ungrouped(ordered(cs)), id) == members(cs, id),
{
    lemma_members_ordered(cs, id);
    lemma_members_ungrouped(ordered(cs), id);
}

proof fn lemma_members_ordered(cs: Seq<NcclOpView>, id: usize)
    ensures
        members(ordered(cs), id) == members(cs, id),
    decreases cs.len(),
{
    if cs.len() > 0 {
        lemma_members_ordered(cs.drop_last(), id);
        lemma_members_placed(ordered(cs.drop_last()), cs.last(), id);
        lemma_members_push(ordered(cs.drop_last()), cs.last(), id);
    }
}

proof fn lemma_members_ungrouped(cs: Seq<NcclOpView>, id: usize)
    ensures
        members(all_ungrouped(cs), id) == members(cs, id),
    decreases cs.len(),
{
    if cs.len() > 0 {
        assert(all_ungrouped(cs).drop_last() =~= all_ungrouped(cs.drop_last()));
        lemma_members_ungrouped(cs.drop_last(), id);
    }
}

// ---------------------------------------------------------------------- groups

/// The report of a group moves its members from waiting to told.
proof fn lemma_tried(c: CtxView, gid: u64, force: bool, w: Watch)
    requires
        c.groups_homed(w),
    ensures
        ({
            let d = c.group_tried(gid, force);
            &&& d.ncclops == c.ncclops
            &&& d.groups_homed(w)
            &&& d.accounted(w) == c.accounted(w)
            &&& c.groups.dom().finite() ==> d.groups.dom().finite()
        }),
{
    if c.group_is_ready(gid, force) {
        let d = c.group_tried(gid, force);
        let acc = c.groups[gid];
        let partial = force && (acc.children.len() < acc.expected || !acc.ended);
        let r = group_report(gid, acc.children, partial, acc.self_copy_size);
        lemma_told_push(c.pending, TelemetryView::P2pParent(r), w.id, w.own);
        lemma_members_reported(acc.children, w.id);
        assert(d.pending == c.pending.push(TelemetryView::P2pParent(r)));
        assert(members(GroupAccView::fresh().children, w.id) == 0);
        assert(c.groups.contains_key(gid));
    }
}

/// An operation that left the operations in flight is accounted for, once.
proof fn lemma_reclaimed(c: CtxView, op: NcclOpView, now: Instant, w: Watch)
    requires
        c.groups_homed(w),
        op.info.id == w.id && !w.own ==> op.info.parent_group_id == w.home,
    ensures
        ({
            let d = c.reclaimed(op, now);
            &&& d.ncclops == c.ncclops
            &&& d.groups_homed(w)
            &&& d.accounted(w) == c.accounted(w) + if op.info.id == w.id && op.info.spec_is_p2p()
                != w.own {
                1nat
            } else {
                0
            }
            &&& c.groups.dom().finite() ==> d.groups.dom().finite()
        }),
{
    let end = match op.info.end_time {
        Some(t) => t,
        None => now,
    };
    let closed = c.finished(op.info.id, end);
    lemma_told_quiet(c.pending, closed.pending, w.id, w.own);
    if !op.info.spec_is_p2p() {
        lemma_told_push(closed.pending, TelemetryView::NcclOp(op), w.id, w.own);
    } else {
        match op.info.parent_group_id {
            Some(gid) => {
                let acc = closed.group(gid);
                let grown = GroupAccView { children: acc.children.push(op), ..acc };
                let joined = CtxView { groups: closed.groups.insert(gid, grown), ..closed };
                lemma_members_push(acc.children, op, w.id);
                assert(members(GroupAccView::fresh().children, w.id) == 0);
                assert(joined.groups_homed(w)) by {
                    if !w.own {
                        assert forall|g: u64| #[trigger]
                            joined.groups.contains_key(g) && Some(g) != w.home implies members(
                            joined.groups[g].children,
                            w.id,
                        ) == 0 by {
                            if g == gid && c.groups.contains_key(gid) {
                                assert(members(c.groups[gid].children, w.id) == 0);
                            }
                        }
                    }
                }
                lemma_tried(joined, gid, false, w);
            },
            None => {
                let r = group_report(0, seq![op], false, 0);
                lemma_members_reported(seq![op], w.id);
                assert(seq![op] =~= Seq::empty().push(op));
                lemma_members_push(Seq::empty(), op, w.id);
                lemma_told_push(closed.pending, TelemetryView::P2pParent(r), w.id, w.own);
            },
        }
    }
}

// ---------------------------------------------------------------------- sweeps

proof fn lemma_sweep(
    c: CtxView,
    kept: Map<usize, NcclOpView>,
    keys: Seq<usize>,
    n: nat,
    policy: ReclaimPolicy,
    now: Instant,
    w: Watch,
)
    requires
        keys.no_duplicates(),
        forall|i: int|
            0 <= i < keys.len() ==> c.ncclops.contains_key(#[trigger] keys[i])
                && !kept.contains_key(keys[i]),
        forall|id: usize| #[trigger]
            c.ncclops.contains_key(id) ==> c.ncclops[id].info.id == id,
        c.restored(kept).homed(w),
    ensures
        ({
            let d = c.swept_from(kept, keys, n, policy, now);
            &&& d.homed(w)
            &&& d.tally(w) == c.restored(kept).tally(w)
            &&& forall|id: usize| #[trigger]
                d.ncclops.contains_key(id) ==> c.restored(kept).ncclops.contains_key(id)
                    && d.ncclops[id] == c.restored(kept).ncclops[id]
            &&& c.groups.dom().finite() ==> d.groups.dom().finite()
        }),
    decreases keys.len(),
{
    if keys.len() > 0 {
        let k = keys[0];
        let op = c.ncclops[k];
        let rest = keys.drop_first();
        assert(forall|i: int| 0 <= i < rest.len() ==> rest[i] == keys[i + 1]);
        let less = c.without_op(k);
        match policy.decision(op.info, n, now) {
            ReclaimAction::Keep => {
                let more = kept.insert(k, op);
                assert(less.restored(more).ncclops =~= c.restored(kept).ncclops);
                assert(less.restored(more) == c.restored(kept));
                lemma_sweep(less, more, rest, n + 1, policy, now, w);
            },
            ReclaimAction::Reclaim => {
                let next = less.reclaimed(op, now);
                assert(c.restored(kept).ncclops.contains_key(k) && c.restored(kept).ncclops[k]
                    == op);
                assert(less.groups == c.restored(kept).groups);
                assert(c.restored(kept).groups_homed(w));
                assert(less.groups_homed(w));
                lemma_reclaimed(less, op, now, w);
                assert(next.restored(kept).ncclops =~= c.restored(kept).ncclops.remove(k));
                assert(next.restored(kept).accounted(w) == next.accounted(w));
                assert(next.restored(kept).tally(w) == c.restored(kept).tally(w));
                lemma_sweep(next, kept, rest, n + 1, policy, now, w);
            },
            ReclaimAction::Stop => {},
        }
    }
}

proof fn lemma_swept(c: CtxView, policy: ReclaimPolicy, now: Instant, w: Watch)
    requires
        c.sound(),
        c.homed(w),
    ensures
        ({
            let d = c.swept(policy, now);
            &&& d.sound()
            &&& d.homed(w)
            &&& d.tally(w) == c.tally(w)
            &&& forall|id: usize| #[trigger]
                d.ncclops.contains_key(id) ==> c.ncclops.contains_key(id) && d.ncclops[id]
                    == c.ncclops[id]
        }),
{
    lemma_inflight_keys(c);
    law_sweeps_keep_context_wf(c, policy, now);
    assert(c.restored(Map::empty()).ncclops =~= c.ncclops);
    assert(c.restored(Map::empty()) == c);
    lemma_sweep(c, Map::empty(), in_order(c.ncclops.dom()), 0, policy, now, w);
}

pub(crate) proof fn lemma_trimmed(c: CtxView, config: Config, now: Instant, w: Watch)
    requires
        c.sound(),
        c.homed(w),
    ensures
        ({
            let d = c.trimmed(config, now);
            &&& d.sound()
            &&& d.homed(w)
            &&& d.tally(w) == c.tally(w)
            &&& forall|id: usize| #[trigger]
                d.ncclops.contains_key(id) ==> c.ncclops.contains_key(id) && d.ncclops[id]
                    == c.ncclops[id]
        }),
{
    let d = c.swept(aged_policy(config), now);
    lemma_swept(c, aged_policy(config), now, w);
    if d.ncclops.len() > config.max_tracked_ncclop {
        let most = (d.ncclops.len() - config.max_tracked_ncclop) as usize;
        lemma_swept(d, ReclaimPolicy::Oldest { n: most }, now, w);
    }
}

proof fn lemma_flushed(c: CtxView, gids: Seq<u64>, w: Watch)
    requires
        c.groups_homed(w),
    ensures
        ({
            let d = c.groups_flushed(gids);
            &&& d.groups_homed(w)
            &&& d.accounted(w) == c.accounted(w)
            &&& d.ncclops == c.ncclops
        }),
    decreases gids.len(),
{
    if gids.len() > 0 {
        lemma_flushed(c, gids.drop_last(), w);
        lemma_tried(c.groups_flushed(gids.drop_last()), gids.last(), true, w);
    }
}

/// When the daemon stops, what was in flight or waited has been told as often
/// as it was there.
pub(crate) proof fn lemma_closed(c: CtxView, now: Instant, w: Watch)
    requires
        c.sound(),
        c.homed(w),
    ensures
        told(c.closed(now).pending, w.id, w.own) == c.tally(w),
        c.closed(now).ncclops == Map::<usize, NcclOpView>::empty(),
{
    let e = c.swept(ReclaimPolicy::All, now);
    let d = c.closed(now);
    lemma_swept(c, ReclaimPolicy::All, now, w);
    law_closing_tells_every_operation(c, now);
    lemma_flushed(e, in_order(e.groups.dom()), w);
    assert(d.ncclops == e.ncclops);
    assert(members(GroupAccView::fresh().children, w.id) == 0);
    assert(d.waiting_for(w) == 0) by {
        match w.home {
            Some(g) => {
                if d.groups.contains_key(g) {
                    assert(d.groups[g].children.len() == 0);
                }
            },
            None => {},
        }
    }
}

// -------------------------------------------------------------------- messages

pub(crate) proof fn lemma_same_tally(c: CtxView, d: CtxView, w: Watch)
    requires
        same_reports(c, d),
        c.homed(w),
    ensures
        d.homed(w),
        d.tally(w) == c.tally(w),
        d.ncclops.contains_key(w.id) == c.ncclops.contains_key(w.id),
{
    lemma_told_quiet(c.pending, d.pending, w.id, w.own);
    assert(d.ncclops.contains_key(w.id) == d.ncclops.dom().contains(w.id));
    assert(c.ncclops.contains_key(w.id) == c.ncclops.dom().contains(w.id));
    assert(d.groups_homed(w)) by {
        assert(d.groups == c.groups);
        assert(c.groups_homed(w));
    }
}

proof fn lemma_noted(c: CtxView, parent: usize, p: PendingProgress)
    ensures
        same_reports(c, c.noted(parent, p)),
{
    let d = c.noted(parent, p);
    assert(d.ncclops == c.ncclops);
}

proof fn lemma_noted_all(c: CtxView, parent: usize, ps: Seq<PendingProgress>)
    ensures
        same_reports(c, c.noted_all(parent, ps)),
    decreases ps.len(),
{
    if ps.len() > 0 {
        let d = c.noted_all(parent, ps.drop_last());
        lemma_noted_all(c, parent, ps.drop_last());
        lemma_noted(d, parent, ps.last());
        lemma_same_reports_is_transitive(c, d, c.noted_all(parent, ps));
    }
}

proof fn lemma_completed(c: CtxView, parent: usize, start: Instant, end: Instant)
    ensures
        same_reports(c, c.completed_op(parent, start, end)),
{
    let d = c.completed_op(parent, start, end);
    assert(d.ncclops.dom() =~= c.ncclops.dom());
    let n = c.pending.len();
    let closing = closings(seq_at(c.active, parent), end);
    assert forall|i: int| n <= i < d.pending.len() implies (#[trigger] d.pending[i]) !is NcclOp
        && d.pending[i] !is P2pParent by {
        if i < n + closing.len() {
            assert(d.pending[i] == closing[i - n]);
        }
    }
}

/// An announcement adds an operation to those in flight, and nothing else.
proof fn lemma_announced(c: CtxView, op: NcclOpView, w: Watch)
    requires
        c.homed(w),
        op.info.id == w.id ==> !c.ncclops.contains_key(w.id) && op.info.parent_group_id == w.home,
    ensures
        ({
            let d = c.announced(op);
            &&& d.homed(w)
            &&& d.tally(w) == c.tally(w) + announces(MessageView::NcclOp(op), w)
            &&& op.info.id != w.id ==> d.ncclops.contains_key(w.id) == c.ncclops.contains_key(w.id)
            &&& d.ncclops.dom() == c.ncclops.dom().insert(op.info.id)
            &&& c.groups.dom().finite() ==> d.groups.dom().finite()
        }),
{
    let id = op.info.id;
    let counted = c.counted(op.info);
    let listed = CtxView {
        ncclops: c.ncclops.insert(id, op),
        early_progress: c.early_progress.remove(id),
        ..counted
    }.reported(TelemetryView::NcclOpIssued(op));
    lemma_told_push(c.pending, TelemetryView::NcclOpIssued(op), w.id, w.own);
    assert(members(GroupAccView::fresh().children, w.id) == 0);
    assert(listed.groups_homed(w)) by {
        if !w.own {
            assert forall|g: u64| #[trigger]
                listed.groups.contains_key(g) && Some(g) != w.home implies members(
                listed.groups[g].children,
                w.id,
            ) == 0 by {
                if c.groups.contains_key(g) {
                    assert(members(c.groups[g].children, w.id) == 0);
                }
            }
        }
    }
    assert(listed.waiting_for(w) == c.waiting_for(w));
    assert(listed.tally(w) == c.tally(w) + announces(MessageView::NcclOp(op), w));
    let replayed = listed.noted_all(id, seq_at(c.early_progress, id));
    lemma_noted_all(listed, id, seq_at(c.early_progress, id));
    lemma_same_tally(listed, replayed, w);
    if c.early_completions.contains_key(id) {
        let (start, end) = c.early_completions[id];
        let e = CtxView { early_completions: replayed.early_completions.remove(id), ..replayed };
        assert(same_reports(replayed, e));
        lemma_completed(e, id, start, end);
        lemma_same_reports_is_transitive(replayed, e, e.completed_op(id, start, end));
        lemma_same_tally(replayed, c.announced(op), w);
    }
    assert(listed.ncclops.dom() =~= c.ncclops.dom().insert(id));
}

/// Whether a message announces the operation, as the kind that it is watched
/// as; as a number.
pub open spec fn announces(m: MessageView, w: Watch) -> nat {
    match m {
        MessageView::NcclOp(op) => if op.info.id == w.id && op.info.spec_is_p2p() != w.own {
            1
        } else {
            0
        },
        _ => 0,
    }
}

/// Whether a message announces an operation with this id, of whatever kind; as
/// a number.
pub open spec fn names(m: MessageView, id: usize) -> nat {
    match m {
        MessageView::NcclOp(op) => if op.info.id == id {
            1
        } else {
            0
        },
        _ => 0,
    }
}

/// How often `ms` announce the operation.
pub open spec fn announced_in(ms: Seq<Message>, w: Watch) -> nat
    decreases ms.len(),
{
    if ms.len() == 0 {
        0
    } else {
        announced_in(ms.drop_last(), w) + announces(ms.last()@, w)
    }
}

/// How often `ms` announce an operation with this id.
pub open spec fn named_in(ms: Seq<Message>, id: usize) -> nat
    decreases ms.len(),
{
    if ms.len() == 0 {
        0
    } else {
        named_in(ms.drop_last(), id) + names(ms.last()@, id)
    }
}

/// Whether `ms` announce the operation in its group.
pub open spec fn at_home(ms: Seq<Message>, w: Watch) -> bool {
    forall|i: int|
        0 <= i < ms.len() && names((#[trigger] ms[i])@, w.id) > 0
            ==> ms[i]@->NcclOp_0.info.parent_group_id == w.home
}

impl CtxView {
    /// Whether `k` more announcements of the operation give it an id of its
    /// own.
    pub open spec fn has_place(self, w: Watch, k: nat) -> bool {
        k == 0 || (k == 1 && !self.ncclops.contains_key(w.id))
    }

    /// Whether `d` follows from this context by steps that announced the
    /// operation `k` times, and `any` times if its kind is left aside.
    pub open spec fn gives(self, d: CtxView, w: Watch, k: nat, any: nat) -> bool {
        &&& d.sound()
        &&& d.homed(w)
        &&& d.tally(w) == self.tally(w) + k
        &&& any == 0 && !self.ncclops.contains_key(w.id) ==> !d.ncclops.contains_key(w.id)
    }
}

proof fn lemma_message(
    s: Pair,
    m: MessageView,
    p: Profiler,
    now: Instant,
    answer: Option<Seq<u64>>,
    w: Watch,
)
    requires
        s.0.sound(),
        s.0.homed(w),
        s.0.has_place(w, names(m, w.id)),
        names(m, w.id) > 0 ==> m->NcclOp_0.info.parent_group_id == w.home,
    ensures
        s.0.gives(message_handled(s, m, p, now, answer).0, w, announces(m, w), names(m, w.id)),
{
    let d = message_handled(s, m, p, now, answer).0;
    law_messages_keep_context_wf(s, m, p, now, answer);
    match m {
        MessageView::NcclOp(op) => lemma_announced(s.0, op, w),
        MessageView::StepProgress(parent, progress) => {
            lemma_noted(s.0, parent, progress);
            lemma_same_tally(s.0, d, w);
        },
        MessageView::KernelCh(start, dur, parent) => {
            lemma_completed(s.0, parent, start, instant_after(start, dur));
            lemma_same_tally(s.0, d, w);
        },
        MessageView::Group(g) => {
            lemma_group_ended(s.0, g, p.config.track_group, w);
        },
        _ => {
            lemma_others_same(s, m, p, now, answer);
            lemma_same_tally(s.0, d, w);
        },
    }
}

proof fn lemma_group_ended(c: CtxView, g: Group, track: bool, w: Watch)
    requires
        c.homed(w),
    ensures
        ({
            let d = c.group_ended(g, track);
            &&& d.homed(w)
            &&& d.tally(w) == c.tally(w)
            &&& d.ncclops == c.ncclops
            &&& c.groups.dom().finite() ==> d.groups.dom().finite()
        }),
{
    let acc = c.group(g.id);
    let ended = GroupAccView {
        ended: true,
        self_copy_size: if acc.self_copy_size >= g.self_copy_size {
            acc.self_copy_size
        } else {
            g.self_copy_size
        },
        ..acc
    };
    let e = CtxView { groups: c.groups.insert(g.id, ended), ..c };
    assert(members(GroupAccView::fresh().children, w.id) == 0);
    assert(e.groups_homed(w)) by {
        if !w.own {
            assert forall|h: u64| #[trigger]
                e.groups.contains_key(h) && Some(h) != w.home implies members(
                e.groups[h].children,
                w.id,
            ) == 0 by {
                if c.groups.contains_key(h) {
                    assert(members(c.groups[h].children, w.id) == 0);
                }
            }
        }
    }
    assert(e.waiting_for(w) == c.waiting_for(w));
    lemma_tried(e, g.id, false, w);
    let tried = e.group_tried(g.id, false);
    lemma_told_push(tried.pending, TelemetryView::Group(g), w.id, w.own);
    if track {
        assert(c.group_ended(g, track).groups == tried.groups);
        assert(tried.groups_homed(w));
        assert(c.group_ended(g, track).groups_homed(w));
    }
}

proof fn lemma_messages(
    s: Pair,
    ms: Seq<Message>,
    p: Profiler,
    now: Instant,
    answers: Seq<Option<Seq<u64>>>,
    w: Watch,
)
    requires
        s.0.sound(),
        s.0.homed(w),
        s.0.has_place(w, named_in(ms, w.id)),
        at_home(ms, w),
    ensures
        s.0.gives(
            messages_handled(s, ms, p, now, answers).0,
            w,
            announced_in(ms, w),
            named_in(ms, w.id),
        ),
    decreases ms.len(),
{
    if ms.len() > 0 {
        let front = ms.drop_last();
        assert forall|i: int| 0 <= i < front.len() && names((#[trigger] front[i])@, w.id)
            > 0 implies front[i]@->NcclOp_0.info.parent_group_id == w.home by {
            assert(front[i] == ms[i]);
        }
        lemma_messages(s, front, p, now, answers.drop_last(), w);
        let t = messages_handled(s, front, p, now, answers.drop_last());
        assert(names(ms[ms.len() - 1]@, w.id) > 0
            ==> ms[ms.len() - 1]@->NcclOp_0.info.parent_group_id == w.home);
        lemma_message(t, ms.last()@, p, now, answers.last(), w);
    }
}

// ---------------------------------------------------------------- whole passes

/// How often a pass over one queue of the first `n` threads announces the
/// operation.
pub open spec fn announced_by(ts: Seq<ControlView>, n: nat, q: Queue, max: usize, w: Watch) -> nat
    decreases n,
{
    if n == 0 {
        0
    } else {
        announced_by(ts, (n - 1) as nat, q, max, w) + announced_in(taken(ts[n - 1], q, max), w)
    }
}

/// How often it announces an operation with this id.
pub open spec fn named_by(ts: Seq<ControlView>, n: nat, q: Queue, max: usize, id: usize) -> nat
    decreases n,
{
    if n == 0 {
        0
    } else {
        named_by(ts, (n - 1) as nat, q, max, id) + named_in(taken(ts[n - 1], q, max), id)
    }
}

/// Whether the threads announce the operation in its group.
pub open spec fn threads_at_home(ts: Seq<ControlView>, q: Queue, max: usize, w: Watch) -> bool {
    forall|i: int| 0 <= i < ts.len() ==> at_home(taken(#[trigger] ts[i], q, max), w)
}

proof fn lemma_threads(
    c: CtxView,
    ts: Seq<ControlView>,
    n: nat,
    q: Queue,
    max: usize,
    p: Profiler,
    now: Instant,
    answers: Seq<Seq<Option<Seq<u64>>>>,
    w: Watch,
)
    requires
        n <= ts.len(),
        c.sound(),
        c.homed(w),
        c.has_place(w, named_by(ts, n, q, max, w.id)),
        threads_at_home(ts, q, max, w),
    ensures
        c.gives(
            threads_passed(c, ts, n, q, max, p, now, answers).0,
            w,
            announced_by(ts, n, q, max, w),
            named_by(ts, n, q, max, w.id),
        ),
    decreases n,
{
    if n > 0 {
        let m = (n - 1) as nat;
        let before = answers.drop_last();
        lemma_threads(c, ts, m, q, max, p, now, before, w);
        lemma_rest_unchanged(c, ts, m, q, max, p, now, before);
        let (c0, ts0) = threads_passed(c, ts, m, q, max, p, now, before);
        let t = ts[n - 1];
        assert(ts0[n - 1] == t);
        lemma_messages((c0, t.state), taken(t, q, max), p, now, answers.last(), w);
    }
}

proof fn lemma_ipc_all(
    c: CtxView,
    ts: Seq<ControlView>,
    ms: Seq<InterProcessMessage>,
    p: Profiler,
    now: Instant,
    answers: Seq<Option<Seq<u64>>>,
)
    ensures
        same_reports(c, ipc_all_handled(c, ts, ms, p, now, answers).0),
    decreases ms.len(),
{
    if ms.len() > 0 {
        let before = answers.drop_last();
        lemma_ipc_all(c, ts, ms.drop_last(), p, now, before);
        let (c0, ts0) = ipc_all_handled(c, ts, ms.drop_last(), p, now, before);
        lemma_ipc_same(c0, ts0, ms.last(), p, now, answers.last());
        lemma_same_reports_is_transitive(c, c0, ipc_all_handled(c, ts, ms, p, now, answers).0);
    }
}

/// The same messages wait in the queue of events of two listings of threads.
pub(crate) proof fn lemma_same_events(ts: Seq<ControlView>, us: Seq<ControlView>, n: nat, max: usize, w: Watch)
    requires
        n <= ts.len(),
        us.len() == ts.len(),
        forall|i: int| 0 <= i < ts.len() ==> (#[trigger] us[i]).fifo == ts[i].fifo,
    ensures
        announced_by(us, n, Queue::Events, max, w) == announced_by(ts, n, Queue::Events, max, w),
        named_by(us, n, Queue::Events, max, w.id) == named_by(ts, n, Queue::Events, max, w.id),
    decreases n,
{
    if n > 0 {
        lemma_same_events(ts, us, (n - 1) as nat, max, w);
        assert(us[n - 1].fifo == ts[n - 1].fifo);
    }
}

/// How often a pass announces the operation.
pub open spec fn announced_in_pass(
    ts: Seq<ControlView>,
    max_ncclops: usize,
    max_events: usize,
    w: Watch,
) -> nat {
    announced_by(ts, ts.len(), Queue::Ncclops, max_ncclops, w) + announced_by(
        ts,
        ts.len(),
        Queue::Events,
        max_events,
        w,
    )
}

/// How often a pass announces an operation with this id.
pub open spec fn named_in_pass(
    ts: Seq<ControlView>,
    max_ncclops: usize,
    max_events: usize,
    id: usize,
) -> nat {
    named_by(ts, ts.len(), Queue::Ncclops, max_ncclops, id) + named_by(
        ts,
        ts.len(),
        Queue::Events,
        max_events,
        id,
    )
}

/// Whether a pass announces the operation in its group.
pub open spec fn pass_at_home(
    ts: Seq<ControlView>,
    max_ncclops: usize,
    max_events: usize,
    w: Watch,
) -> bool {
    threads_at_home(ts, Queue::Ncclops, max_ncclops, w) && threads_at_home(
        ts,
        Queue::Events,
        max_events,
        w,
    )
}

/// What has been told, waits and is in flight grows with announcements alone: a
/// pass accounts for every operation as often as it was announced.
pub proof fn law_passes_account_for_operations(
    c: CtxView,
    ts: Seq<ControlView>,
    ipc: Seq<InterProcessMessage>,
    max_ncclops: usize,
    max_events: usize,
    p: Profiler,
    now: Instant,
    answers: Answers,
    w: Watch,
)
    requires
        c.sound(),
        c.homed(w),
        c.has_place(w, named_in_pass(ts, max_ncclops, max_events, w.id)),
        pass_at_home(ts, max_ncclops, max_events, w),
    ensures
        c.gives(
            passed(c, ts, ipc, max_ncclops, max_events, p, now, answers).0,
            w,
            announced_in_pass(ts, max_ncclops, max_events, w),
            named_in_pass(ts, max_ncclops, max_events, w.id),
        ),
{
    let n = ts.len();
    let q = Queue::Ncclops;
    let r = Queue::Events;
    lemma_threads(c, ts, n, q, max_ncclops, p, now, answers.ncclops, w);
    let (c1, ts1) = threads_passed(c, ts, n, q, max_ncclops, p, now, answers.ncclops);
    lemma_passed_threads(c, ts, n, max_ncclops, p, now, answers.ncclops);
    lemma_same_events(ts, ts1, n, max_events, w);
    assert(threads_at_home(ts1, r, max_events, w)) by {
        assert forall|i: int| 0 <= i < ts1.len() implies at_home(
            taken(#[trigger] ts1[i], r, max_events),
            w,
        ) by {
            assert(taken(ts1[i], r, max_events) == taken(ts[i], r, max_events));
            assert(at_home(taken(ts[i], r, max_events), w));
        }
    }
    lemma_threads(c1, ts1, n, r, max_events, p, now, answers.events, w);
    let (c2, ts2) = threads_passed(c1, ts1, n, r, max_events, p, now, answers.events);
    lemma_ipc_all(c2, ts2, ipc, p, now, answers.ipc);
    let d = passed(c, ts, ipc, max_ncclops, max_events, p, now, answers).0;
    lemma_same_tally(c2, d, w);
    law_passes_keep_context_wf(c, ts, ipc, max_ncclops, max_events, p, now, answers);
}

// ------------------------------------------------------------------- exporting

/// Exporting hands records on and neither drops nor doubles what they tell.
pub(crate) proof fn lemma_exported(
    c: CtxView,
    n: nat,
    os: Seq<Outcome>,
    retrying: bool,
    id: usize,
    own: bool,
)
    requires
        n <= c.pending.len(),
        n <= os.len(),
    ensures
        ({
            let d = c.exported(n, os, retrying).0;
            &&& d == (CtxView { pending: d.pending, ..c })
            &&& told(taken_out(c, n, os, retrying), id, own) + told(d.pending, id, own) == told(
                c.pending,
                id,
                own,
            )
        }),
    decreases n,
{
    if n > 0 {
        let (next, blocked) = c.attempted(os[0], retrying);
        let t = c.pending[0];
        let rest = c.pending.skip(1);
        assert(c.pending =~= seq![t] + rest);
        lemma_told_concat(seq![t], rest, id, own);
        lemma_told_push(rest, t, id, own);
        assert(seq![t] =~= Seq::empty().push(t));
        lemma_told_push(Seq::empty(), t, id, own);
        if !blocked {
            let m = (n - 1) as nat;
            lemma_exported(next, m, os.skip(1), retrying, id, own);
            let later = taken_out(next, m, os.skip(1), retrying);
            if os[0] is Full {
                assert(taken_out(c, n, os, retrying) =~= later);
            } else {
                lemma_told_concat(seq![t], later, id, own);
            }
        }
    }
}

// ------------------------------------------------------- once, step by step

/// No message makes the daemon report a collective as done: that is left to the
/// sweeps.
pub proof fn law_messages_tell_no_collective(
    s: Pair,
    m: MessageView,
    p: Profiler,
    now: Instant,
    answer: Option<Seq<u64>>,
    id: usize,
)
    ensures
        told(message_handled(s, m, p, now, answer).0.pending, id, true) == told(
            s.0.pending,
            id,
            true,
        ),
{
    let c = s.0;
    let d = message_handled(s, m, p, now, answer).0;
    match m {
        MessageView::NcclOp(op) => {
            let own = op.info.id;
            let listed = CtxView {
                ncclops: c.ncclops.insert(own, op),
                early_progress: c.early_progress.remove(own),
                ..c.counted(op.info)
            }.reported(TelemetryView::NcclOpIssued(op));
            lemma_told_push(c.pending, TelemetryView::NcclOpIssued(op), id, true);
            let ps = seq_at(c.early_progress, own);
            let replayed = listed.noted_all(own, ps);
            lemma_noted_all(listed, own, ps);
            lemma_told_quiet(listed.pending, replayed.pending, id, true);
            if c.early_completions.contains_key(own) {
                let (start, end) = c.early_completions[own];
                let e = CtxView {
                    early_completions: replayed.early_completions.remove(own),
                    ..replayed
                };
                lemma_completed(e, own, start, end);
                lemma_told_quiet(e.pending, d.pending, id, true);
            }
        },
        MessageView::StepProgress(parent, progress) => {
            lemma_noted(c, parent, progress);
            lemma_told_quiet(c.pending, d.pending, id, true);
        },
        MessageView::KernelCh(start, dur, parent) => {
            lemma_completed(c, parent, start, instant_after(start, dur));
            lemma_told_quiet(c.pending, d.pending, id, true);
        },
        MessageView::Group(g) => {
            lemma_group_ended(c, g, p.config.track_group, Watch { id, home: None, own: true });
        },
        _ => {
            lemma_others_same(s, m, p, now, answer);
            lemma_told_quiet(c.pending, d.pending, id, true);
        },
    }
}

impl CtxView {
    /// Whether the collective `id` is in flight here and not in `d`; as a
    /// number.
    pub open spec fn lost_to(self, d: CtxView, id: usize) -> nat {
        if self.ncclops.contains_key(id) && !self.ncclops[id].info.spec_is_p2p()
            && !d.ncclops.contains_key(id) {
            1
        } else {
            0
        }
    }
}

/// A sweep reports a collective once where it gives it up, and not at all where
/// it does not.
pub proof fn law_sweeps_tell_collectives_once(
    c: CtxView,
    policy: ReclaimPolicy,
    now: Instant,
    id: usize,
)
    requires
        c.sound(),
    ensures
        ({
            let d = c.swept(policy, now);
            told(d.pending, id, true) == told(c.pending, id, true) + c.lost_to(d, id)
        }),
{
    lemma_swept(c, policy, now, Watch { id, home: None, own: true });
}

/// So does the end of a pass, whether an operation leaves because it is done,
/// too old or one too many.
pub proof fn law_trimming_tells_collectives_once(
    c: CtxView,
    config: Config,
    now: Instant,
    id: usize,
)
    requires
        c.sound(),
    ensures
        ({
            let d = c.trimmed(config, now);
            told(d.pending, id, true) == told(c.pending, id, true) + c.lost_to(d, id)
        }),
{
    lemma_trimmed(c, config, now, Watch { id, home: None, own: true });
}

/// And so does the end of the daemon, where every collective leaves.
pub proof fn law_closing_tells_collectives_once(c: CtxView, now: Instant, id: usize)
    requires
        c.sound(),
    ensures
        ({
            let d = c.closed(now);
            &&& told(d.pending, id, true) == told(c.pending, id, true) + c.lost_to(d, id)
            &&& !d.ncclops.contains_key(id)
        }),
{
    lemma_closed(c, now, Watch { id, home: None, own: true });
}

} // verus!
