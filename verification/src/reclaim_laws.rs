//! What sweeps and reports of groups keep and lose.
use crate::clock::Instant;
use crate::config::Config;
use crate::daemon::TelemetryView;
use crate::event::NcclOpView;
use crate::key_order::{in_order, lemma_listing_exists};
use crate::polling_laws::lemma_inflight_keys;
use crate::polling_model::{
    all_ungrouped, group_report, is_aged, not_after, ordered, placed, CtxView, ReclaimAction,
    ReclaimPolicy,
};
use crate::polling_pass::{aged_policy, NCCLOP_RECLAIM_BATCH};
use vstd::prelude::*;

verus! {

// ---------------------------------------------------------- order in a report

/// Whether no operation of `cs` comes after one that follows it.
pub open spec fn in_report_order(cs: Seq<NcclOpView>) -> bool {
    forall|i: int, j: int|
        0 <= i < j < cs.len() ==> not_after((#[trigger] cs[i]).info, (#[trigger] cs[j]).info)
}

proof fn lemma_placed(cs: Seq<NcclOpView>, c: NcclOpView)
    requires
        in_report_order(cs),
    ensures
        in_report_order(placed(cs, c)),
        placed(cs, c).to_multiset() =~= cs.to_multiset().insert(c),
        placed(cs, c).len() == cs.len() + 1,
        forall|x: NcclOpView|
            #![trigger placed(cs, c).contains(x)]
            placed(cs, c).contains(x) ==> cs.contains(x) || x == c,
    decreases cs.len(),
{
    broadcast use vstd::seq_lib::group_to_multiset_ensures;

    let r = placed(cs, c);
    if cs.len() == 0 {
        assert(r =~= Seq::empty().push(c));
        assert(cs =~= Seq::empty());
    } else if not_after(cs.last().info, c.info) {
        assert forall|i: int| 0 <= i < cs.len() implies not_after((#[trigger] cs[i]).info, c.info) by {
            if i < cs.len() - 1 {
                assert(not_after(cs[i].info, cs[cs.len() - 1].info));
            }
        }
        assert forall|x: NcclOpView| #[trigger] r.contains(x) implies cs.contains(x) || x == c by {
            let i = choose|i: int| 0 <= i < r.len() && r[i] == x;
            if i < cs.len() {
                assert(cs[i] == x);
            }
        }
    } else {
        let front = cs.drop_last();
        lemma_placed(front, c);
        let q = placed(front, c);
        assert(cs =~= front.push(cs.last()));
        assert forall|i: int| 0 <= i < q.len() implies not_after((#[trigger] q[i]).info, cs.last().info) by {
            assert(q.contains(q[i]));
            if front.contains(q[i]) {
                let j = choose|j: int| 0 <= j < front.len() && front[j] == q[i];
                assert(not_after(cs[j].info, cs[cs.len() - 1].info));
            }
        }
        assert forall|x: NcclOpView| #[trigger] r.contains(x) implies cs.contains(x) || x == c by {
            let i = choose|i: int| 0 <= i < r.len() && r[i] == x;
            if i < q.len() {
                assert(q.contains(x));
                if front.contains(x) {
                    let j = choose|j: int| 0 <= j < front.len() && front[j] == x;
                    assert(cs[j] == x);
                }
            } else {
                assert(cs[cs.len() - 1] == x);
            }
        }
    }
}

/// A report lists the members of its group, each as often as it was there, the
/// earlier start first.
pub proof fn law_reports_are_sorted(cs: Seq<NcclOpView>)
    ensures
        in_report_order(ordered(cs)),
        ordered(cs).to_multiset() =~= cs.to_multiset(),
        ordered(cs).len() == cs.len(),
    decreases cs.len(),
{
    broadcast use vstd::seq_lib::group_to_multiset_ensures;

    if cs.len() > 0 {
        law_reports_are_sorted(cs.drop_last());
        lemma_placed(ordered(cs.drop_last()), cs.last());
        assert(cs =~= cs.drop_last().push(cs.last()));
    }
}

proof fn lemma_report_holds(gid: u64, cs: Seq<NcclOpView>, partial: bool, size: usize, op: NcclOpView)
    requires
        cs.contains(op),
    ensures
        group_report(gid, cs, partial, size).children.contains(op.ungrouped()),
{
    broadcast use vstd::seq_lib::group_to_multiset_ensures;

    law_reports_are_sorted(cs);
    assert(cs.to_multiset().contains(op));
    assert(ordered(cs).to_multiset().contains(op));
    assert(ordered(cs).contains(op));
    let i = choose|i: int| 0 <= i < ordered(cs).len() && ordered(cs)[i] == op;
    assert(all_ungrouped(ordered(cs))[i] == op.ungrouped());
}

// ----------------------------------------------------- every operation is told

/// Whether `pending` tells of `op`: in a record of its own, or as a member of
/// a group.
pub open spec fn tells(pending: Seq<TelemetryView>, op: NcclOpView) -> bool {
    exists|i: int|
        0 <= i < pending.len() && match #[trigger] pending[i] {
            TelemetryView::NcclOp(o) => o == op,
            TelemetryView::P2pParent(r) => r.children.contains(op.ungrouped()),
            _ => false,
        }
}

impl CtxView {
    /// Whether `op` left the operations in flight and waits for its group.
    pub open spec fn joined(self, op: NcclOpView) -> bool {
        op.info.parent_group_id matches Some(gid) && self.groups.contains_key(gid)
            && self.groups[gid].children.contains(op)
    }

    pub open spec fn accounts_for(self, op: NcclOpView) -> bool {
        tells(self.pending, op) || self.joined(op)
    }
}

proof fn lemma_tells_more(a: Seq<TelemetryView>, b: Seq<TelemetryView>, op: NcclOpView)
    requires
        tells(a, op),
        a.is_prefix_of(b),
    ensures
        tells(b, op),
{
    let i = choose|i: int|
        0 <= i < a.len() && match #[trigger] a[i] {
            TelemetryView::NcclOp(o) => o == op,
            TelemetryView::P2pParent(r) => r.children.contains(op.ungrouped()),
            _ => false,
        };
    assert(b[i] == a[i]);
}

proof fn lemma_tried_accounts(c: CtxView, gid: u64, force: bool, op: NcclOpView)
    requires
        c.accounts_for(op),
    ensures
        c.group_tried(gid, force).accounts_for(op),
        c.group_tried(gid, force).ncclops == c.ncclops,
        c.pending.is_prefix_of(c.group_tried(gid, force).pending),
{
    let d = c.group_tried(gid, force);
    assert(c.pending.is_prefix_of(d.pending));
    if tells(c.pending, op) {
        lemma_tells_more(c.pending, d.pending, op);
    } else if c.group_is_ready(gid, force) && op.info.parent_group_id == Some(gid) {
        let acc = c.groups[gid];
        lemma_report_holds(
            gid,
            acc.children,
            force && (acc.children.len() < acc.expected || !acc.ended),
            acc.self_copy_size,
            op,
        );
        assert(d.pending[d.pending.len() - 1] is P2pParent);
        assert(tells(d.pending, op));
    }
}

proof fn lemma_reclaimed_accounts(c: CtxView, op: NcclOpView, now: Instant, other: NcclOpView)
    requires
        c.accounts_for(other) || other == op,
    ensures
        c.reclaimed(op, now).accounts_for(other),
        c.reclaimed(op, now).ncclops == c.ncclops,
        c.groups.dom().finite() ==> c.reclaimed(op, now).groups.dom().finite(),
{
    let end = match op.info.end_time {
        Some(t) => t,
        None => now,
    };
    let closed = c.finished(op.info.id, end);
    let d = c.reclaimed(op, now);
    if tells(c.pending, other) {
        lemma_tells_more(c.pending, closed.pending, other);
    }
    if !op.info.spec_is_p2p() {
        assert(d.pending[d.pending.len() - 1] == TelemetryView::NcclOp(op));
        if tells(closed.pending, other) {
            lemma_tells_more(closed.pending, d.pending, other);
        }
    } else {
        match op.info.parent_group_id {
            Some(gid) => {
                let acc = closed.group(gid);
                let children = acc.children.push(op);
                let joined = CtxView {
                    groups: closed.groups.insert(
                        gid,
                        crate::polling_model::GroupAccView { children, ..acc },
                    ),
                    ..closed
                };
                assert(children[children.len() - 1] == op);
                if c.joined(other) && other.info.parent_group_id == Some(gid) {
                    let i = choose|i: int|
                        0 <= i < acc.children.len() && acc.children[i] == other;
                    assert(children[i] == other);
                }
                assert(joined.accounts_for(other));
                lemma_tried_accounts(joined, gid, false, other);
            },
            None => {
                assert(seq![op][0] == op);
                lemma_report_holds(0, seq![op], false, 0, op);
                assert(d.pending[d.pending.len() - 1] is P2pParent);
                if tells(closed.pending, other) {
                    lemma_tells_more(closed.pending, d.pending, other);
                }
            },
        }
    }
}

proof fn lemma_sweep_all(c: CtxView, keys: Seq<usize>, n: nat, now: Instant)
    requires
        keys.no_duplicates(),
        keys.to_set() == c.ncclops.dom(),
    ensures
        ({
            let d = c.swept_from(Map::empty(), keys, n, ReclaimPolicy::All, now);
            &&& d.ncclops =~= Map::empty()
            &&& c.groups.dom().finite() ==> d.groups.dom().finite()
            &&& forall|op: NcclOpView| #[trigger]
                c.accounts_for(op) ==> d.accounts_for(op)
            &&& forall|id: usize| #[trigger]
                c.ncclops.contains_key(id) ==> d.accounts_for(c.ncclops[id])
        }),
    decreases keys.len(),
{
    let d = c.swept_from(Map::empty(), keys, n, ReclaimPolicy::All, now);
    if keys.len() == 0 {
        assert(c.ncclops.dom() =~= Set::empty());
        assert forall|id: usize| c.ncclops.contains_key(id) implies false by {
            assert(c.ncclops.dom().contains(id));
        }
    } else {
        let k = keys[0];
        assert(keys.to_set().contains(k));
        let op = c.ncclops[k];
        let next = c.without_op(k).reclaimed(op, now);
        let rest = keys.drop_first();
        lemma_reclaimed_accounts(c.without_op(k), op, now, op);
        assert(next.ncclops == c.ncclops.remove(k));
        assert(rest.to_set() =~= next.ncclops.dom()) by {
            assert forall|x: usize| rest.contains(x) <==> next.ncclops.dom().contains(x) by {
                if rest.contains(x) {
                    let i = choose|i: int| 0 <= i < rest.len() && rest[i] == x;
                    assert(keys[i + 1] == x && keys[0] != x);
                    assert(keys.to_set().contains(x));
                }
                if next.ncclops.dom().contains(x) {
                    assert(keys.to_set().contains(x));
                    let i = choose|i: int| 0 <= i < keys.len() && keys[i] == x;
                    assert(rest[i - 1] == x);
                }
            }
        }
        lemma_sweep_all(next, rest, n + 1, now);
        assert(d == next.swept_from(Map::empty(), rest, n + 1, ReclaimPolicy::All, now));
        assert forall|x: NcclOpView| #[trigger] c.accounts_for(x) implies d.accounts_for(x) by {
            assert(c.without_op(k).accounts_for(x));
            lemma_reclaimed_accounts(c.without_op(k), op, now, x);
            assert(next.accounts_for(x));
        }
        assert forall|id: usize| #[trigger] c.ncclops.contains_key(id) implies d.accounts_for(
            c.ncclops[id],
        ) by {
            if id == k {
                assert(next.accounts_for(op));
            } else {
                assert(next.ncclops.contains_key(id));
            }
        }
    }
}

/// A sweep loses sight of no operation: one that it comes to or that is
/// accounted for is accounted for afterwards, or still in flight.
proof fn lemma_sweep_accounts(
    c: CtxView,
    kept: Map<usize, NcclOpView>,
    keys: Seq<usize>,
    n: nat,
    policy: ReclaimPolicy,
    now: Instant,
    id: usize,
    op: NcclOpView,
)
    requires
        keys.no_duplicates(),
        forall|i: int| 0 <= i < keys.len() ==> c.ncclops.contains_key(#[trigger] keys[i]),
        c.accounts_for(op) || kept.contains_key(id) || (c.ncclops.contains_key(id) && c.ncclops[id]
            == op),
    ensures
        ({
            let d = c.swept_from(kept, keys, n, policy, now);
            d.accounts_for(op) || d.ncclops.contains_key(id)
        }),
    decreases keys.len(),
{
    let d = c.swept_from(kept, keys, n, policy, now);
    if keys.len() == 0 {
        assert(d.accounts_for(op) == c.accounts_for(op));
    } else {
        let k = keys[0];
        let o = c.ncclops[k];
        let rest = keys.drop_first();
        assert(forall|i: int| 0 <= i < rest.len() ==> rest[i] == keys[i + 1]);
        let less = c.without_op(k);
        assert(less.accounts_for(op) == c.accounts_for(op));
        match policy.decision(o.info, n, now) {
            ReclaimAction::Keep => {
                lemma_sweep_accounts(less, kept.insert(k, o), rest, n + 1, policy, now, id, op);
            },
            ReclaimAction::Reclaim => {
                let next = less.reclaimed(o, now);
                lemma_reclaimed_accounts(less, o, now, o);
                if c.accounts_for(op) {
                    lemma_reclaimed_accounts(less, o, now, op);
                }
                lemma_sweep_accounts(next, kept, rest, n + 1, policy, now, id, op);
            },
            ReclaimAction::Stop => {
                assert(d.accounts_for(op) == c.accounts_for(op));
            },
        }
    }
}

/// Whatever makes a sweep give up an operation, its age or the limit or the end
/// of the daemon: it has been told, or waits for the report of its group.
pub proof fn law_sweeps_tell_what_they_give_up(
    c: CtxView,
    policy: ReclaimPolicy,
    now: Instant,
    id: usize,
)
    requires
        c.ncclops.dom().finite(),
        c.ncclops.contains_key(id),
        !c.swept(policy, now).ncclops.contains_key(id),
    ensures
        c.swept(policy, now).accounts_for(c.ncclops[id]),
{
    lemma_inflight_keys(c);
    lemma_sweep_accounts(
        c,
        Map::empty(),
        in_order(c.ncclops.dom()),
        0,
        policy,
        now,
        id,
        c.ncclops[id],
    );
}

proof fn lemma_flushed(c: CtxView, gids: Seq<u64>, op: NcclOpView)
    requires
        c.accounts_for(op),
    ensures
        c.groups_flushed(gids).accounts_for(op),
    decreases gids.len(),
{
    if gids.len() > 0 {
        lemma_flushed(c, gids.drop_last(), op);
        lemma_tried_accounts(c.groups_flushed(gids.drop_last()), gids.last(), true, op);
    }
}

/// When the daemon stops, nothing is in flight any more, no member waits for
/// its group, and every operation that was in flight or waited has been told.
pub proof fn law_closing_tells_every_operation(c: CtxView, now: Instant)
    requires
        c.ncclops.dom().finite(),
        c.groups.dom().finite(),
    ensures
        ({
            let d = c.closed(now);
            &&& d.ncclops == Map::<usize, NcclOpView>::empty()
            &&& forall|g: u64| #[trigger]
                d.groups.contains_key(g) ==> d.groups[g].children.len() == 0
            &&& forall|id: usize| #[trigger]
                c.ncclops.contains_key(id) ==> tells(d.pending, c.ncclops[id])
            &&& forall|op: NcclOpView| #[trigger] c.accounts_for(op) ==> tells(d.pending, op)
        }),
{
    lemma_inflight_keys(c);
    let keys = in_order(c.ncclops.dom());
    lemma_sweep_all(c, keys, 0, now);
    let e = c.swept(ReclaimPolicy::All, now);
    let gids = in_order(e.groups.dom());
    lemma_listing_exists(e.groups.dom());
    let d = c.closed(now);
    lemma_flush_shape(e, gids);
    assert forall|g: u64| #[trigger] d.groups.contains_key(g) implies d.groups[g].children.len()
        == 0 by {
        assert(gids.to_set().contains(g));
        let i = choose|i: int| 0 <= i < gids.len() && gids[i] == g;
        assert(gids[i] == g);
    }
    assert forall|op: NcclOpView| e.accounts_for(op) implies #[trigger] tells(d.pending, op) by {
        lemma_flushed(e, gids, op);
        if d.joined(op) {
            let g = op.info.parent_group_id->0;
            assert(d.groups[g].children.len() == 0);
        }
    }
    assert forall|id: usize| #[trigger] c.ncclops.contains_key(id) implies tells(
        d.pending,
        c.ncclops[id],
    ) by {
        assert(e.accounts_for(c.ncclops[id]));
    }
    assert forall|op: NcclOpView| #[trigger] c.accounts_for(op) implies tells(d.pending, op) by {
        assert(e.accounts_for(op));
    }
}

proof fn lemma_flush_shape(c: CtxView, gids: Seq<u64>)
    ensures
        ({
            let d = c.groups_flushed(gids);
            &&& d.ncclops == c.ncclops
            &&& forall|g: u64| #[trigger]
                d.groups.contains_key(g) ==> c.groups.contains_key(g) && d.groups[g] == c.groups[g]
            &&& forall|i: int|
                0 <= i < gids.len() && d.groups.contains_key(#[trigger] gids[i])
                    ==> d.groups[gids[i]].children.len() == 0
        }),
    decreases gids.len(),
{
    if gids.len() > 0 {
        let front = gids.drop_last();
        lemma_flush_shape(c, front);
        let d = c.groups_flushed(gids);
        assert forall|i: int|
            0 <= i < gids.len() && d.groups.contains_key(
                #[trigger] gids[i],
            ) implies d.groups[gids[i]].children.len() == 0 by {
            if i < gids.len() - 1 {
                assert(front[i] == gids[i]);
            }
        }
    }
}

// --------------------------------------------------------------------- limits

proof fn lemma_sweep_oldest(c: CtxView, keys: Seq<usize>, n: nat, most: usize, now: Instant)
    requires
        keys.no_duplicates(),
        forall|i: int| 0 <= i < keys.len() ==> c.ncclops.contains_key(#[trigger] keys[i]),
        c.ncclops.dom().finite(),
        n <= most,
    ensures
        ({
            let d = c.swept_from(Map::empty(), keys, n, ReclaimPolicy::Oldest { n: most }, now);
            let gone = if keys.len() <= most - n {
                keys.len() as int
            } else {
                most - n
            };
            &&& d.ncclops.dom().finite()
            &&& d.ncclops.len() == c.ncclops.len() - gone
            &&& forall|i: int|
                gone <= i < keys.len() ==> d.ncclops.contains_key(#[trigger] keys[i])
                    && d.ncclops[keys[i]] == c.ncclops[keys[i]]
            &&& forall|i: int| 0 <= i < gone ==> !d.ncclops.contains_key(#[trigger] keys[i])
            &&& forall|k: usize| #[trigger]
                d.ncclops.contains_key(k) ==> c.ncclops.contains_key(k)
        }),
    decreases keys.len(),
{
    let d = c.swept_from(Map::empty(), keys, n, ReclaimPolicy::Oldest { n: most }, now);
    if keys.len() == 0 || n == most {
        assert(d.ncclops =~= c.ncclops);
    } else {
        let k = keys[0];
        let next = c.without_op(k).reclaimed(c.ncclops[k], now);
        lemma_reclaimed_accounts(c.without_op(k), c.ncclops[k], now, c.ncclops[k]);
        let rest = keys.drop_first();
        assert(forall|i: int| 0 <= i < rest.len() ==> rest[i] == keys[i + 1]);
        lemma_sweep_oldest(next, rest, n + 1, most, now);
        assert(next.ncclops.dom() =~= c.ncclops.dom().remove(k));
        assert forall|i: int| 0 < i < keys.len() implies keys[i] == rest[i - 1] by {}
    }
}

/// A sweep that only ends by its list gives up or keeps each operation on its
/// own account: `op`, which no step decides to give up, stays.
proof fn lemma_sweep_keeps(
    c: CtxView,
    kept: Map<usize, NcclOpView>,
    keys: Seq<usize>,
    n: nat,
    policy: ReclaimPolicy,
    now: Instant,
    id: usize,
    op: NcclOpView,
)
    requires
        keys.no_duplicates(),
        forall|i: int|
            0 <= i < keys.len() ==> c.ncclops.contains_key(#[trigger] keys[i])
                && !kept.contains_key(keys[i]),
        (kept.contains_key(id) && kept[id] == op) || (c.ncclops.contains_key(id) && c.ncclops[id]
            == op && !kept.contains_key(id)),
        forall|j: nat| policy.decision(op.info, j, now) !is Reclaim,
    ensures
        ({
            let d = c.swept_from(kept, keys, n, policy, now);
            d.ncclops.contains_key(id) && d.ncclops[id] == op
        }),
    decreases keys.len(),
{
    if keys.len() > 0 {
        let k = keys[0];
        let o = c.ncclops[k];
        let rest = keys.drop_first();
        assert(forall|i: int| 0 <= i < rest.len() ==> rest[i] == keys[i + 1]);
        match policy.decision(o.info, n, now) {
            ReclaimAction::Keep => lemma_sweep_keeps(
                c.without_op(k),
                kept.insert(k, o),
                rest,
                n + 1,
                policy,
                now,
                id,
                op,
            ),
            ReclaimAction::Reclaim => {
                let next = c.without_op(k).reclaimed(o, now);
                lemma_reclaimed_accounts(c.without_op(k), o, now, o);
                lemma_sweep_keeps(next, kept, rest, n + 1, policy, now, id, op);
            },
            ReclaimAction::Stop => {},
        }
    }
}

/// An ordinary sweep leaves every operation alone that is not old enough.
pub proof fn law_young_operations_are_kept(c: CtxView, config: Config, now: Instant, id: usize)
    requires
        c.ncclops.dom().finite(),
        c.ncclops.contains_key(id),
        !is_aged(
            c.ncclops[id].info,
            config.ncclop_completion_delay,
            config.ncclop_timeout,
            now,
        ),
    ensures
        c.swept(aged_policy(config), now).ncclops.contains_key(id),
        c.swept(aged_policy(config), now).ncclops[id] == c.ncclops[id],
{
    lemma_inflight_keys(c);
    lemma_sweep_keeps(
        c,
        Map::empty(),
        in_order(c.ncclops.dom()),
        0,
        aged_policy(config),
        now,
        id,
        c.ncclops[id],
    );
}

proof fn lemma_sweep_drops(
    c: CtxView,
    kept: Map<usize, NcclOpView>,
    keys: Seq<usize>,
    n: nat,
    config: Config,
    now: Instant,
    i: int,
)
    requires
        keys.no_duplicates(),
        forall|j: int|
            0 <= j < keys.len() ==> c.ncclops.contains_key(#[trigger] keys[j])
                && !kept.contains_key(keys[j]),
        -1 <= i < keys.len(),
        i >= 0 ==> n + i <= NCCLOP_RECLAIM_BATCH && is_aged(
            c.ncclops[keys[i]].info,
            config.ncclop_completion_delay,
            config.ncclop_timeout,
            now,
        ),
    ensures
        i >= 0 ==> !c.swept_from(kept, keys, n, aged_policy(config), now).ncclops.contains_key(
            keys[i],
        ),
        forall|k: usize| #[trigger]
            c.swept_from(kept, keys, n, aged_policy(config), now).ncclops.contains_key(k)
                ==> c.ncclops.contains_key(k) || kept.contains_key(k),
    decreases keys.len(),
{
    if keys.len() > 0 {
        let policy = aged_policy(config);
        let k = keys[0];
        let o = c.ncclops[k];
        let rest = keys.drop_first();
        assert(forall|j: int| 0 <= j < rest.len() ==> rest[j] == keys[j + 1]);
        let next_i = if i >= 1 {
            i - 1
        } else {
            -1
        };
        let d = c.swept_from(kept, keys, n, policy, now);
        match policy.decision(o.info, n, now) {
            ReclaimAction::Keep => {
                let next = c.without_op(k);
                assert(next.ncclops == c.ncclops.remove(k));
                assert(d == next.swept_from(kept.insert(k, o), rest, n + 1, policy, now));
                lemma_sweep_drops(
                    c.without_op(k),
                    kept.insert(k, o),
                    rest,
                    n + 1,
                    config,
                    now,
                    next_i,
                );
            },
            ReclaimAction::Reclaim => {
                let next = c.without_op(k).reclaimed(o, now);
                lemma_reclaimed_accounts(c.without_op(k), o, now, o);
                assert(next.ncclops == c.ncclops.remove(k));
                assert(d == next.swept_from(kept, rest, n + 1, policy, now));
                lemma_sweep_drops(next, kept, rest, n + 1, config, now, next_i);
            },
            ReclaimAction::Stop => {
                assert(d.ncclops == c.ncclops.union_prefer_right(kept));
            },
        }
    }
}

/// An ordinary sweep gives up every operation that is old enough, as far as it
/// comes: it looks at one operation more than its batch.
pub proof fn law_aged_operations_are_given_up(c: CtxView, config: Config, now: Instant, i: int)
    requires
        c.ncclops.dom().finite(),
        0 <= i < in_order(c.ncclops.dom()).len(),
        i <= NCCLOP_RECLAIM_BATCH,
        is_aged(
            c.ncclops[in_order(c.ncclops.dom())[i]].info,
            config.ncclop_completion_delay,
            config.ncclop_timeout,
            now,
        ),
    ensures
        !c.swept(aged_policy(config), now).ncclops.contains_key(in_order(c.ncclops.dom())[i]),
{
    lemma_inflight_keys(c);
    lemma_sweep_drops(c, Map::empty(), in_order(c.ncclops.dom()), 0, config, now, i);
}

/// After each pass no more operations are in flight than the settings allow.
pub proof fn law_tracking_is_bounded(c: CtxView, config: Config, now: Instant)
    requires
        c.ncclops.dom().finite(),
        c.ncclops.len() <= usize::MAX,
    ensures
        c.trimmed(config, now).ncclops.len() <= config.max_tracked_ncclop,
{
    let d = c.swept(aged_policy(config), now);
    lemma_inflight_keys(c);
    lemma_sweep_drops(c, Map::empty(), in_order(c.ncclops.dom()), 0, config, now, -1);
    assert(d.ncclops.dom().subset_of(c.ncclops.dom())) by {
        assert forall|k: usize| d.ncclops.dom().contains(k) implies c.ncclops.dom().contains(k) by {
            assert(d.ncclops.contains_key(k));
        }
    }
    vstd::set_lib::lemma_len_subset(d.ncclops.dom(), c.ncclops.dom());
    if d.ncclops.len() > config.max_tracked_ncclop {
        lemma_inflight_keys(d);
        lemma_sweep_oldest(
            d,
            in_order(d.ncclops.dom()),
            0,
            (d.ncclops.len() - config.max_tracked_ncclop) as usize,
            now,
        );
    }
}

// ----------------------------------------------- what the end of a pass gives up

/// What the end of a pass leaves was in flight before. Where no more operations
/// were in flight than the settings allow, it is what an ordinary sweep leaves.
proof fn lemma_trimmed_shape(c: CtxView, config: Config, now: Instant)
    requires
        c.ncclops.dom().finite(),
        c.ncclops.len() <= usize::MAX,
    ensures
        ({
            let d = c.swept(aged_policy(config), now);
            &&& d.ncclops.dom().finite()
            &&& d.ncclops.len() <= c.ncclops.len()
            &&& c.ncclops.len() <= config.max_tracked_ncclop ==> c.trimmed(config, now) == d
            &&& forall|k: usize| #[trigger]
                c.trimmed(config, now).ncclops.contains_key(k) ==> d.ncclops.contains_key(k)
        }),
{
    let d = c.swept(aged_policy(config), now);
    lemma_inflight_keys(c);
    lemma_sweep_drops(c, Map::empty(), in_order(c.ncclops.dom()), 0, config, now, -1);
    assert(d.ncclops.dom().subset_of(c.ncclops.dom())) by {
        assert forall|k: usize| d.ncclops.dom().contains(k) implies c.ncclops.dom().contains(k) by {
            assert(d.ncclops.contains_key(k));
        }
    }
    vstd::set_lib::lemma_len_subset(d.ncclops.dom(), c.ncclops.dom());
    if d.ncclops.len() > config.max_tracked_ncclop {
        lemma_inflight_keys(d);
        lemma_sweep_oldest(
            d,
            in_order(d.ncclops.dom()),
            0,
            (d.ncclops.len() - config.max_tracked_ncclop) as usize,
            now,
        );
    }
}

/// An operation that started no longer ago than the timeout, and has not ended
/// or ended no longer ago than the completion delay, stays in flight as it is, so
/// that late events still find it; unless too many are in flight.
pub proof fn law_recent_operations_stay_in_flight(
    c: CtxView,
    config: Config,
    now: Instant,
    id: usize,
)
    requires
        c.ncclops.dom().finite(),
        c.ncclops.contains_key(id),
        c.ncclops.len() <= config.max_tracked_ncclop,
        now - c.ncclops[id].info.start_time <= config.ncclop_timeout,
        c.ncclops[id].info.end_time matches Some(e) ==> now - e <= config.ncclop_completion_delay,
    ensures
        c.trimmed(config, now).ncclops.contains_key(id),
        c.trimmed(config, now).ncclops[id] == c.ncclops[id],
{
    lemma_trimmed_shape(c, config, now);
    law_young_operations_are_kept(c, config, now, id);
}

/// An operation that ended longer ago than the completion delay leaves, whenever
/// it started; the first operations in flight are looked at, one beyond the
/// batch of 512.
pub proof fn law_ended_operations_leave(c: CtxView, config: Config, now: Instant, i: int)
    requires
        c.ncclops.dom().finite(),
        c.ncclops.len() <= usize::MAX,
        0 <= i < in_order(c.ncclops.dom()).len(),
        i <= 512,
        ({
            let op = c.ncclops[in_order(c.ncclops.dom())[i]].info;
            op.end_time matches Some(e) && now - e > config.ncclop_completion_delay
        }),
    ensures
        !c.trimmed(config, now).ncclops.contains_key(in_order(c.ncclops.dom())[i]),
{
    lemma_trimmed_shape(c, config, now);
    law_aged_operations_are_given_up(c, config, now, i);
}

/// So does an operation that started longer ago than the timeout, whether it
/// ended or not.
pub proof fn law_overdue_operations_leave(c: CtxView, config: Config, now: Instant, i: int)
    requires
        c.ncclops.dom().finite(),
        c.ncclops.len() <= usize::MAX,
        0 <= i < in_order(c.ncclops.dom()).len(),
        i <= 512,
        now - c.ncclops[in_order(c.ncclops.dom())[i]].info.start_time > config.ncclop_timeout,
    ensures
        !c.trimmed(config, now).ncclops.contains_key(in_order(c.ncclops.dom())[i]),
{
    lemma_trimmed_shape(c, config, now);
    law_aged_operations_are_given_up(c, config, now, i);
}

/// Beyond the batch an operation stays, however old it is, unless too many are
/// in flight.
pub proof fn law_one_pass_looks_at_a_batch(c: CtxView, config: Config, now: Instant, i: int)
    requires
        c.ncclops.dom().finite(),
        c.ncclops.len() <= config.max_tracked_ncclop,
        512 < i < in_order(c.ncclops.dom()).len(),
    ensures
        c.trimmed(config, now).ncclops.contains_key(in_order(c.ncclops.dom())[i]),
{
    lemma_trimmed_shape(c, config, now);
    lemma_inflight_keys(c);
    lemma_sweep_stops(c, Map::empty(), in_order(c.ncclops.dom()), 0, config, now, i);
}

proof fn lemma_sweep_stops(
    c: CtxView,
    kept: Map<usize, NcclOpView>,
    keys: Seq<usize>,
    n: nat,
    config: Config,
    now: Instant,
    i: int,
)
    requires
        keys.no_duplicates(),
        forall|j: int|
            0 <= j < keys.len() ==> c.ncclops.contains_key(#[trigger] keys[j])
                && !kept.contains_key(keys[j]),
        0 <= i < keys.len(),
        n + i > 512,
    ensures
        c.swept_from(kept, keys, n, aged_policy(config), now).ncclops.contains_key(keys[i]),
    decreases keys.len(),
{
    let policy = aged_policy(config);
    let k = keys[0];
    let o = c.ncclops[k];
    let rest = keys.drop_first();
    assert(forall|j: int| 0 <= j < rest.len() ==> rest[j] == keys[j + 1]);
    let d = c.swept_from(kept, keys, n, policy, now);
    match policy.decision(o.info, n, now) {
        ReclaimAction::Keep => {
            assert(d == c.without_op(k).swept_from(kept.insert(k, o), rest, n + 1, policy, now));
            if i > 0 {
                lemma_sweep_stops(
                    c.without_op(k),
                    kept.insert(k, o),
                    rest,
                    n + 1,
                    config,
                    now,
                    i - 1,
                );
            }
        },
        ReclaimAction::Reclaim => {
            let next = c.without_op(k).reclaimed(o, now);
            lemma_reclaimed_accounts(c.without_op(k), o, now, o);
            assert(next.ncclops == c.ncclops.remove(k));
            assert(d == next.swept_from(kept, rest, n + 1, policy, now));
            if i > 0 {
                lemma_sweep_stops(next, kept, rest, n + 1, config, now, i - 1);
            }
        },
        ReclaimAction::Stop => {
            assert(d.ncclops == c.ncclops.union_prefer_right(kept));
        },
    }
}

/// Where too many operations are in flight, though none is old, those that were
/// announced first leave, and just as many as are too many.
pub proof fn law_the_first_leave_when_there_are_too_many(
    c: CtxView,
    config: Config,
    now: Instant,
    i: int,
)
    requires
        c.ncclops.dom().finite(),
        config.max_tracked_ncclop < c.ncclops.len() <= usize::MAX,
        forall|id: usize| #[trigger]
            c.ncclops.contains_key(id) ==> now - c.ncclops[id].info.start_time
                <= config.ncclop_timeout && (c.ncclops[id].info.end_time matches Some(e) ==> now - e
                <= config.ncclop_completion_delay),
        0 <= i < in_order(c.ncclops.dom()).len(),
    ensures
        c.trimmed(config, now).ncclops.contains_key(in_order(c.ncclops.dom())[i]) <==> i
            >= c.ncclops.len() - config.max_tracked_ncclop,
{
    let d = c.swept(aged_policy(config), now);
    lemma_trimmed_shape(c, config, now);
    lemma_inflight_keys(c);
    assert forall|id: usize| #[trigger] c.ncclops.contains_key(id) implies d.ncclops.contains_key(
        id,
    ) && d.ncclops[id] == c.ncclops[id] by {
        law_young_operations_are_kept(c, config, now, id);
    }
    lemma_sweep_drops(c, Map::empty(), in_order(c.ncclops.dom()), 0, config, now, -1);
    assert(d.ncclops.dom() =~= c.ncclops.dom()) by {
        assert forall|k: usize| d.ncclops.dom().contains(k) <==> c.ncclops.dom().contains(k) by {
            if d.ncclops.dom().contains(k) {
                assert(d.ncclops.contains_key(k));
            }
            if c.ncclops.dom().contains(k) {
                assert(c.ncclops.contains_key(k));
            }
        }
    }
    lemma_inflight_keys(d);
    lemma_sweep_oldest(
        d,
        in_order(d.ncclops.dom()),
        0,
        (d.ncclops.len() - config.max_tracked_ncclop) as usize,
        now,
    );
}

} // verus!
