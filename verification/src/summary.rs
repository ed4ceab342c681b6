//! Counts of the operations so far, and the communicators that are open.
use crate::clock::Duration;
use crate::daemon::{Telemetry, TelemetryView};
use crate::event::{NcclOp, NcclOpView, OpInfo};
use crate::key_order::{in_order, keys_in_order, lemma_listing_exists};
use crate::nccl_metadata::{Algo, CollOpType, NcclOpKey, OpDescr};
use crate::profiler::Communicator;
use crate::views::{group_views, view_map, view_seq};
use std::collections::BTreeMap;
use std::sync::atomic::AtomicUsize;
use std::sync::Arc;
use vstd::prelude::*;

verus! {

// -------------------------------------------------------------------- counters

/// `n + 1`, or the largest number that can be held.
pub open spec fn one_more(n: u64) -> u64 {
    if n < u64::MAX {
        (n + 1) as u64
    } else {
        u64::MAX
    }
}

/// How often `k` was counted in `m`.
pub open spec fn count_of<K>(m: Map<K, u64>, k: K) -> u64 {
    if m.contains_key(k) {
        m[k]
    } else {
        0
    }
}

/// `m` after `k` was counted once more.
pub open spec fn counted<K>(m: Map<K, u64>, k: K) -> Map<K, u64> {
    m.insert(k, one_more(count_of(m, k)))
}

/// How often each value was seen.
pub struct Histogram1D {
    pub counts: BTreeMap<u64, u64>,
}

impl View for Histogram1D {
    type V = Map<u64, u64>;

    open spec fn view(&self) -> Map<u64, u64> {
        self.counts@
    }
}

impl Histogram1D {
    pub fn new() -> (r: Histogram1D)
        ensures
            r@ == Map::<u64, u64>::empty(),
    {
        Histogram1D { counts: BTreeMap::new() }
    }

    pub fn count(&mut self, value: u64)
        ensures
            final(self)@ == counted(old(self)@, value),
    {
        let n: u64 = match self.counts.remove(&value) {
            Some(n) => n,
            None => 0,
        };
        self.counts.insert(value, n.saturating_add(1));
        assert(self@ =~= counted(old(self)@, value));
    }
}

/// How often each pair of values was seen.
pub struct Histogram2D {
    pub counts: BTreeMap<(u64, u64), u64>,
}

impl View for Histogram2D {
    type V = Map<(u64, u64), u64>;

    open spec fn view(&self) -> Map<(u64, u64), u64> {
        self.counts@
    }
}

impl Histogram2D {
    pub fn new() -> (r: Histogram2D)
        ensures
            r@ == Map::<(u64, u64), u64>::empty(),
    {
        Histogram2D { counts: BTreeMap::new() }
    }

    pub fn count(&mut self, value: (u64, u64))
        ensures
            final(self)@ == counted(old(self)@, value),
    {
        let n: u64 = match self.counts.remove(&value) {
            Some(n) => n,
            None => 0,
        };
        self.counts.insert(value, n.saturating_add(1));
        assert(self@ =~= counted(old(self)@, value));
    }
}

/// What was counted of like operations.
pub struct OpTally {
    pub key: NcclOpKey,
    /// By size in bytes.
    pub sizes: Histogram1D,
    /// By size in bytes and duration in nanoseconds.
    pub latencies: Histogram2D,
}

#[verifier::ext_equal]
pub struct TallyView {
    pub key: NcclOpKey,
    pub sizes: Map<u64, u64>,
    pub latencies: Map<(u64, u64), u64>,
}

impl View for OpTally {
    type V = TallyView;

    open spec fn view(&self) -> TallyView {
        TallyView { key: self.key, sizes: self.sizes@, latencies: self.latencies@ }
    }
}

impl TallyView {
    pub open spec fn fresh(key: NcclOpKey) -> TallyView {
        TallyView { key, sizes: Map::empty(), latencies: Map::empty() }
    }

    /// One more operation of `size` bytes, which took `took` where its
    /// duration is known.
    pub open spec fn with_op(self, size: u64, took: Option<Duration>) -> TallyView {
        TallyView {
            sizes: counted(self.sizes, size),
            latencies: match took {
                Some(d) => counted(self.latencies, (size, d as u64)),
                None => self.latencies,
            },
            ..self
        }
    }
}

/// Where `key` stands in `ts`; behind the end where it does not.
pub open spec fn tally_at(ts: Seq<TallyView>, key: NcclOpKey) -> nat
    decreases ts.len(),
{
    if ts.len() == 0 || ts[0].key == key {
        0
    } else {
        1 + tally_at(ts.skip(1), key)
    }
}

/// `ts` with one more operation. New keys go to the end.
pub open spec fn tallied(ts: Seq<TallyView>, op: OpInfo) -> Seq<TallyView> {
    let key = op.spec_op_key();
    let i = tally_at(ts, key) as int;
    let size = op.byte_count as u64;
    let took = op.spec_child_duration();
    if i < ts.len() {
        ts.update(i, ts[i].with_op(size, took))
    } else {
        ts.push(TallyView::fresh(key).with_op(size, took))
    }
}

pub open spec fn all_tallied(ts: Seq<TallyView>, ops: Seq<NcclOpView>) -> Seq<TallyView>
    decreases ops.len(),
{
    if ops.len() == 0 {
        ts
    } else {
        tallied(all_tallied(ts, ops.drop_last()), ops.last().info)
    }
}

/// How often an operation of `size` bytes was counted under `key`.
pub open spec fn times(ts: Seq<TallyView>, key: NcclOpKey, size: u64) -> u64 {
    let i = tally_at(ts, key) as int;
    if i < ts.len() {
        count_of(ts[i].sizes, size)
    } else {
        0
    }
}

pub(crate) proof fn lemma_tally_at(ts: Seq<TallyView>, key: NcclOpKey)
    ensures
        tally_at(ts, key) <= ts.len(),
        tally_at(ts, key) < ts.len() ==> ts[tally_at(ts, key) as int].key == key,
    decreases ts.len(),
{
    if ts.len() > 0 && ts[0].key != key {
        lemma_tally_at(ts.skip(1), key);
    }
}

pub(crate) proof fn lemma_tally_at_update(ts: Seq<TallyView>, i: int, t: TallyView, key: NcclOpKey)
    requires
        0 <= i < ts.len(),
        t.key == ts[i].key,
    ensures
        tally_at(ts.update(i, t), key) == tally_at(ts, key),
    decreases ts.len(),
{
    let us = ts.update(i, t);
    if ts[0].key != key {
        if i == 0 {
            assert(us.skip(1) =~= ts.skip(1));
        } else {
            assert(us.skip(1) =~= ts.skip(1).update(i - 1, t));
            lemma_tally_at_update(ts.skip(1), i - 1, t, key);
        }
    }
}

pub(crate) proof fn lemma_tally_at_push(ts: Seq<TallyView>, t: TallyView, key: NcclOpKey)
    ensures
        tally_at(ts.push(t), key) == (if tally_at(ts, key) < ts.len() || t.key == key {
            tally_at(ts, key)
        } else {
            tally_at(ts, key) + 1
        }),
    decreases ts.len(),
{
    let us = ts.push(t);
    lemma_tally_at(ts, key);
    if ts.len() == 0 {
        assert(us.skip(1) =~= ts);
    } else if ts[0].key != key {
        assert(us.skip(1) =~= ts.skip(1).push(t));
        lemma_tally_at_push(ts.skip(1), t, key);
        lemma_tally_at(ts.skip(1), key);
    }
}

/// An operation counts once, under its own key and size, and nowhere else.
pub proof fn law_operations_count_once(
    ts: Seq<TallyView>,
    op: OpInfo,
    key: NcclOpKey,
    size: u64,
)
    ensures
        times(tallied(ts, op), key, size) == (if key == op.spec_op_key() && size
            == op.byte_count as u64 {
            one_more(times(ts, key, size))
        } else {
            times(ts, key, size)
        }),
{
    let own = op.spec_op_key();
    let i = tally_at(ts, own) as int;
    lemma_tally_at(ts, own);
    lemma_tally_at(ts, key);
    if i < ts.len() {
        let t = ts[i].with_op(op.byte_count as u64, op.spec_child_duration());
        lemma_tally_at_update(ts, i, t, key);
    } else {
        let t = TallyView::fresh(own).with_op(op.byte_count as u64, op.spec_child_duration());
        lemma_tally_at_push(ts, t, key);
    }
}

// --------------------------------------------------------------- communicators

/// What is known of one kind of collective on a communicator.
#[derive(Clone, Copy, Debug, PartialEq, Eq, Structural)]
pub struct CollLast {
    pub op_type: CollOpType,
    pub seq_num: u64,
    pub algo: Algo,
    pub op_size: u64,
}

/// A communicator that is open.
pub struct ActiveComm {
    pub rank: Option<i32>,
    /// The last collective of each kind, kinds in the order of their first.
    pub colls: Vec<CollLast>,
    /// Bytes that the communicator put on the network so far.
    pub total_net_bytes: Option<Arc<AtomicUsize>>,
}

#[verifier::ext_equal]
pub struct ActiveView {
    pub rank: Option<i32>,
    pub colls: Seq<CollLast>,
    pub total_net_bytes: Option<Arc<AtomicUsize>>,
}

impl View for ActiveComm {
    type V = ActiveView;

    open spec fn view(&self) -> ActiveView {
        ActiveView {
            rank: self.rank,
            colls: self.colls@,
            total_net_bytes: self.total_net_bytes,
        }
    }
}

impl ActiveView {
    pub open spec fn fresh() -> ActiveView {
        ActiveView { rank: None, colls: Seq::empty(), total_net_bytes: None }
    }

    /// A collective was issued.
    pub open spec fn with_coll(self, rank: i32, last: CollLast) -> ActiveView {
        let i = coll_at(self.colls, last.op_type) as int;
        ActiveView {
            rank: Some(rank),
            colls: if i < self.colls.len() {
                self.colls.update(i, last)
            } else {
                self.colls.push(last)
            },
            ..self
        }
    }

    /// The communicator brought a counter. The first one stays.
    pub open spec fn with_counter(self, counter: Arc<AtomicUsize>) -> ActiveView {
        ActiveView {
            total_net_bytes: match self.total_net_bytes {
                Some(c) => Some(c),
                None => Some(counter),
            },
            ..self
        }
    }
}

/// Where the collective of type `t` stands in `cs`; behind the end where it
/// does not.
pub open spec fn coll_at(cs: Seq<CollLast>, t: CollOpType) -> nat
    decreases cs.len(),
{
    if cs.len() == 0 || cs[0].op_type == t {
        0
    } else {
        1 + coll_at(cs.skip(1), t)
    }
}

/// A communicator that was closed.
#[derive(Clone, Copy, Debug, PartialEq, Eq, Structural)]
pub struct ClosedComm {
    pub comm_hash: u64,
    pub rank: Option<i32>,
    /// Nanoseconds since the Unix epoch.
    pub close_time: u128,
}

/// What the exporter counted so far.
pub struct CollectiveSummary {
    pub tallies: Vec<OpTally>,
    pub active_comm: BTreeMap<u64, ActiveComm>,
    /// Communicators that were closed since the last heartbeat.
    pub closed_comm: BTreeMap<u64, ClosedComm>,
}

#[verifier::ext_equal]
pub struct SummaryView {
    pub tallies: Seq<TallyView>,
    pub active: Map<u64, ActiveView>,
    pub closed: Map<u64, ClosedComm>,
}

impl View for CollectiveSummary {
    type V = SummaryView;

    open spec fn view(&self) -> SummaryView {
        SummaryView {
            tallies: view_seq(self.tallies@),
            active: view_map(self.active_comm@),
            closed: self.closed_comm@,
        }
    }
}

impl SummaryView {
    pub open spec fn fresh() -> SummaryView {
        SummaryView { tallies: Seq::empty(), active: Map::empty(), closed: Map::empty() }
    }

    pub open spec fn comm(self, hash: u64) -> ActiveView {
        if self.active.contains_key(hash) {
            self.active[hash]
        } else {
            ActiveView::fresh()
        }
    }

    /// An operation was issued. Only collectives are noted.
    pub open spec fn after_issue(self, op: OpInfo) -> SummaryView {
        match op.descr {
            OpDescr::Coll(c) => SummaryView {
                active: self.active.insert(
                    op.comm_hash,
                    self.comm(op.comm_hash).with_coll(
                        op.rank as i32,
                        CollLast {
                            op_type: c.op_type,
                            seq_num: c.seq_num,
                            algo: c.algo,
                            op_size: op.byte_count as u64,
                        },
                    ),
                ),
                ..self
            },
            OpDescr::P2p(_) => self,
        }
    }

    /// A communicator was opened. One without a hash is not noted.
    pub open spec fn after_open(self, comm: Communicator) -> SummaryView {
        match comm.comm_hash {
            Some(hash) => SummaryView {
                active: self.active.insert(
                    hash,
                    self.comm(hash).with_counter(comm.total_net_bytes),
                ),
                ..self
            },
            None => self,
        }
    }

    /// A communicator was closed. One that was not open is not noted.
    pub open spec fn after_close(self, hash: u64, now: u128) -> SummaryView {
        if self.active.contains_key(hash) {
            SummaryView {
                active: self.active.remove(hash),
                closed: self.closed.insert(
                    hash,
                    ClosedComm {
                        comm_hash: hash,
                        rank: self.active[hash].rank,
                        close_time: now,
                    },
                ),
                ..self
            }
        } else {
            self
        }
    }

    /// The summary after a record reached the exporter.
    pub open spec fn after_record(self, t: TelemetryView, now: u128) -> SummaryView {
        match t {
            TelemetryView::NcclOp(op) => SummaryView {
                tallies: tallied(self.tallies, op.info),
                ..self
            },
            TelemetryView::P2pParent(p) => SummaryView {
                tallies: all_tallied(self.tallies, p.children),
                ..self
            },
            TelemetryView::NcclOpIssued(op) => self.after_issue(op.info),
            TelemetryView::CommOpen(comm) => self.after_open(comm),
            TelemetryView::CommClose(hash) => self.after_close(hash, now),
            _ => self,
        }
    }
}

impl ActiveComm {
    fn fresh() -> (r: ActiveComm)
        ensures
            r@ == ActiveView::fresh(),
    {
        let r = ActiveComm { rank: None, colls: Vec::new(), total_net_bytes: None };
        assert(r@ =~= ActiveView::fresh());
        r
    }

    fn note_coll(&mut self, rank: i32, last: CollLast)
        ensures
            final(self)@ == old(self)@.with_coll(rank, last),
    {
        let mut i: usize = 0;
        let ghost cs = self.colls@;
        assert(cs.skip(0) =~= cs);
        while i < self.colls.len() && self.colls[i].op_type != last.op_type
            invariant
                i <= cs.len(),
                self.colls@ == cs,
                *self == *old(self),
                coll_at(cs, last.op_type) == i + coll_at(cs.skip(i as int), last.op_type),
            decreases cs.len() - i,
        {
            assert(cs.skip(i as int).skip(1) =~= cs.skip(i + 1));
            i += 1;
        }
        self.rank = Some(rank);
        if i < self.colls.len() {
            self.colls.set(i, last);
        } else {
            self.colls.push(last);
        }
        assert(self@ =~= old(self)@.with_coll(rank, last));
    }
}

impl CollectiveSummary {
    pub fn new() -> (r: CollectiveSummary)
        ensures
            r@ == SummaryView::fresh(),
    {
        broadcast use group_views;

        let r = CollectiveSummary {
            tallies: Vec::new(),
            active_comm: BTreeMap::new(),
            closed_comm: BTreeMap::new(),
        };
        assert(r@ =~= SummaryView::fresh());
        r
    }

    pub fn record_op_issue(&mut self, op: &NcclOp)
        ensures
            final(self)@ == old(self)@.after_issue(op@.info),
    {
        broadcast use group_views;

        match op.info.descr {
            OpDescr::Coll(c) => {
                let hash: u64 = op.info.comm_hash;
                let mut comm: ActiveComm = match self.active_comm.remove(&hash) {
                    Some(comm) => comm,
                    None => ActiveComm::fresh(),
                };
                assert(comm@ == old(self)@.comm(hash));
                comm.note_coll(
                    op.info.rank as i32,
                    CollLast {
                        op_type: c.op_type,
                        seq_num: c.seq_num,
                        algo: c.algo,
                        op_size: op.info.byte_count as u64,
                    },
                );
                self.active_comm.insert(hash, comm);
            },
            OpDescr::P2p(_) => {},
        }
        assert(self@ =~= old(self)@.after_issue(op@.info));
    }

    pub fn record_comm_open(&mut self, comm: &Communicator)
        ensures
            final(self)@ == old(self)@.after_open(*comm),
    {
        broadcast use group_views;

        match comm.comm_hash {
            Some(hash) => {
                let mut active: ActiveComm = match self.active_comm.remove(&hash) {
                    Some(active) => active,
                    None => ActiveComm::fresh(),
                };
                assert(active@ == old(self)@.comm(hash));
                let ghost before = active@;
                if active.total_net_bytes.is_none() {
                    active.total_net_bytes = Some(comm.total_net_bytes.clone());
                }
                assert(active@ =~= before.with_counter(comm.total_net_bytes));
                self.active_comm.insert(hash, active);
            },
            None => {},
        }
        assert(self@ =~= old(self)@.after_open(*comm));
    }

    pub fn record_comm_close(&mut self, hash: u64, now: u128)
        ensures
            final(self)@ == old(self)@.after_close(hash, now),
    {
        broadcast use group_views;

        match self.active_comm.remove(&hash) {
            Some(active) => {
                assert(active@ == old(self)@.active[hash]);
                self.closed_comm.insert(
                    hash,
                    ClosedComm { comm_hash: hash, rank: active.rank, close_time: now },
                );
            },
            None => {},
        }
        assert(self@ =~= old(self)@.after_close(hash, now));
    }

    /// Counts an operation that is done.
    pub fn add_op(&mut self, op: &NcclOp)
        ensures
            final(self)@ == (SummaryView {
                tallies: tallied(old(self)@.tallies, op@.info),
                ..old(self)@
            }),
    {
        broadcast use group_views;

        let key: NcclOpKey = op.info.op_key();
        let size: u64 = op.info.byte_count as u64;
        let took: Option<Duration> = op.info.child_duration();
        let ghost ts = self@.tallies;
        let mut i: usize = 0;
        assert(ts.skip(0) =~= ts);
        while i < self.tallies.len() && self.tallies[i].key != key
            invariant
                i <= ts.len(),
                view_seq(self.tallies@) == ts,
                *self == *old(self),
                tally_at(ts, key) == i + tally_at(ts.skip(i as int), key),
            decreases ts.len() - i,
        {
            assert(ts.skip(i as int)[0].key == self.tallies@[i as int].key);
            assert(ts.skip(i as int).skip(1) =~= ts.skip(i + 1));
            i += 1;
        }
        if i < self.tallies.len() {
            assert(ts.skip(i as int)[0].key == self.tallies@[i as int].key);
            let ghost earlier = self.tallies@;
            self.tallies[i].add(size, took);
            assert(self.tallies@ == earlier.update(i as int, self.tallies@[i as int]));
        } else {
            let mut tally = OpTally {
                key,
                sizes: Histogram1D::new(),
                latencies: Histogram2D::new(),
            };
            assert(tally@ =~= TallyView::fresh(key));
            tally.add(size, took);
            self.tallies.push(tally);
        }
        assert(self@.tallies =~= tallied(ts, op@.info));
    }

    /// Notes a record.
    pub fn record(&mut self, t: &Telemetry, now: u128)
        ensures
            final(self)@ == old(self)@.after_record(t@, now),
    {
        match t {
            Telemetry::NcclOp(op) => self.add_op(op),
            Telemetry::P2pParent(p) => {
                let ghost first = self@;
                let ghost ops = view_seq(p.children@);
                let mut i: usize = 0;
                assert(ops.take(0) =~= Seq::<NcclOpView>::empty());
                while i < p.children.len()
                    invariant
                        i <= p.children@.len(),
                        ops == view_seq(p.children@),
                        self@ == (SummaryView {
                            tallies: all_tallied(first.tallies, ops.take(i as int)),
                            ..first
                        }),
                    decreases p.children@.len() - i,
                {
                    self.add_op(&p.children[i]);
                    assert(ops.take(i + 1).drop_last() =~= ops.take(i as int));
                    assert(ops.take(i + 1).last() == p.children@[i as int]@);
                    i += 1;
                }
                assert(ops.take(i as int) =~= ops);
            },
            Telemetry::NcclOpIssued(op) => self.record_op_issue(op),
            Telemetry::CommOpen(comm) => self.record_comm_open(comm),
            Telemetry::CommClose(hash) => self.record_comm_close(*hash, now),
            _ => {},
        }
    }
}

impl OpTally {
    fn add(&mut self, size: u64, took: Option<Duration>)
        ensures
            final(self)@ == old(self)@.with_op(size, took),
    {
        self.sizes.count(size);
        match took {
            Some(d) => self.latencies.count((size, d as u64)),
            None => {},
        }
        assert(self@ =~= old(self)@.with_op(size, took));
    }
}

// ------------------------------------------------------------------- heartbeat

/// What a heartbeat says of an open communicator.
pub struct ActiveReport {
    pub comm_hash: u64,
    pub rank: Option<i32>,
    pub colls: Vec<CollLast>,
    /// Bytes that it put on the network so far, where they are counted.
    pub net_bytes: Option<u64>,
}

#[verifier::ext_equal]
pub struct ActiveReportView {
    pub comm_hash: u64,
    pub rank: Option<i32>,
    pub colls: Seq<CollLast>,
    pub net_bytes: Option<u64>,
}

impl View for ActiveReport {
    type V = ActiveReportView;

    open spec fn view(&self) -> ActiveReportView {
        ActiveReportView {
            comm_hash: self.comm_hash,
            rank: self.rank,
            colls: self.colls@,
            net_bytes: self.net_bytes,
        }
    }
}

/// A sign of life: the communicators that are open, and those that were closed
/// since the last one.
pub struct Heartbeat {
    pub active_comm: Vec<ActiveReport>,
    pub closed_comm: Vec<ClosedComm>,
    pub remote_comm_bytes: Option<u64>,
}

#[verifier::ext_equal]
pub struct HeartbeatView {
    pub active: Seq<ActiveReportView>,
    pub closed: Seq<ClosedComm>,
    pub remote_comm_bytes: Option<u64>,
}

impl View for Heartbeat {
    type V = HeartbeatView;

    open spec fn view(&self) -> HeartbeatView {
        HeartbeatView {
            active: view_seq(self.active_comm@),
            closed: self.closed_comm@,
            remote_comm_bytes: self.remote_comm_bytes,
        }
    }
}

/// The value under `k`, if there is one.
pub open spec fn value_at(m: Map<u64, u64>, k: u64) -> Option<u64> {
    if m.contains_key(k) {
        Some(m[k])
    } else {
        None
    }
}

impl SummaryView {
    /// What a heartbeat says, given the counters of the open communicators as
    /// they stand. Communicators come in ascending order.
    pub open spec fn heartbeat(self, net_bytes: Map<u64, u64>, remote: Option<u64>) -> HeartbeatView {
        let open = in_order(self.active.dom());
        let closed = in_order(self.closed.dom());
        HeartbeatView {
            active: Seq::new(
                open.len(),
                |i: int|
                    ActiveReportView {
                        comm_hash: open[i],
                        rank: self.active[open[i]].rank,
                        colls: self.active[open[i]].colls,
                        net_bytes: value_at(net_bytes, open[i]),
                    },
            ),
            closed: Seq::new(closed.len(), |i: int| self.closed[closed[i]]),
            remote_comm_bytes: remote,
        }
    }

    /// The summary after a heartbeat: what it said of closed communicators is
    /// not said again.
    pub open spec fn after_heartbeat(self) -> SummaryView {
        SummaryView { closed: Map::empty(), ..self }
    }

    /// The open communicators whose bytes are counted.
    pub open spec fn counting(self) -> Set<u64> {
        Set::new(|h: u64| self.active.contains_key(h) && self.active[h].total_net_bytes is Some)
    }

    /// Whether `net` says for each of them what its counter was read as.
    pub open spec fn counters_read(self, net: Map<u64, u64>) -> bool {
        &&& net.dom() == self.counting()
        &&& forall|h: u64| #[trigger]
            net.contains_key(h) ==> was_read(self.active[h].total_net_bytes->0, net[h])
    }
}

/// Whether a shared counter was read as `n`. Other threads move it, so nothing
/// is known of the number itself.
pub open spec fn was_read(counter: Arc<AtomicUsize>, n: u64) -> bool {
    exists|v: usize|
        #[trigger] call_ensures(
            AtomicUsize::load,
            (&*counter, std::sync::atomic::Ordering::Relaxed),
            v,
        ) && v == n
}

/// Reads a shared counter.
pub fn load_usize_as_u64(val: &Arc<AtomicUsize>) -> (r: u64)
    ensures
        was_read(*val, r),
{
    widened(val.load(std::sync::atomic::Ordering::Relaxed))
}

fn widened(n: usize) -> (r: u64)
    ensures
        r == n,
{
    n as u64
}

fn copies(cs: &Vec<CollLast>) -> (r: Vec<CollLast>)
    ensures
        r@ == cs@,
{
    let mut r: Vec<CollLast> = Vec::new();
    let mut i: usize = 0;
    while i < cs.len()
        invariant
            i <= cs@.len(),
            r@ == cs@.take(i as int),
        decreases cs@.len() - i,
    {
        r.push(cs[i]);
        assert(r@ =~= cs@.take(i + 1));
        i += 1;
    }
    assert(cs@.take(i as int) =~= cs@);
    r
}

impl CollectiveSummary {
    /// The counters of the open communicators as they stand.
    pub fn net_bytes(&self) -> (r: BTreeMap<u64, u64>)
        ensures
            self@.counters_read(r@),
    {
        let open: Vec<u64> = keys_in_order(&self.active_comm);
        let mut r: BTreeMap<u64, u64> = BTreeMap::new();
        let mut i: usize = 0;
        while i < open.len()
            invariant
                i <= open@.len(),
                open@.to_set() == self.active_comm@.dom(),
                forall|h: u64| #[trigger]
                    r@.contains_key(h) <==> self@.counting().contains(h) && open@.take(
                        i as int,
                    ).contains(h),
                forall|h: u64| #[trigger]
                    r@.contains_key(h) ==> was_read(
                        self@.active[h].total_net_bytes->0,
                        r@[h],
                    ),
            decreases open@.len() - i,
        {
            let hash: u64 = open[i];
            let ghost before = open@.take(i as int);
            let ghost after = open@.take(i + 1);
            assert(after =~= before.push(hash));
            assert(open@.to_set().contains(hash));
            assert forall|h: u64| #[trigger] after.contains(h) <==> before.contains(h) || h
                == hash by {
                if before.contains(h) {
                    let j = choose|j: int| 0 <= j < before.len() && before[j] == h;
                    assert(after[j] == h);
                }
                assert(after[i as int] == hash);
            }
            match self.active_comm.get(&hash) {
                Some(comm) => {
                    assert(comm@ == self@.active[hash]);
                    match &comm.total_net_bytes {
                        Some(counter) => {
                            r.insert(hash, load_usize_as_u64(counter));
                        },
                        None => {},
                    }
                },
                None => {},
            }
            i += 1;
        }
        assert(open@.take(i as int) =~= open@);
        assert(r@.dom() =~= self@.counting()) by {
            assert forall|h: u64| r@.dom().contains(h) <==> self@.counting().contains(h) by {
                if self@.counting().contains(h) {
                    assert(open@.to_set().contains(h));
                }
            }
        }
        r
    }

    fn active_reports(&self, net_bytes: &BTreeMap<u64, u64>) -> (r: Vec<ActiveReport>)
        ensures
            view_seq(r@) == self@.heartbeat(net_bytes@, None).active,
    {
        broadcast use group_views;

        let open: Vec<u64> = keys_in_order(&self.active_comm);
        assert(self@.active.dom() =~= self.active_comm@.dom());
        let ghost goal = self@.heartbeat(net_bytes@, None).active;
        let mut r: Vec<ActiveReport> = Vec::new();
        let mut i: usize = 0;
        while i < open.len()
            invariant
                i <= open@.len(),
                open@ == in_order(self@.active.dom()),
                open@.to_set() == self.active_comm@.dom(),
                goal == self@.heartbeat(net_bytes@, None).active,
                view_seq(r@) == goal.take(i as int),
            decreases open@.len() - i,
        {
            let hash: u64 = open[i];
            assert(open@.to_set().contains(hash));
            match self.active_comm.get(&hash) {
                Some(comm) => {
                    assert(comm@ == self@.active[hash]);
                    let report = ActiveReport {
                        comm_hash: hash,
                        rank: comm.rank,
                        colls: copies(&comm.colls),
                        net_bytes: match net_bytes.get(&hash) {
                            Some(n) => Some(*n),
                            None => None,
                        },
                    };
                    assert(report@ =~= goal[i as int]);
                    let ghost earlier = r@;
                    r.push(report);
                    assert(view_seq(r@) == view_seq(earlier).push(report@));
                    assert(goal.take(i + 1) =~= goal.take(i as int).push(goal[i as int]));
                },
                None => {
                    assert(false);
                },
            }
            i += 1;
        }
        assert(goal.take(i as int) =~= goal);
        r
    }

    fn closed_reports(&self) -> (r: Vec<ClosedComm>)
        ensures
            r@ == self@.heartbeat(Map::empty(), None).closed,
    {
        let closed: Vec<u64> = keys_in_order(&self.closed_comm);
        let ghost goal = self@.heartbeat(Map::empty(), None).closed;
        let mut r: Vec<ClosedComm> = Vec::new();
        let mut i: usize = 0;
        while i < closed.len()
            invariant
                i <= closed@.len(),
                closed@ == in_order(self@.closed.dom()),
                closed@.to_set() == self.closed_comm@.dom(),
                goal == self@.heartbeat(Map::empty(), None).closed,
                r@ == goal.take(i as int),
            decreases closed@.len() - i,
        {
            let hash: u64 = closed[i];
            assert(closed@.to_set().contains(hash));
            match self.closed_comm.get(&hash) {
                Some(c) => r.push(*c),
                None => {
                    assert(false);
                },
            }
            assert(r@ =~= goal.take(i + 1));
            i += 1;
        }
        assert(goal.take(i as int) =~= goal);
        r
    }

    /// A heartbeat, given the counters of the open communicators. What it says
    /// of closed ones is not said again.
    pub fn heartbeat(&mut self, net_bytes: &BTreeMap<u64, u64>, remote: Option<u64>) -> (r: Heartbeat)
        ensures
            r@ == old(self)@.heartbeat(net_bytes@, remote),
            final(self)@ == old(self)@.after_heartbeat(),
    {
        let active_comm: Vec<ActiveReport> = self.active_reports(net_bytes);
        let closed_comm: Vec<ClosedComm> = self.closed_reports();
        self.closed_comm = BTreeMap::new();
        let r = Heartbeat { active_comm, closed_comm, remote_comm_bytes: remote };
        assert(r@ =~= old(self)@.heartbeat(net_bytes@, remote));
        assert(self@ =~= old(self)@.after_heartbeat());
        r
    }

    /// A heartbeat with the counters as they stand.
    pub fn generate_heartbeat(&mut self, remote: &Option<Arc<AtomicUsize>>) -> (r: Heartbeat)
        ensures
            exists|net: Map<u64, u64>, bytes: Option<u64>|
                old(self)@.counters_read(net) && (bytes is Some <==> remote is Some) && (
                bytes is Some ==> was_read(remote->0, bytes->0)) && r@
                    == #[trigger] old(self)@.heartbeat(net, bytes),
            final(self)@ == old(self)@.after_heartbeat(),
    {
        let net: BTreeMap<u64, u64> = self.net_bytes();
        let bytes: Option<u64> = match remote {
            Some(counter) => Some(load_usize_as_u64(counter)),
            None => None,
        };
        self.heartbeat(&net, bytes)
    }
}

/// A closed communicator is reported by the next heartbeat and by no later one.
pub proof fn law_closings_are_reported_once(
    s: SummaryView,
    hash: u64,
    now: u128,
    net: Map<u64, u64>,
    remote: Option<u64>,
)
    requires
        s.active.contains_key(hash),
        s.closed.dom().finite(),
    ensures
        ({
            let closed = s.after_close(hash, now);
            let told = closed.heartbeat(net, remote).closed;
            let later = closed.after_heartbeat();
            &&& exists|i: int|
                0 <= i < told.len() && #[trigger] told[i] == (ClosedComm {
                    comm_hash: hash,
                    rank: s.active[hash].rank,
                    close_time: now,
                })
            &&& later.heartbeat(net, remote).closed.len() == 0
        }),
{
    let closed = s.after_close(hash, now);
    let told = closed.heartbeat(net, remote).closed;
    let keys = in_order(closed.closed.dom());
    lemma_listing_exists(closed.closed.dom());
    assert(keys.to_set().contains(hash));
    let i = choose|i: int| 0 <= i < keys.len() && keys[i] == hash;
    assert(told[i] == closed.closed[hash]);
    let later = closed.after_heartbeat();
    lemma_listing_exists(later.closed.dom());
    let none = in_order(later.closed.dom());
    if none.len() > 0 {
        assert(none.to_set().contains(none[0]));
    }
}

} // verus!
