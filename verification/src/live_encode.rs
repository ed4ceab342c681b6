//! Records as slots of the live ring.
use crate::clock::{elapsed, time_between, Instant, TimeBase};
use crate::daemon::{Telemetry, TelemetryView};
use crate::event::{
    KernelCopySummary, NcclOp, OpInfo, P2pGroupSeal, P2pParent, P2pParentView, StepProgress,
    StepProgressSource, StepProgressStage,
};
use crate::live_ring::{
    pack_str, packed, RingSlot, RingView, RingWriter, SlotKind, SlotView, COMM_NAME_LEN, HOST_LEN,
    IP_LEN, NAME_LEN, PARENT_NAME_LEN, STEP_SOURCE_KERNEL, STEP_SOURCE_KERNEL_CH,
    STEP_SOURCE_PROXY, STEP_STAGE_COMPLETE, STEP_STAGE_POSTED,
};
use crate::nccl_metadata::OpDescr;
use crate::profiler::{CommMember, CommMembership};
use crate::views::view_seq;
use vstd::prelude::*;
use vstd::utf8::encode_utf8;

verus! {

/// What a text field of `n` bytes holds of `s`.
pub open spec fn field(n: usize, s: Seq<char>) -> Seq<u8> {
    packed(n as nat, encode_utf8(s))
}

/// The group that an operation was issued in, 0 for none.
pub open spec fn group_or_zero(g: Option<u64>) -> u64 {
    match g {
        Some(id) => id,
        None => 0,
    }
}

/// What all slots of an operation hold.
pub open spec fn op_slot(op: OpInfo, coll: SlotKind, p2p: SlotKind, base: TimeBase) -> SlotView {
    let common = SlotView {
        ts: base.micros(op.start_time),
        rank: op.rank as i32,
        comm_hash: op.comm_hash,
        payload_bytes: op.byte_count as i64,
        ..SlotView::blank()
    };
    match op.descr {
        OpDescr::Coll(c) => SlotView {
            kind: coll.spec_code(),
            name: field(NAME_LEN, c.op_type.spec_name()@),
            seq_num: c.seq_num as i64,
            ..common
        },
        OpDescr::P2p(d) => SlotView {
            kind: p2p.spec_code(),
            name: field(NAME_LEN, d.spec_name()@),
            is_send: d.is_send as u8,
            peer: d.peer,
            group_id: group_or_zero(op.parent_group_id),
            ..common
        },
    }
}

/// The slot for an operation that was issued.
pub open spec fn issue_slot(op: OpInfo, base: TimeBase) -> SlotView {
    op_slot(op, SlotKind::CollStart, SlotKind::P2pStart, base)
}

/// The slot for an operation that completed. One without an end took no time.
pub open spec fn complete_slot(op: OpInfo, base: TimeBase) -> SlotView {
    let end = match op.end_time {
        Some(t) => t,
        None => op.start_time,
    };
    SlotView {
        duration_us: (time_between(op.start_time, end) / 1000) as i64,
        ..op_slot(op, SlotKind::CollComplete, SlotKind::P2pComplete, base)
    }
}

fn put_op(op: &OpInfo, coll: SlotKind, p2p: SlotKind, base: &TimeBase) -> (r: RingSlot)
    ensures
        r@ == op_slot(*op, coll, p2p, *base),
{
    let mut slot: RingSlot = RingSlot::zeroed();
    slot.ts = base.to_us(op.start_time);
    slot.rank = op.rank as i32;
    slot.comm_hash = op.comm_hash;
    slot.payload_bytes = op.byte_count as i64;
    match op.descr {
        OpDescr::Coll(c) => {
            slot.kind = coll.code();
            pack_str(&mut slot.name, c.op_type.name());
            slot.seq_num = c.seq_num as i64;
        },
        OpDescr::P2p(d) => {
            slot.kind = p2p.code();
            pack_str(&mut slot.name, d.name());
            slot.is_send = d.is_send as u8;
            slot.peer = d.peer;
            slot.group_id = match op.parent_group_id {
                Some(id) => id,
                None => 0,
            };
        },
    }
    assert(slot@ =~= op_slot(*op, coll, p2p, *base));
    slot
}

pub fn encode_ncclop_issue(op: &NcclOp, base: &TimeBase) -> (r: RingSlot)
    ensures
        r@ == issue_slot(op@.info, *base),
{
    put_op(&op.info, SlotKind::CollStart, SlotKind::P2pStart, base)
}

pub fn encode_ncclop_complete(op: &NcclOp, base: &TimeBase) -> (r: RingSlot)
    ensures
        r@ == complete_slot(op@.info, *base),
{
    let mut slot: RingSlot = put_op(
        &op.info,
        SlotKind::CollComplete,
        SlotKind::P2pComplete,
        base,
    );
    let end: Instant = match op.info.end_time {
        Some(t) => t,
        None => op.info.start_time,
    };
    slot.duration_us = (elapsed(op.info.start_time, end) / 1000) as i64;
    assert(slot@ =~= complete_slot(op@.info, *base));
    slot
}

/// The slot for the first issue of a group of transfers.
pub open spec fn group_start_slot(p: P2pParentView, base: TimeBase) -> SlotView {
    SlotView {
        kind: SlotKind::P2pGroupStart.spec_code(),
        ts: base.micros(p.start_time),
        rank: p.rank as i32,
        comm_hash: p.comm_hash,
        group_id: p.group_id,
        n_children: p.n_children as u32,
        n_peers: p.n_peers as u32,
        payload_bytes: p.size as i64,
        self_copy_size: p.self_copy_size as i64,
        name: field(NAME_LEN, p.name@),
        ..SlotView::blank()
    }
}

pub fn encode_p2p_group_start(p: &P2pParent, base: &TimeBase) -> (r: RingSlot)
    ensures
        r@ == group_start_slot(p@, *base),
{
    let mut slot: RingSlot = RingSlot::zeroed();
    slot.kind = SlotKind::P2pGroupStart.code();
    slot.ts = base.to_us(p.start_time);
    slot.rank = p.rank as i32;
    slot.comm_hash = p.comm_hash;
    slot.group_id = p.group_id;
    slot.n_children = p.n_children as u32;
    slot.n_peers = p.n_peers as u32;
    slot.payload_bytes = p.size as i64;
    slot.self_copy_size = p.self_copy_size as i64;
    pack_str(&mut slot.name, p.name);
    assert(slot@ =~= group_start_slot(p@, *base));
    slot
}

/// The number of whole microseconds in `ns` nanoseconds. A negative number is
/// cut towards zero.
pub open spec fn whole_micros(ns: i64) -> i64 {
    if ns >= 0 {
        (ns as int / 1000) as i64
    } else {
        (-(-(ns as int) / 1000)) as i64
    }
}

/// The slot for the copy timing of an operation.
pub open spec fn kernel_copy_slot(c: KernelCopySummary, base: TimeBase) -> SlotView {
    SlotView {
        kind: SlotKind::KernelCopy.spec_code(),
        ts: base.micros(c.observed_at),
        rank: c.rank as i32,
        payload_bytes: c.bytes,
        step: c.copy_ns,
        duration_us: whole_micros(c.copy_ns),
        n_children: c.steps,
        name: field(NAME_LEN, "KernelCopy"@),
        ..SlotView::blank()
    }
}

fn nanos_to_micros(ns: i64) -> (r: i64)
    ensures
        r == whole_micros(ns),
{
    if ns >= 0 {
        (ns as u64 / 1000) as i64
    } else {
        let size: u64 = (-(ns as i128)) as u64;
        -((size / 1000) as i64)
    }
}

pub fn encode_kernel_copy(c: &KernelCopySummary, base: &TimeBase) -> (r: RingSlot)
    ensures
        r@ == kernel_copy_slot(*c, *base),
{
    let mut slot: RingSlot = RingSlot::zeroed();
    slot.kind = SlotKind::KernelCopy.code();
    slot.ts = base.to_us(c.observed_at);
    slot.rank = c.rank as i32;
    slot.payload_bytes = c.bytes;
    slot.step = c.copy_ns;
    slot.duration_us = nanos_to_micros(c.copy_ns);
    slot.n_children = c.steps;
    pack_str(&mut slot.name, "KernelCopy");
    assert(slot@ =~= kernel_copy_slot(*c, *base));
    slot
}

/// The slot for the final child count of a group.
pub open spec fn seal_slot(seal: P2pGroupSeal, base: TimeBase) -> SlotView {
    SlotView {
        kind: SlotKind::P2pGroupSeal.spec_code(),
        ts: base.micros(seal.observed_at),
        group_id: seal.group_id,
        n_children: seal.n_children as u32,
        name: field(NAME_LEN, "P2P_GROUP_SEAL"@),
        ..SlotView::blank()
    }
}

pub fn encode_p2p_group_seal(seal: &P2pGroupSeal, base: &TimeBase) -> (r: RingSlot)
    ensures
        r@ == seal_slot(*seal, *base),
{
    let mut slot: RingSlot = RingSlot::zeroed();
    slot.kind = SlotKind::P2pGroupSeal.code();
    slot.ts = base.to_us(seal.observed_at);
    slot.group_id = seal.group_id;
    slot.n_children = seal.n_children as u32;
    pack_str(&mut slot.name, "P2P_GROUP_SEAL");
    assert(slot@ =~= seal_slot(*seal, *base));
    slot
}

/// The code and the name of the source of a marker.
pub open spec fn source_code(s: StepProgressSource) -> (u8, &'static str) {
    match s {
        StepProgressSource::Proxy => (STEP_SOURCE_PROXY, "ProxyStep"),
        StepProgressSource::Kernel => (STEP_SOURCE_KERNEL, "KernelStep"),
        StepProgressSource::KernelCh => (STEP_SOURCE_KERNEL_CH, "KernelCh"),
    }
}

/// The slot for a progress marker.
pub open spec fn progress_slot(p: StepProgress, base: TimeBase) -> SlotView {
    SlotView {
        kind: SlotKind::StepProgress.spec_code(),
        source: source_code(p.source).0,
        stage: match p.stage {
            StepProgressStage::Posted => STEP_STAGE_POSTED,
            StepProgressStage::Complete => STEP_STAGE_COMPLETE,
        },
        ts: base.micros(p.observed_at),
        launch_ts: base.micros(p.parent_start),
        rank: p.rank as i32,
        comm_hash: p.comm_hash,
        seq_num: p.seq_num,
        group_id: group_or_zero(p.parent_group_id),
        is_send: p.is_send as u8,
        peer: p.peer as i32,
        channel: p.channel_id as i32,
        step: p.step,
        size: p.size as i64,
        name: field(NAME_LEN, source_code(p.source).1@),
        parent_name: field(PARENT_NAME_LEN, p.parent_name@),
        ..SlotView::blank()
    }
}

pub fn encode_step_progress(p: &StepProgress, base: &TimeBase) -> (r: RingSlot)
    ensures
        r@ == progress_slot(*p, *base),
{
    let mut slot: RingSlot = RingSlot::zeroed();
    let (source, name): (u8, &'static str) = match p.source {
        StepProgressSource::Proxy => (STEP_SOURCE_PROXY, "ProxyStep"),
        StepProgressSource::Kernel => (STEP_SOURCE_KERNEL, "KernelStep"),
        StepProgressSource::KernelCh => (STEP_SOURCE_KERNEL_CH, "KernelCh"),
    };
    slot.kind = SlotKind::StepProgress.code();
    slot.source = source;
    slot.stage = match p.stage {
        StepProgressStage::Posted => STEP_STAGE_POSTED,
        StepProgressStage::Complete => STEP_STAGE_COMPLETE,
    };
    slot.ts = base.to_us(p.observed_at);
    slot.launch_ts = base.to_us(p.parent_start);
    slot.rank = p.rank as i32;
    slot.comm_hash = p.comm_hash;
    slot.seq_num = p.seq_num;
    slot.group_id = match p.parent_group_id {
        Some(id) => id,
        None => 0,
    };
    slot.is_send = p.is_send as u8;
    slot.peer = p.peer as i32;
    slot.channel = p.channel_id as i32;
    slot.step = p.step;
    slot.size = p.size as i64;
    pack_str(&mut slot.name, name);
    pack_str(&mut slot.parent_name, p.parent_name);
    assert(slot@ =~= progress_slot(*p, *base));
    slot
}

/// The slot that opens the dump of a communicator.
pub open spec fn comm_header_slot(m: CommMembership, base: TimeBase) -> SlotView {
    SlotView {
        kind: SlotKind::CommInitHeader.spec_code(),
        ts: base.micros(m.ts),
        rank: m.rank,
        world_rank: m.world_rank,
        comm_hash: m.comm_hash,
        n_nodes: m.n_nodes,
        n_ranks: m.n_ranks,
        comm_name: field(COMM_NAME_LEN, m.comm_name@),
        host: field(HOST_LEN, m.host@),
        ip: field(IP_LEN, m.ip@),
        ..SlotView::blank()
    }
}

/// The slot for one member of a communicator.
pub open spec fn comm_member_slot(m: CommMembership, member: CommMember, base: TimeBase) -> SlotView {
    SlotView {
        kind: SlotKind::CommInitMember.spec_code(),
        ts: base.micros(m.ts),
        rank: m.rank,
        comm_hash: m.comm_hash,
        member_rank: member.rank,
        member_world_rank: member.world_rank,
        member_node: member.node,
        member_cuda_dev: member.cuda_dev,
        member_host_hash: member.host_hash,
        member_bus_id: member.bus_id,
        ..SlotView::blank()
    }
}

/// The dump of a communicator: one slot for it, one for each member.
pub open spec fn comm_slots(m: CommMembership, base: TimeBase) -> Seq<SlotView> {
    seq![comm_header_slot(m, base)] + Seq::new(
        m.members@.len(),
        |i: int| comm_member_slot(m, m.members@[i], base),
    )
}

/// The slots of a record. Records with all their children, and communicators
/// that open or close, do not go to the ring.
pub open spec fn live_slots(t: TelemetryView, base: TimeBase) -> Seq<SlotView> {
    match t {
        TelemetryView::NcclOpIssued(op) => seq![issue_slot(op.info, base)],
        TelemetryView::NcclOpComplete(op) => seq![complete_slot(op.info, base)],
        TelemetryView::P2pParentStart(p) => seq![group_start_slot(p, base)],
        TelemetryView::P2pGroupSeal(seal) => seq![seal_slot(seal, base)],
        TelemetryView::StepProgress(p) => seq![progress_slot(p, base)],
        TelemetryView::CommInit(m) => comm_slots(m, base),
        TelemetryView::KernelCopy(c) => seq![kernel_copy_slot(c, base)],
        _ => Seq::empty(),
    }
}

/// The ring after `slots` were pushed, up to the first that finds it full, and
/// how many reached it.
pub open spec fn pushed_until_full(v: RingView, slots: Seq<SlotView>) -> (RingView, nat)
    decreases slots.len(),
{
    if slots.len() == 0 {
        (v, 0)
    } else if v.has_room() {
        let (w, n) = pushed_until_full(v.pushed(slots[0]), slots.skip(1));
        (w, n + 1)
    } else {
        (v.pushed(slots[0]), 0)
    }
}

fn encode_comm_header(m: &CommMembership, base: &TimeBase) -> (r: RingSlot)
    ensures
        r@ == comm_header_slot(*m, *base),
{
    let mut slot: RingSlot = RingSlot::zeroed();
    slot.kind = SlotKind::CommInitHeader.code();
    slot.ts = base.to_us(m.ts);
    slot.rank = m.rank;
    slot.world_rank = m.world_rank;
    slot.comm_hash = m.comm_hash;
    slot.n_nodes = m.n_nodes;
    slot.n_ranks = m.n_ranks;
    pack_str(&mut slot.comm_name, m.comm_name.as_str());
    pack_str(&mut slot.host, m.host.as_str());
    pack_str(&mut slot.ip, m.ip.as_str());
    assert(slot@ =~= comm_header_slot(*m, *base));
    slot
}

fn encode_comm_member(m: &CommMembership, member: &CommMember, base: &TimeBase) -> (r: RingSlot)
    ensures
        r@ == comm_member_slot(*m, *member, *base),
{
    let mut slot: RingSlot = RingSlot::zeroed();
    slot.kind = SlotKind::CommInitMember.code();
    slot.ts = base.to_us(m.ts);
    slot.rank = m.rank;
    slot.comm_hash = m.comm_hash;
    slot.member_rank = member.rank;
    slot.member_world_rank = member.world_rank;
    slot.member_node = member.node;
    slot.member_cuda_dev = member.cuda_dev;
    slot.member_host_hash = member.host_hash;
    slot.member_bus_id = member.bus_id;
    assert(slot@ =~= comm_member_slot(*m, *member, *base));
    slot
}

/// The slots of the dump of a communicator.
fn comm_init_slots(m: &CommMembership, base: &TimeBase) -> (r: Vec<RingSlot>)
    ensures
        view_seq(r@) == comm_slots(*m, *base),
{
    let ghost slots = comm_slots(*m, *base);
    let mut r: Vec<RingSlot> = Vec::new();
    r.push(encode_comm_header(m, base));
    assert(view_seq(r@) =~= slots.take(1));
    let mut i: usize = 0;
    while i < m.members.len()
        invariant
            i <= m.members@.len(),
            slots == comm_slots(*m, *base),
            view_seq(r@) == slots.take(i + 1),
        decreases m.members@.len() - i,
    {
        let slot: RingSlot = encode_comm_member(m, &m.members[i], base);
        assert(slot@ == slots[i + 1]);
        let ghost before = r@;
        r.push(slot);
        assert(view_seq(r@) =~= view_seq(before).push(slot@));
        assert(view_seq(r@) =~= slots.take(i + 2));
        i += 1;
    }
    assert(slots.take(i + 1) =~= slots);
    r
}

fn one_slot(slot: RingSlot) -> (r: Vec<RingSlot>)
    ensures
        view_seq(r@) == seq![slot@],
{
    let mut r: Vec<RingSlot> = Vec::new();
    r.push(slot);
    assert(view_seq(r@) =~= seq![slot@]);
    r
}

/// The slots of a record.
fn record_slots(t: &Telemetry, base: &TimeBase) -> (r: Vec<RingSlot>)
    ensures
        view_seq(r@) == live_slots(t@, *base),
{
    match t {
        Telemetry::NcclOpIssued(op) => one_slot(encode_ncclop_issue(op, base)),
        Telemetry::NcclOpComplete(op) => one_slot(encode_ncclop_complete(op, base)),
        Telemetry::P2pParentStart(p) => one_slot(encode_p2p_group_start(p, base)),
        Telemetry::P2pGroupSeal(seal) => one_slot(encode_p2p_group_seal(seal, base)),
        Telemetry::StepProgress(p) => one_slot(encode_step_progress(p, base)),
        Telemetry::CommInit(m) => comm_init_slots(m, base),
        Telemetry::KernelCopy(c) => one_slot(encode_kernel_copy(c, base)),
        _ => {
            let r: Vec<RingSlot> = Vec::new();
            assert(view_seq(r@) =~= live_slots(t@, *base));
            r
        },
    }
}

/// A record on its way to the ring, slot by slot. In between, the reader may
/// make room.
pub struct Publication {
    slots: Vec<RingSlot>,
    next: usize,
    written: usize,
}

/// The slots that are left to push, and how many reached the ring.
#[verifier::ext_equal]
pub struct PublicationView {
    pub left: Seq<SlotView>,
    pub written: nat,
}

impl View for Publication {
    type V = PublicationView;

    closed spec fn view(&self) -> PublicationView {
        PublicationView {
            left: view_seq(self.slots@).skip(self.next as int),
            written: self.written as nat,
        }
    }
}

impl PublicationView {
    /// The ring and the record after one more slot. Where it finds the ring
    /// full, it is lost and the others with it: half a dump of a communicator
    /// would only confuse the reader.
    pub open spec fn stepped(self, v: RingView) -> (RingView, PublicationView) {
        if self.left.len() == 0 {
            (v, self)
        } else if v.has_room() {
            (
                v.pushed(self.left[0]),
                PublicationView { left: self.left.skip(1), written: self.written + 1 },
            )
        } else {
            (v.pushed(self.left[0]), PublicationView { left: Seq::empty(), ..self })
        }
    }
}

impl Publication {
    pub closed spec fn wf(self) -> bool {
        self.written <= self.next <= self.slots@.len()
    }

    fn of_slots(slots: Vec<RingSlot>) -> (r: Publication)
        ensures
            r.wf(),
            r@ == (PublicationView { left: view_seq(slots@), written: 0 }),
    {
        let r: Publication = Publication { slots, next: 0, written: 0 };
        assert(r@.left =~= view_seq(slots@));
        r
    }

    /// A record that is to go to the ring.
    pub fn of(t: &Telemetry, base: &TimeBase) -> (r: Publication)
        ensures
            r.wf(),
            r@ == (PublicationView { left: live_slots(t@, *base), written: 0 }),
    {
        Publication::of_slots(record_slots(t, base))
    }

    /// Pushes the next slot. Returns whether any is left.
    pub fn step(&mut self, ring: &mut RingWriter) -> (more: bool)
        requires
            old(self).wf(),
            old(ring)@.wf(),
        ensures
            final(self).wf(),
            final(ring)@.wf(),
            (final(ring)@, final(self)@) == old(self)@.stepped(old(ring)@),
            more == (final(self)@.left.len() > 0),
    {
        if self.next == self.slots.len() {
            return false;
        }
        let ghost all = view_seq(self.slots@);
        let ghost i = self.next as int;
        assert(all.skip(i)[0] == self.slots@[i]@);
        if ring.push(&self.slots[self.next]).is_ok() {
            self.next += 1;
            self.written += 1;
            assert(self@.left =~= all.skip(i).skip(1));
        } else {
            self.next = self.slots.len();
            assert(self@.left =~= Seq::empty());
        }
        self.next < self.slots.len()
    }

    /// How many slots reached the ring.
    pub fn written(&self) -> (n: usize)
        ensures
            n == self@.written,
    {
        self.written
    }

    /// Pushes all that is left, while the reader makes no room.
    fn finish(self, ring: &mut RingWriter) -> (n: usize)
        requires
            self.wf(),
            self@.written == 0,
            old(ring)@.wf(),
        ensures
            final(ring)@.wf(),
            (final(ring)@, n as nat) == pushed_until_full(old(ring)@, self@.left),
    {
        let mut p: Publication = self;
        let ghost all = pushed_until_full(ring@, p@.left);
        let mut more: bool = true;
        while more
            invariant
                p.wf(),
                ring@.wf(),
                !more ==> p@.left.len() == 0,
                ({
                    let (w, n) = pushed_until_full(ring@, p@.left);
                    all == (w, n + p@.written)
                }),
            decreases p@.left.len(), more as int,
        {
            more = p.step(ring);
        }
        p.written()
    }
}

/// Writes the dump of a communicator. Where the slot for the communicator
/// itself finds the ring full no member follows; where a member does, the rest
/// is left out. Returns how many slots reached the ring.
pub fn encode_comm_init(ring: &mut RingWriter, m: &CommMembership, base: &TimeBase) -> (n: usize)
    requires
        old(ring)@.wf(),
    ensures
        final(ring)@.wf(),
        (final(ring)@, n as nat) == pushed_until_full(old(ring)@, comm_slots(*m, *base)),
{
    Publication::of_slots(comm_init_slots(m, base)).finish(ring)
}

/// Writes a record to the ring. Returns how many slots reached it: none where
/// the record does not go there, or finds it full.
pub fn ring_publish(ring: &mut RingWriter, t: &Telemetry, base: &TimeBase) -> (n: usize)
    requires
        old(ring)@.wf(),
    ensures
        final(ring)@.wf(),
        (final(ring)@, n as nat) == pushed_until_full(old(ring)@, live_slots(t@, *base)),
{
    match t {
        Telemetry::CommInit(m) => encode_comm_init(ring, m, base),
        _ => Publication::of(t, base).finish(ring),
    }
}

/// No slot of a dump reaches the ring unless the slot for its communicator
/// does.
pub proof fn law_members_follow_their_communicator(v: RingView, m: CommMembership, base: TimeBase)
    ensures
        pushed_until_full(v, comm_slots(m, base)).1 <= comm_slots(m, base).len(),
        !v.has_room() ==> pushed_until_full(v, comm_slots(m, base)).1 == 0,
        v.has_room() ==> pushed_until_full(v, comm_slots(m, base)).1 >= 1,
{
    lemma_pushed_count(v, comm_slots(m, base));
}

proof fn lemma_pushed_count(v: RingView, slots: Seq<SlotView>)
    ensures
        pushed_until_full(v, slots).1 <= slots.len(),
    decreases slots.len(),
{
    if slots.len() > 0 && v.has_room() {
        lemma_pushed_count(v.pushed(slots[0]), slots.skip(1));
    }
}

} // verus!
