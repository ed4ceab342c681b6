//! What the slots of the live ring say of the records that they come from.
use crate::clock::TimeBase;
use crate::daemon::TelemetryView;
use crate::event::{
    KernelCopySummary, NcclOpView, P2pGroupSeal, P2pParentView, StepProgress,
};
use crate::live_encode::{live_slots, pushed_until_full, PublicationView};
use crate::live_ring::{packed, RingView, SlotKind, SlotView};
use crate::nccl_metadata::OpDescr;
use crate::profiler::CommMembership;
use vstd::prelude::*;
use vstd::utf8::encode_utf8;

verus! {

/// A moment that the calendar of the live records can name.
pub open spec fn is_tellable(base: TimeBase, t: u128) -> bool {
    base.init_instant <= t && base.init_timestamp + (t - base.init_instant) <= i64::MAX
}

/// Whether nothing of a slot is set that only slots for members of a
/// communicator have.
pub open spec fn names_no_member(s: SlotView) -> bool {
    &&& s.member_rank == -1
    &&& s.member_world_rank == -1
    &&& s.member_node == -1
    &&& s.member_cuda_dev == -1
    &&& s.member_host_hash == 0
    &&& s.member_bus_id == 0
}

// ------------------------------------------------------------------ operations

/// The slots for the issue and for the completion of an operation tell when it
/// was launched, where it runs, how much it moves, and which one it is; so the
/// reader can match them.
pub proof fn law_slots_identify_their_operation(op: NcclOpView, base: TimeBase)
    requires
        is_tellable(base, op.info.start_time),
    ensures
        ({
            let issue = live_slots(TelemetryView::NcclOpIssued(op), base)[0];
            let complete = live_slots(TelemetryView::NcclOpComplete(op), base)[0];
            &&& issue.ts == (base.init_timestamp + (op.info.start_time - base.init_instant)) / 1000
            &&& issue.rank == op.info.rank as i32
            &&& issue.comm_hash == op.info.comm_hash
            &&& issue.payload_bytes == op.info.byte_count as i64
            &&& issue.duration_us == 0
            &&& op.info.descr matches OpDescr::Coll(c) ==> issue.kind
                == SlotKind::CollStart.spec_code() && complete.kind
                == SlotKind::CollComplete.spec_code() && issue.seq_num == c.seq_num as i64
                && issue.group_id == 0 && issue.peer == -1 && issue.name == packed(
                24,
                encode_utf8(c.op_type.spec_name()@),
            )
            &&& op.info.descr matches OpDescr::P2p(d) ==> issue.kind
                == SlotKind::P2pStart.spec_code() && complete.kind
                == SlotKind::P2pComplete.spec_code() && issue.seq_num == 0 && issue.peer == d.peer
                && issue.is_send == (if d.is_send {
                1u8
            } else {
                0u8
            }) && issue.group_id == (match op.info.parent_group_id {
                Some(g) => g,
                None => 0,
            }) && issue.name == packed(
                24,
                encode_utf8(d.spec_name()@),
            )
            &&& names_no_member(issue)
            &&& (SlotView {
                kind: issue.kind,
                duration_us: issue.duration_us,
                ..complete
            }) == issue
        }),
{
}

/// The slot for the completion of an operation says how long it took from its
/// launch to its end, whatever its child events were; with the time of the
/// launch that gives the end.
pub proof fn law_durations_count_from_the_launch(op: NcclOpView, base: TimeBase, end: u128)
    requires
        is_tellable(base, op.info.start_time),
        op.info.end_time == Some(end),
        op.info.start_time <= end,
        is_tellable(base, end),
    ensures
        ({
            let s = live_slots(TelemetryView::NcclOpComplete(op), base)[0];
            let told = base.init_timestamp + (end - base.init_instant);
            &&& s.duration_us == (end - op.info.start_time) / 1000
            &&& (s.ts + s.duration_us) * 1000 <= told < (s.ts + s.duration_us) * 1000 + 2000
        }),
{
}

/// An operation without an end, or with one before its launch, took no time.
pub proof fn law_open_operations_took_no_time(op: NcclOpView, base: TimeBase)
    requires
        op.info.end_time matches Some(e) ==> e <= op.info.start_time,
    ensures
        live_slots(TelemetryView::NcclOpComplete(op), base)[0].duration_us == 0,
{
}

// ---------------------------------------------------------------------- groups

/// The slots for the start and for the final count of a group name the group,
/// and how many transfers it has.
pub proof fn law_slots_identify_their_group(p: P2pParentView, seal: P2pGroupSeal, base: TimeBase)
    requires
        is_tellable(base, p.start_time),
        is_tellable(base, seal.observed_at),
    ensures
        ({
            let s = live_slots(TelemetryView::P2pParentStart(p), base)[0];
            &&& s.kind == SlotKind::P2pGroupStart.spec_code()
            &&& s.ts == (base.init_timestamp + (p.start_time - base.init_instant)) / 1000
            &&& s.group_id == p.group_id
            &&& s.rank == p.rank as i32 && s.comm_hash == p.comm_hash
            &&& s.n_children == p.n_children as u32 && s.n_peers == p.n_peers as u32
            &&& s.payload_bytes == p.size as i64 && s.self_copy_size == p.self_copy_size as i64
            &&& s.name == packed(24, encode_utf8(p.name@))
            &&& s.duration_us == 0 && s.seq_num == 0 && names_no_member(s)
        }),
        ({
            let s = live_slots(TelemetryView::P2pGroupSeal(seal), base)[0];
            &&& s.kind == SlotKind::P2pGroupSeal.spec_code()
            &&& s.ts == (base.init_timestamp + (seal.observed_at - base.init_instant)) / 1000
            &&& s.group_id == seal.group_id
            &&& s.n_children == seal.n_children as u32
            &&& s.name == packed(24, encode_utf8("P2P_GROUP_SEAL"@))
            &&& s.rank == -1 && s.duration_us == 0 && names_no_member(s)
        }),
{
}

// -------------------------------------------------------------------- progress

/// The slot for a marker tells when it was seen and when its operation was
/// launched, which operation that is, and what was seen of it.
pub proof fn law_slots_tell_progress(m: StepProgress, base: TimeBase)
    requires
        is_tellable(base, m.observed_at),
        is_tellable(base, m.parent_start),
    ensures
        ({
            let s = live_slots(TelemetryView::StepProgress(m), base)[0];
            &&& s.kind == SlotKind::StepProgress.spec_code()
            &&& s.ts == (base.init_timestamp + (m.observed_at - base.init_instant)) / 1000
            &&& s.launch_ts == (base.init_timestamp + (m.parent_start - base.init_instant)) / 1000
            &&& s.source == (if m.source is Proxy {
                0u8
            } else if m.source is Kernel {
                1u8
            } else {
                2u8
            })
            &&& s.name == packed(
                24,
                encode_utf8(
                    if m.source is Proxy {
                        "ProxyStep"@
                    } else if m.source is Kernel {
                        "KernelStep"@
                    } else {
                        "KernelCh"@
                    },
                ),
            )
            &&& s.stage == (if m.stage is Posted {
                0u8
            } else {
                1u8
            })
            &&& s.rank == m.rank as i32 && s.comm_hash == m.comm_hash && s.seq_num == m.seq_num
            &&& s.group_id == (match m.parent_group_id {
                Some(g) => g,
                None => 0,
            })
            &&& s.parent_name == packed(16, encode_utf8(m.parent_name@))
            &&& s.is_send == (if m.is_send {
                1u8
            } else {
                0u8
            })
            &&& s.peer == m.peer as i32 && s.channel == m.channel_id as i32
            &&& s.step == m.step && s.size == m.size as i64
            &&& s.duration_us == 0 && names_no_member(s)
        }),
{
}

/// The slot for a copy timing tells the bytes, the steps and the time, in
/// nanoseconds and in whole microseconds.
pub proof fn law_slots_tell_copy_timings(c: KernelCopySummary, base: TimeBase)
    requires
        is_tellable(base, c.observed_at),
    ensures
        ({
            let s = live_slots(TelemetryView::KernelCopy(c), base)[0];
            &&& s.kind == SlotKind::KernelCopy.spec_code()
            &&& s.ts == (base.init_timestamp + (c.observed_at - base.init_instant)) / 1000
            &&& s.rank == c.rank as i32
            &&& s.payload_bytes == c.bytes
            &&& s.step == c.copy_ns
            &&& s.n_children == c.steps
            &&& c.copy_ns >= 0 ==> s.duration_us == c.copy_ns as int / 1000
            &&& c.copy_ns < 0 ==> s.duration_us <= 0 && -1000 < c.copy_ns - s.duration_us * 1000
                <= 0
            &&& s.name == packed(24, encode_utf8("KernelCopy"@))
            &&& names_no_member(s)
        }),
{
}

// --------------------------------------------------------------- communicators

/// The dump of a communicator starts with a slot for the communicator itself.
/// A slot for each member follows, in order, under the same time, rank and
/// communicator.
pub proof fn law_slots_dump_a_communicator(m: CommMembership, base: TimeBase, i: int)
    requires
        is_tellable(base, m.ts),
        0 <= i < m.members@.len(),
    ensures
        ({
            let slots = live_slots(TelemetryView::CommInit(m), base);
            let (h, s) = (slots[0], slots[i + 1]);
            let member = m.members@[i];
            &&& slots.len() == m.members@.len() + 1
            &&& h.kind == SlotKind::CommInitHeader.spec_code()
            &&& h.ts == (base.init_timestamp + (m.ts - base.init_instant)) / 1000
            &&& h.rank == m.rank && h.world_rank == m.world_rank && h.comm_hash == m.comm_hash
            &&& h.n_nodes == m.n_nodes && h.n_ranks == m.n_ranks
            &&& h.comm_name == packed(32, encode_utf8(m.comm_name@))
            &&& h.host == packed(32, encode_utf8(m.host@))
            &&& h.ip == packed(16, encode_utf8(m.ip@))
            &&& names_no_member(h)
            &&& s.kind == SlotKind::CommInitMember.spec_code()
            &&& s.ts == h.ts && s.rank == h.rank && s.comm_hash == h.comm_hash
            &&& s.member_rank == member.rank && s.member_world_rank == member.world_rank
            &&& s.member_node == member.node && s.member_cuda_dev == member.cuda_dev
            &&& s.member_host_hash == member.host_hash && s.member_bus_id == member.bus_id
        }),
{
}

// ------------------------------------------------------------------ publishing

/// The slots of a record are pushed in order. The first that finds no room is
/// lost, and none after it is tried.
pub proof fn law_records_are_pushed_until_one_is_lost(
    v: RingView,
    s: SlotView,
    rest: Seq<SlotView>,
)
    ensures
        ({
            let all = seq![s] + rest;
            let (w, n) = pushed_until_full(v, all);
            &&& v.has_room() ==> pushed_until_full(v.pushed(s), rest) == (w, (n - 1) as nat) && n
                >= 1
            &&& !v.has_room() ==> w == v.pushed(s) && n == 0
            &&& pushed_until_full(v, Seq::empty()) == (v, 0nat)
        }),
{
    let all = seq![s] + rest;
    assert(all.skip(1) =~= rest);
    assert(all[0] == s);
}

/// Slot by slot the same comes of a record as at once, if the reader makes no
/// room in between.
pub proof fn law_stepwise_publishing_is_the_same(v: RingView, p: PublicationView)
    requires
        p.left.len() > 0,
    ensures
        ({
            let (w, q) = p.stepped(v);
            let (at_once, n) = pushed_until_full(v, p.left);
            let (later, m) = pushed_until_full(w, q.left);
            &&& later == at_once
            &&& q.written + m == p.written + n
            &&& q.left.len() < p.left.len()
        }),
{
}

} // verus!
