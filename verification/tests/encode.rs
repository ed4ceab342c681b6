use comma::clock::TimeBase;
use comma::daemon::Telemetry;
use comma::event::{
    Group, KernelCopySummary, NcclOp, OpInfo, P2pGroupSeal, P2pParent, StepProgress,
    StepProgressSource, StepProgressStage,
};
use comma::live_encode::{
    encode_kernel_copy, encode_ncclop_complete, encode_ncclop_issue, encode_p2p_group_seal,
    encode_p2p_group_start, encode_step_progress, ring_publish, Publication,
};
use comma::live_ring::{unpack_str, RingWriter, SlotKind};
use comma::nccl_metadata::{Algo, CollDescr, CollOpType, OpDescr, P2pDescr};
use comma::profiler::{CommMember, CommMembership};

const BASE: TimeBase = TimeBase { init_instant: 1_000_000, init_timestamp: 5_000_000_000 };

fn info(descr: OpDescr) -> OpInfo {
    OpInfo {
        id: 1,
        descr,
        rank: 3,
        comm_hash: 0xabc,
        byte_count: 4096,
        start_time: 3_000_000,
        end_time: Some(5_500_999),
        child_start_time: None,
        parent_group_id: Some(77),
    }
}

fn coll() -> NcclOp {
    let descr = CollDescr { op_type: CollOpType::AllGather, algo: Algo::Tree, seq_num: 12 };
    NcclOp::issued(info(OpDescr::Coll(descr)))
}

fn send() -> NcclOp {
    NcclOp::issued(info(OpDescr::P2p(P2pDescr { is_send: true, peer: 6 })))
}

fn membership(n: usize) -> CommMembership {
    let member = CommMember {
        rank: 1,
        world_rank: 2,
        node: 3,
        cuda_dev: 4,
        host_hash: 5,
        bus_id: 6,
    };
    CommMembership {
        ts: 3_000_000,
        rank: 9,
        world_rank: 10,
        comm_hash: 0xdef,
        n_nodes: 2,
        n_ranks: 4,
        comm_name: "world".to_string(),
        host: "node0".to_string(),
        ip: "10.0.0.1".to_string(),
        members: vec![member; n],
    }
}

#[test]
fn issued_collective() {
    let s = encode_ncclop_issue(&coll(), &BASE);
    assert_eq!(s.kind, SlotKind::CollStart.code());
    assert_eq!((s.ts, s.rank, s.comm_hash), (5_002_000, 3, 0xabc));
    assert_eq!((s.payload_bytes, s.seq_num, s.duration_us), (4096, 12, 0));
    assert_eq!((s.peer, s.group_id), (-1, 0));
    assert_eq!(unpack_str(&s.name), "ncclAllGather");
}

#[test]
fn issued_transfer() {
    let s = encode_ncclop_issue(&send(), &BASE);
    assert_eq!(s.kind, SlotKind::P2pStart.code());
    assert_eq!((s.is_send, s.peer, s.group_id, s.seq_num), (1, 6, 77, 0));
    assert_eq!(unpack_str(&s.name), "send");
}

#[test]
fn completed_operations() {
    let s = encode_ncclop_complete(&coll(), &BASE);
    assert_eq!(s.kind, SlotKind::CollComplete.code());
    assert_eq!((s.ts, s.duration_us), (5_002_000, 2_500));
    let mut open = send();
    open.info.end_time = None;
    let s = encode_ncclop_complete(&open, &BASE);
    assert_eq!(s.kind, SlotKind::P2pComplete.code());
    assert_eq!(s.duration_us, 0);
}

#[test]
fn start_and_seal_of_a_group() {
    let parent = P2pParent {
        group_id: 77,
        rank: 3,
        comm_hash: 0xabc,
        start_time: 3_000_000,
        end_time: 3_000_000,
        size: 10,
        n_children: 2,
        n_peers: 1,
        name: "sendrecv",
        children: vec![],
        partial: false,
        self_copy_size: 11,
    };
    let s = encode_p2p_group_start(&parent, &BASE);
    assert_eq!(s.kind, SlotKind::P2pGroupStart.code());
    assert_eq!((s.group_id, s.n_children, s.n_peers), (77, 2, 1));
    assert_eq!((s.payload_bytes, s.self_copy_size, s.ts), (10, 11, 5_002_000));
    assert_eq!(unpack_str(&s.name), "sendrecv");
    let seal = P2pGroupSeal { group_id: 77, n_children: 2, observed_at: 1_000_000 };
    let s = encode_p2p_group_seal(&seal, &BASE);
    assert_eq!(s.kind, SlotKind::P2pGroupSeal.code());
    assert_eq!((s.group_id, s.n_children, s.ts, s.rank), (77, 2, 5_000_000, -1));
    assert_eq!(unpack_str(&s.name), "P2P_GROUP_SEAL");
}

#[test]
fn copy_timing() {
    let mut c = KernelCopySummary {
        observed_at: 1_000_000,
        rank: 2,
        bytes: 100,
        copy_ns: 2_999,
        steps: 8,
    };
    let s = encode_kernel_copy(&c, &BASE);
    assert_eq!(s.kind, SlotKind::KernelCopy.code());
    assert_eq!((s.payload_bytes, s.step, s.duration_us, s.n_children), (100, 2_999, 2, 8));
    assert_eq!(unpack_str(&s.name), "KernelCopy");
    c.copy_ns = -2_999;
    assert_eq!(encode_kernel_copy(&c, &BASE).duration_us, -2);
}

#[test]
fn progress_markers() {
    let mut p = StepProgress {
        source: StepProgressSource::KernelCh,
        stage: StepProgressStage::Complete,
        observed_at: 2_000_000,
        parent_start: 1_000_000,
        rank: 2,
        comm_hash: 5,
        seq_num: 6,
        parent_group_id: None,
        parent_name: "ncclReduceScatter",
        is_send: false,
        peer: u32::MAX,
        channel_id: 4,
        step: 9,
        size: 10,
    };
    let s = encode_step_progress(&p, &BASE);
    assert_eq!(s.kind, SlotKind::StepProgress.code());
    assert_eq!((s.source, s.stage, s.is_send), (2, 1, 0));
    assert_eq!((s.ts, s.launch_ts), (5_001_000, 5_000_000));
    assert_eq!((s.peer, s.channel, s.step, s.size, s.group_id), (-1, 4, 9, 10, 0));
    assert_eq!(unpack_str(&s.name), "KernelCh");
    assert_eq!(unpack_str(&s.parent_name), "ncclReduceScatt");
    p.source = StepProgressSource::Proxy;
    p.stage = StepProgressStage::Posted;
    let s = encode_step_progress(&p, &BASE);
    assert_eq!((s.source, s.stage, unpack_str(&s.name).as_str()), (0, 0, "ProxyStep"));
}

#[test]
fn communicator_is_dumped_with_its_members() {
    let mut w = RingWriter::create(8, 1);
    let t = Telemetry::CommInit(membership(2));
    assert_eq!(ring_publish(&mut w, &t, &BASE), 3);
    let header = w.slot_at(0);
    assert_eq!(header.kind, SlotKind::CommInitHeader.code());
    assert_eq!((header.rank, header.world_rank, header.n_nodes, header.n_ranks), (9, 10, 2, 4));
    assert_eq!(unpack_str(&header.comm_name), "world");
    assert_eq!(unpack_str(&header.host), "node0");
    assert_eq!(unpack_str(&header.ip), "10.0.0.1");
    let member = w.slot_at(2);
    assert_eq!(member.kind, SlotKind::CommInitMember.code());
    assert_eq!((member.ts, member.rank, member.comm_hash), (header.ts, 9, 0xdef));
    assert_eq!((member.member_rank, member.member_world_rank), (1, 2));
    assert_eq!((member.member_node, member.member_cuda_dev), (3, 4));
    assert_eq!((member.member_host_hash, member.member_bus_id), (5, 6));
}

#[test]
fn dump_stops_where_the_ring_is_full() {
    let mut w = RingWriter::create(2, 1);
    let t = Telemetry::CommInit(membership(5));
    assert_eq!(ring_publish(&mut w, &t, &BASE), 2);
    assert_eq!(w.dropped(), 1);
    assert_eq!(ring_publish(&mut w, &t, &BASE), 0);
    assert_eq!(w.dropped(), 2);
}

#[test]
fn reader_makes_room_for_a_dump() {
    let mut w = RingWriter::create(2, 1);
    let t = Telemetry::CommInit(membership(3));
    let mut dump = Publication::of(&t, &BASE);
    assert!(dump.step(&mut w));
    assert!(dump.step(&mut w));
    w.observe_reader(2);
    assert!(dump.step(&mut w));
    assert!(!dump.step(&mut w));
    assert!(!dump.step(&mut w));
    assert_eq!((dump.written(), w.write_cursor(), w.dropped()), (4, 4, 0));
    assert_eq!(w.slot_at(3).kind, SlotKind::CommInitMember.code());

    let mut next = Publication::of(&t, &BASE);
    assert!(!next.step(&mut w));
    assert_eq!((next.written(), w.dropped()), (0, 1));
}

#[test]
fn bulk_records_do_not_reach_the_ring() {
    let mut w = RingWriter::create(2, 1);
    let group = Group { id: 1, rank: 0, start_time: 0, end_time: None, self_copy_size: 0 };
    for t in [
        Telemetry::Group(group),
        Telemetry::NcclOp(Box::new(coll())),
        Telemetry::CommClose(1),
    ] {
        assert_eq!(ring_publish(&mut w, &t, &BASE), 0);
    }
    assert_eq!(w.write_cursor(), 0);
    let issued = Telemetry::NcclOpIssued(Box::new(coll()));
    assert_eq!(ring_publish(&mut w, &issued, &BASE), 1);
}

#[test]
fn time_before_the_base_maps_to_it() {
    assert_eq!(BASE.instant_to_timestamp(0), 5_000_000_000);
    assert_eq!(BASE.to_us(1_002_500), 5_000_002);
}
