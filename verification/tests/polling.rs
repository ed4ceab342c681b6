use comma::clock::{TimeBase, NANOS_PER_MILLI, NANOS_PER_SEC};
use comma::config::{Config, Version};
use comma::daemon::{
    ControlMessage, Export, FifoReceiver, InterProcessMessage, Message, PollingContext, Telemetry,
    ThreadControl, ThreadState,
};
use comma::event::{
    EventStep, Group, KernelEventStep, NcclOp, OpInfo, ProxyOpExtra, ProxyOpInfo, StepProgress,
    StepProgressSource, StepProgressStage,
};
use comma::exporter::Exporter;
use comma::nccl_metadata::{Algo, CollDescr, CollOpType, NcclOpKey, OpDescr, OpKind, P2pDescr};
use comma::polling_pass::{
    expire_all_waiting, finish, handle_control, handle_ipc_all, handle_pass, ipc_recv_continues,
    pass_is_usable, receive_all, receive_pass, receive_rest, settle_pass, Queue,
    FIFO_RECV_BATCH,
};
use comma::polling_model::ReclaimPolicy;
use comma::profiler::{CommMembership, Communicator, Profiler};
use comma::rounds::{begin_round, end_round, last_round};
use comma::runtime_gates::{GateUpdate, RuntimeGates};
use comma::spsc::Receiver;
use std::sync::atomic::AtomicUsize;
use std::sync::Arc;

const PID: i32 = 7;
const NOW: u128 = 1000 * NANOS_PER_SEC;

struct NoopExport;

impl Export for NoopExport {
    fn export(&self, _ctx: &mut PollingContext, _maybe_retry_ms: Option<u64>) {}
}

/// Knows one connection.
struct OneHistogram;

impl Export for OneHistogram {
    fn export(&self, _ctx: &mut PollingContext, _maybe_retry_ms: Option<u64>) {}

    fn get_latency_histogram(&self, key: &NcclOpKey) -> Option<Vec<u64>> {
        if key.kind == OpKind::Net(3) {
            Some(vec![key.comm_hash, 99])
        } else {
            None
        }
    }
}

fn profiler() -> Profiler {
    let config = Config::default();
    Profiler {
        pid: PID,
        config,
        gates: RuntimeGates::new(&config, Version::V1),
        time_base: TimeBase { init_instant: 0, init_timestamp: 0 },
    }
}

fn info(id: usize, descr: OpDescr, start_time: u128) -> OpInfo {
    OpInfo {
        id,
        descr,
        rank: 1,
        comm_hash: 0xabc,
        byte_count: 4096,
        start_time,
        end_time: None,
        child_start_time: None,
        parent_group_id: None,
    }
}

fn coll(id: usize, start: u128) -> NcclOp {
    let descr = CollDescr { op_type: CollOpType::AllReduce, algo: Algo::Ring, seq_num: 5 };
    NcclOp::issued(info(id, OpDescr::Coll(descr), start))
}

fn p2p(id: usize, start: u128, is_send: bool, peer: i32, group: Option<u64>) -> NcclOp {
    let mut i = info(id, OpDescr::P2p(P2pDescr { is_send, peer }), start);
    i.parent_group_id = group;
    NcclOp::issued(i)
}

fn group(id: u64, self_copy_size: usize) -> Group {
    Group { id, rank: 1, start_time: 0, end_time: None, self_copy_size }
}

fn proxyop(id: u32, pid: i32, parent: Option<usize>) -> ProxyOpInfo {
    ProxyOpInfo { id, pid, rank: 1, peer: 3, channel_id: 0, is_send: true, parent }
}

fn step(start_time: u64, dur_ns: u64) -> EventStep {
    EventStep { step: 0, size: 65536, start_time, fifo_wait_dur_ns: None, dur_ns }
}

fn progress(parent: usize, source: StepProgressSource, at: u128, peer: u32) -> Message {
    Message::StepProgress {
        source,
        stage: StepProgressStage::Posted,
        observed_at: at,
        parent,
        is_send: true,
        peer,
        channel_id: 0,
        step: 0,
        size: 4096,
    }
}

fn handle(ctx: &mut PollingContext, t: &mut ThreadState, p: &Profiler, msg: Message) {
    ctx.handle_fifo_message(msg, t, &NoopExport, p, NOW);
}

fn thread() -> ThreadControl {
    ThreadControl::new(
        FifoReceiver::new(Receiver::new(), 0),
        FifoReceiver::new(Receiver::new(), 0),
    )
}

#[test]
fn completion_before_parent_is_preserved_and_late_progress_is_ignored() {
    let profiler = profiler();
    let mut ctx = PollingContext::new();
    let mut thread = ThreadState::default();
    let parent = 42;
    let child_start = NOW;
    let duration = 3 * NANOS_PER_MILLI;

    handle(&mut ctx, &mut thread, &profiler, Message::KernelCh(child_start, duration as u64, parent));
    assert!(ctx.early_completions.contains_key(&parent));
    assert!(!ctx.online_completed.contains(&parent));

    let op = coll(parent, child_start - NANOS_PER_MILLI);
    handle(&mut ctx, &mut thread, &profiler, Message::NcclOp(op));
    assert!(!ctx.early_completions.contains_key(&parent));
    assert!(ctx.online_completed.contains(&parent));
    assert!(matches!(ctx.pending_telemetry.pop_front(), Some(Telemetry::NcclOpIssued(_))));
    let complete = ctx.pending_telemetry.pop_front();
    match complete {
        Some(Telemetry::NcclOpComplete(op)) => {
            assert_eq!(op.info.end_time, Some(child_start + duration));
        }
        _ => panic!("expected online completion after launch record"),
    }

    let late = Message::StepProgress {
        source: StepProgressSource::Kernel,
        stage: StepProgressStage::Posted,
        observed_at: child_start + duration,
        parent,
        is_send: true,
        peer: 1,
        channel_id: 0,
        step: 0,
        size: 4096,
    };
    handle(&mut ctx, &mut thread, &profiler, late);
    assert!(ctx.active_progress.is_empty());
    assert!(ctx.pending_telemetry.is_empty());
}

#[test]
fn progress_before_parent_is_replayed_before_completion() {
    let profiler = profiler();
    let mut ctx = PollingContext::new();
    let mut thread = ThreadState::default();
    let parent = 44;
    let start = NOW;

    let early = Message::StepProgress {
        source: StepProgressSource::KernelCh,
        stage: StepProgressStage::Posted,
        observed_at: start,
        parent,
        is_send: true,
        peer: u32::MAX,
        channel_id: u8::MAX,
        step: -1,
        size: 0,
    };
    handle(&mut ctx, &mut thread, &profiler, early);
    assert_eq!(ctx.early_progress.get(&parent).map(Vec::len), Some(1));

    let op = coll(parent, start - NANOS_PER_MILLI);
    handle(&mut ctx, &mut thread, &profiler, Message::NcclOp(op));
    assert!(!ctx.early_progress.contains_key(&parent));
    assert_eq!(ctx.active_progress.len(), 1);
    assert!(matches!(ctx.pending_telemetry.pop_front(), Some(Telemetry::NcclOpIssued(_))));
    assert!(matches!(
        ctx.pending_telemetry.pop_front(),
        Some(Telemetry::StepProgress(StepProgress {
            source: StepProgressSource::KernelCh,
            stage: StepProgressStage::Posted,
            ..
        }))
    ));
}

#[test]
fn completion_closes_inflight_progress_before_emitting_collective_end() {
    let profiler = profiler();
    let mut ctx = PollingContext::new();
    let mut thread = ThreadState::default();
    let parent = 43;
    let start = NOW;

    handle(&mut ctx, &mut thread, &profiler, Message::NcclOp(coll(parent, start)));
    ctx.pending_telemetry.clear();
    let posted = Message::StepProgress {
        source: StepProgressSource::Proxy,
        stage: StepProgressStage::Posted,
        observed_at: start,
        parent,
        is_send: true,
        peer: 2,
        channel_id: 1,
        step: 7,
        size: 8192,
    };
    handle(&mut ctx, &mut thread, &profiler, posted);
    assert_eq!(ctx.active_progress.len(), 1);
    ctx.pending_telemetry.clear();

    handle(&mut ctx, &mut thread, &profiler, Message::KernelCh(start, 1_000, parent));
    assert!(ctx.active_progress.is_empty());
    assert!(matches!(
        ctx.pending_telemetry.pop_front(),
        Some(Telemetry::StepProgress(StepProgress { stage: StepProgressStage::Complete, .. }))
    ));
    assert!(matches!(ctx.pending_telemetry.pop_front(), Some(Telemetry::NcclOpComplete(_))));
}

/// Announces `n` collectives through a thread's queue, runs `rounds` rounds,
/// stops the daemon, and counts the collectives that reached the exporter.
fn reclaim_test_template(n: usize, start: u128, rounds: usize) -> usize {
    let p = profiler();
    let mut ctx = PollingContext::new();
    let mut threads = Vec::new();
    let mut t = thread();
    for id in 0..n {
        t.ncclop_fifo.hold(Message::NcclOp(coll(id, start)));
    }
    let mut profiler = p;
    handle_control(&mut threads, &mut profiler, ControlMessage::NewThread(t));
    let (tx, mut rx) = tokio::sync::mpsc::channel::<Telemetry>(n * 2);
    let exporter = Exporter::new(tx);
    for _ in 0..rounds {
        let out = begin_round(&mut ctx, &mut threads, &vec![], &NoopExport, &p, NOW);
        assert!(out.unwrap().is_empty());
        end_round(&mut ctx, &mut threads, &vec![], &p, NOW);
        assert!(ctx.ncclops.len() <= p.config.max_tracked_ncclop);
        exporter.export_pending(&mut ctx, false);
    }
    assert!(last_round(&mut ctx, &mut threads, &NoopExport, &p, NOW));
    assert_eq!(ctx.ncclops.len(), 0);
    assert!(!exporter.export_pending(&mut ctx, true));
    assert!(ctx.pending_telemetry.is_empty());
    let mut n_reported = 0;
    while let Ok(t) = rx.try_recv() {
        if matches!(t, Telemetry::NcclOp(_)) {
            n_reported += 1;
        }
    }
    n_reported
}

#[test]
fn reclaim_eventual() {
    assert_eq!(reclaim_test_template(50, NOW, 0), 50);
}

#[test]
fn reclaim_timeout() {
    let n = Config::default().max_tracked_ncclop - 1;
    assert_eq!(reclaim_test_template(n, NOW - 100 * NANOS_PER_SEC, 2), n);
}

#[test]
fn reclaim_force() {
    let n = Config::default().max_tracked_ncclop + 1000;
    assert_eq!(reclaim_test_template(n, NOW + 3600 * NANOS_PER_SEC, 9), n);
}

#[test]
fn completion_first_or_last_makes_no_difference() {
    let p = profiler();
    let mut ends = Vec::new();
    for first in [true, false] {
        let mut ctx = PollingContext::new();
        let mut t = ThreadState::default();
        if first {
            handle(&mut ctx, &mut t, &p, Message::KernelCh(NOW, 10, 1));
        }
        handle(&mut ctx, &mut t, &p, Message::NcclOp(coll(1, NOW)));
        if !first {
            handle(&mut ctx, &mut t, &p, Message::KernelCh(NOW, 10, 1));
        }
        assert_eq!(ctx.pending_telemetry.len(), 2);
        ends.push(ctx.ncclops[&1].info.end_time);
    }
    assert_eq!(ends, [Some(NOW + 10), Some(NOW + 10)]);
}

#[test]
fn early_spans_of_several_channels_are_merged() {
    let p = profiler();
    let mut ctx = PollingContext::new();
    let mut t = ThreadState::default();
    handle(&mut ctx, &mut t, &p, Message::KernelCh(NOW + 5, 10, 1));
    handle(&mut ctx, &mut t, &p, Message::KernelCh(NOW, 40, 1));
    assert_eq!(ctx.early_completions[&1], (NOW, NOW + 40));
}

#[test]
fn completion_is_reported_once() {
    let p = profiler();
    let mut ctx = PollingContext::new();
    let mut t = ThreadState::default();
    handle(&mut ctx, &mut t, &p, Message::NcclOp(coll(1, NOW)));
    handle(&mut ctx, &mut t, &p, Message::KernelCh(NOW, 10, 1));
    handle(&mut ctx, &mut t, &p, Message::KernelCh(NOW, 99, 1));
    assert_eq!(ctx.pending_telemetry.len(), 2);
    assert_eq!(ctx.ncclops[&1].info.end_time, Some(NOW + 10));
}

#[test]
fn one_marker_per_source_and_peer() {
    let p = profiler();
    let mut ctx = PollingContext::new();
    let mut t = ThreadState::default();
    handle(&mut ctx, &mut t, &p, Message::NcclOp(coll(1, NOW)));
    handle(&mut ctx, &mut t, &p, progress(1, StepProgressSource::Kernel, NOW, 2));
    handle(&mut ctx, &mut t, &p, progress(1, StepProgressSource::Kernel, NOW + 1, 2));
    handle(&mut ctx, &mut t, &p, progress(1, StepProgressSource::Proxy, NOW, 2));
    handle(&mut ctx, &mut t, &p, progress(1, StepProgressSource::Kernel, NOW, 3));
    assert_eq!(ctx.active_progress[&1].len(), 3);
    assert_eq!(ctx.pending_telemetry.len(), 4);
    let marker = ctx.active_progress[&1][0];
    assert_eq!((marker.seq_num, marker.parent_name), (5, "ncclAllReduce"));
}

#[test]
fn early_progress_is_kept_once() {
    let p = profiler();
    let mut ctx = PollingContext::new();
    let mut t = ThreadState::default();
    handle(&mut ctx, &mut t, &p, progress(1, StepProgressSource::Kernel, NOW, 2));
    handle(&mut ctx, &mut t, &p, progress(1, StepProgressSource::Kernel, NOW + 1, 2));
    assert_eq!(ctx.early_progress[&1].len(), 1);
    let mut done = progress(1, StepProgressSource::Proxy, NOW, 2);
    if let Message::StepProgress { stage, .. } = &mut done {
        *stage = StepProgressStage::Complete;
    }
    handle(&mut ctx, &mut t, &p, done);
    assert_eq!(ctx.early_progress[&1].len(), 1);
}

#[test]
fn group_is_reported_when_all_members_ended() {
    let p = profiler();
    let mut ctx = PollingContext::new();
    let mut t = ThreadState::default();
    for (id, is_send, peer) in [(2, true, 5), (1, false, 5), (3, true, 6)] {
        let op = p2p(id, NOW + id as u128, is_send, peer, Some(9));
        handle(&mut ctx, &mut t, &p, Message::NcclOp(op));
    }
    handle(&mut ctx, &mut t, &p, Message::KernelCh(NOW, 500, 3));
    handle(&mut ctx, &mut t, &p, Message::Group(group(9, 64)));
    ctx.pending_telemetry.clear();
    ctx.reclaim_all_ncclops_in_map(NOW);
    assert_eq!(ctx.pending_telemetry.len(), 1);
    match ctx.pending_telemetry.pop_front() {
        Some(Telemetry::P2pParent(r)) => {
            assert_eq!((r.group_id, r.name, r.n_peers, r.n_children), (9, "all_to_all", 2, 3));
            assert_eq!((r.size, r.self_copy_size, r.partial), (8192, 64, false));
            assert_eq!((r.start_time, r.end_time), (NOW + 1, NOW + 500));
            let ids: Vec<usize> = r.children.iter().map(|c| c.info.id).collect();
            assert_eq!(ids, [1, 2, 3]);
            assert!(r.children.iter().all(|c| c.info.parent_group_id.is_none()));
        }
        _ => panic!("expected a report of the group"),
    }
    assert!(ctx.p2p_groups.is_empty());
}

#[test]
fn names_of_groups() {
    let p = profiler();
    for (members, name) in [
        (vec![(true, 1)], "send"),
        (vec![(false, 1)], "recv"),
        (vec![(true, 1), (false, 1)], "sendrecv"),
        (vec![(false, 1), (false, 2)], "all_to_all"),
    ] {
        let mut ctx = PollingContext::new();
        let mut t = ThreadState::default();
        for (id, (is_send, peer)) in members.iter().enumerate() {
            let op = p2p(id, NOW, *is_send, *peer, Some(1));
            handle(&mut ctx, &mut t, &p, Message::NcclOp(op));
        }
        ctx.pending_telemetry.clear();
        ctx.reclaim_all_ncclops_in_map(NOW);
        assert!(ctx.pending_telemetry.is_empty());
        ctx.flush_p2p_parents();
        match ctx.pending_telemetry.pop_front() {
            Some(Telemetry::P2pParent(r)) => {
                assert_eq!(r.name, name);
                assert!(r.partial);
            }
            _ => panic!("expected a report of the group"),
        }
    }
}

#[test]
fn lone_transfer_is_a_group_of_its_own() {
    let p = profiler();
    let mut ctx = PollingContext::new();
    let mut t = ThreadState::default();
    handle(&mut ctx, &mut t, &p, Message::NcclOp(p2p(1, NOW, false, 4, None)));
    ctx.pending_telemetry.clear();
    ctx.reclaim_all_ncclops_in_map(NOW);
    match ctx.pending_telemetry.pop_front() {
        Some(Telemetry::P2pParent(r)) => {
            assert_eq!((r.group_id, r.name, r.size, r.partial), (0, "recv", 0, false));
            assert_eq!((r.start_time, r.end_time), (NOW, NOW));
        }
        _ => panic!("expected a report of the transfer"),
    }
}

#[test]
fn tracked_groups_are_reported() {
    let mut p = profiler();
    p.config.track_group = true;
    let mut ctx = PollingContext::new();
    let mut t = ThreadState::default();
    handle(&mut ctx, &mut t, &p, Message::Group(group(9, 64)));
    assert!(matches!(ctx.pending_telemetry.pop_front(), Some(Telemetry::Group(_))));
}

#[test]
fn steps_of_this_process_reach_their_operation() {
    let mut p = profiler();
    p.gates.apply_update(&GateUpdate { track_proxyop: Some(true), ..Default::default() });
    let mut ctx = PollingContext::new();
    let mut t = ThreadState::default();
    handle(&mut ctx, &mut t, &p, Message::NcclOp(coll(1, 50)));
    ctx.pending_telemetry.clear();
    let info = proxyop(8, PID, Some(1));
    handle(&mut ctx, &mut t, &p, Message::StepBatch(info, vec![step(100, 20)], false));
    assert_eq!(ctx.ncclops[&1].info.child_start_time, Some(100));
    handle(&mut ctx, &mut t, &p, Message::StepBatch(info, vec![], false));
    let extra = ProxyOpExtra { n_steps: 2, trans_size: 77 };
    handle(&mut ctx, &mut t, &p, Message::ProxyOpExtra(extra));
    handle(&mut ctx, &mut t, &p, Message::StepBatch(info, vec![step(90, 300)], true));
    assert!(t.proxyops.is_empty());
    assert!(t.aux_msg.is_empty());
    assert_eq!(ctx.ncclops[&1].info.end_time, Some(390));
    assert_eq!(ctx.ncclops[&1].proxyops.len(), 1);
    assert!(ctx.pending_telemetry.is_empty());
}

#[test]
fn whole_proxy_operation_moves_the_end() {
    let p = profiler();
    let mut ctx = PollingContext::new();
    let mut t = ThreadState::default();
    handle(&mut ctx, &mut t, &p, Message::NcclOp(coll(1, 50)));
    let info = proxyop(8, PID, Some(1));
    handle(&mut ctx, &mut t, &p, Message::ProxyOpLite(60, 40, info));
    assert_eq!(ctx.ncclops[&1].info.child_start_time, Some(60));
    assert_eq!(ctx.ncclops[&1].info.end_time, Some(100));
}

#[test]
fn histograms_are_asked_for_once() {
    let p = profiler();
    let mut ctx = PollingContext::new();
    let mut t = ThreadState::default();
    handle(&mut ctx, &mut t, &p, Message::NcclOp(coll(1, 50)));
    let msg = Message::StepBatch(proxyop(8, PID, Some(1)), vec![step(100, 20)], false);
    let key = ctx.message_histogram_key(&msg, &t, &p);
    assert_eq!(key, Some(NcclOpKey { comm_hash: 0xabc, local_rank: 1, kind: OpKind::Net(3) }));
    ctx.handle_fifo_message(msg, &mut t, &OneHistogram, &p, NOW);
    assert_eq!(t.proxyops[&8].histograms, Some(vec![0xabc, 99]));
    let again = Message::StepBatch(proxyop(8, PID, Some(1)), vec![step(100, 20)], false);
    assert_eq!(ctx.message_histogram_key(&again, &t, &p), None);
}

#[test]
fn other_processes_hear_of_their_proxy_operations() {
    let mut p = profiler();
    p.gates.apply_update(&GateUpdate { track_steps: Some(true), ..Default::default() });
    let mut ctx = PollingContext::new();
    let mut threads = vec![thread()];
    let info = proxyop(8, 55, Some(1));
    {
        let t = &mut threads[0].daemon_state;
        handle(&mut ctx, t, &p, Message::StepBatch(info, vec![step(100, 20)], true));
        assert!(t.pending_comm_hash_proxyops.contains_key(&8));
    }
    assert!(ctx.pending_telemetry.is_empty());
    assert_eq!(ctx.ipc_peers(), [55]);
    assert_eq!(
        ctx.ipc_batch(55),
        [
            InterProcessMessage::ProxyOpStart(1, PID, 0, 8, 100),
            InterProcessMessage::ProxyOpEnd(1, 120),
        ]
    );
    let reply = vec![InterProcessMessage::ReplyProxyOpComm(0, 8, 0xdef)];
    handle_ipc_all(&mut ctx, &mut threads, &OneHistogram, &reply, &p, NOW);
    assert!(threads[0].daemon_state.pending_comm_hash_proxyops.is_empty());
    match ctx.pending_telemetry.pop_front() {
        Some(Telemetry::ProxyOp(op)) => assert_eq!(op.histograms, Some(vec![0xdef, 99])),
        _ => panic!("expected the proxy operation"),
    }
}

#[test]
fn start_of_a_foreign_proxy_operation_is_answered() {
    let p = profiler();
    let mut ctx = PollingContext::new();
    let mut threads = vec![thread()];
    handle(&mut ctx, &mut threads[0].daemon_state, &p, Message::NcclOp(coll(1, 50)));
    let msgs = vec![
        InterProcessMessage::ProxyOpStart(1, 55, 4, 8, 60),
        InterProcessMessage::ProxyOpStart(2, 55, 4, 9, 60),
        InterProcessMessage::ProxyOpEnd(1, 70),
    ];
    handle_ipc_all(&mut ctx, &mut threads, &NoopExport, &msgs, &p, NOW);
    assert_eq!(ctx.ipc_batch(55), [InterProcessMessage::ReplyProxyOpComm(4, 8, 0xabc)]);
    assert_eq!(ctx.ncclops[&1].info.end_time, Some(70));
}

#[test]
fn waiting_ends_with_the_timeout() {
    let mut p = profiler();
    p.gates.apply_update(&GateUpdate { track_steps: Some(true), ..Default::default() });
    let mut ctx = PollingContext::new();
    let mut threads = vec![thread()];
    let info = proxyop(8, 55, Some(1));
    let msg = Message::StepBatch(info, vec![step(100, 20)], true);
    handle(&mut ctx, &mut threads[0].daemon_state, &p, msg);
    let limit = Some(p.config.comm_hash_ipc_timeout);
    expire_all_waiting(&mut ctx, &mut threads, limit, &p, NOW + NANOS_PER_SEC);
    assert!(ctx.pending_telemetry.is_empty());
    expire_all_waiting(&mut ctx, &mut threads, limit, &p, NOW + NANOS_PER_SEC + 1);
    assert!(matches!(ctx.pending_telemetry.pop_front(), Some(Telemetry::ProxyOp(_))));
    assert!(threads[0].daemon_state.pending_comm_hash_proxyops.is_empty());
}

#[test]
fn sending_stops_at_the_batch_and_at_a_failure() {
    let mut ctx = PollingContext::new();
    for i in 0..70 {
        ctx.append_ipc_message(5, InterProcessMessage::ProxyOpEnd(i, 0));
    }
    assert_eq!(ctx.ipc_batch(5).len(), 64);
    ctx.ipc_delivered(5, 64);
    assert_eq!(ctx.ipc_batch(5).len(), 6);
    ctx.ipc_delivered(5, 2);
    assert_eq!(ctx.ipc_batch(5)[0], InterProcessMessage::ProxyOpEnd(66, 0));
    ctx.ipc_delivered(5, 4);
    assert!(ctx.ipc_peers().is_empty());
    assert!(ipc_recv_continues(512));
    assert!(!ipc_recv_continues(513));
}

#[test]
fn kernel_steps_and_communicators_pass_through() {
    let p = profiler();
    let mut ctx = PollingContext::new();
    let mut t = ThreadState::default();
    handle(&mut ctx, &mut t, &p, Message::NcclOp(coll(1, 50)));
    let kernel_step = KernelEventStep {
        channel_id: 0,
        peer: 1,
        is_send: true,
        step: 0,
        size: 1,
        start_ns: 0,
        ready_ns: 1,
        end_ns: 2,
    };
    handle(&mut ctx, &mut t, &p, Message::KernelStep(kernel_step, 1));
    handle(&mut ctx, &mut t, &p, Message::KernelStep(kernel_step, 2));
    assert_eq!(ctx.ncclops[&1].kernel_steps.len(), 1);
    ctx.pending_telemetry.clear();
    let comm = Communicator { comm_hash: Some(1), total_net_bytes: Arc::new(AtomicUsize::new(0)) };
    handle(&mut ctx, &mut t, &p, Message::CommOpen(comm));
    let membership = CommMembership {
        ts: 0,
        rank: 0,
        world_rank: 0,
        comm_hash: 1,
        n_nodes: 1,
        n_ranks: 1,
        comm_name: String::new(),
        host: String::new(),
        ip: String::new(),
        members: vec![],
    };
    handle(&mut ctx, &mut t, &p, Message::CommInit(membership));
    handle(&mut ctx, &mut t, &p, Message::CommClose(1));
    assert!(matches!(ctx.pending_telemetry.pop_front(), Some(Telemetry::CommOpen(_))));
    assert!(matches!(ctx.pending_telemetry.pop_front(), Some(Telemetry::CommInit(_))));
    assert!(matches!(ctx.pending_telemetry.pop_front(), Some(Telemetry::CommClose(1))));
}

#[test]
fn unknown_proxy_operation_takes_its_extra_facts_along() {
    let p = profiler();
    let mut ctx = PollingContext::new();
    let mut t = ThreadState::default();
    let extra = ProxyOpExtra { n_steps: 2, trans_size: 77 };
    handle(&mut ctx, &mut t, &p, Message::ProxyOpExtra(extra));
    handle(&mut ctx, &mut t, &p, Message::ProxyOp(3));
    assert!(t.aux_msg.is_empty());
    assert!(ctx.pending_telemetry.is_empty());
}

#[test]
fn aged_sweep_looks_at_one_more_than_its_batch() {
    let p = profiler();
    let mut ctx = PollingContext::new();
    let mut t = ThreadState::default();
    for id in 0..600 {
        handle(&mut ctx, &mut t, &p, Message::NcclOp(coll(id, NOW - 11 * NANOS_PER_SEC)));
    }
    ctx.reclaim_pass(&p.config, NOW);
    assert_eq!(ctx.ncclops.len(), 600 - 513);
    assert_eq!(ctx.ncclops.keys().next(), Some(&513));
}

#[test]
fn sweeps_keep_the_young_and_drop_the_done() {
    let p = profiler();
    let mut ctx = PollingContext::new();
    let mut t = ThreadState::default();
    handle(&mut ctx, &mut t, &p, Message::NcclOp(coll(1, NOW - NANOS_PER_SEC)));
    handle(&mut ctx, &mut t, &p, Message::NcclOp(coll(2, NOW - 5 * NANOS_PER_SEC)));
    handle(&mut ctx, &mut t, &p, Message::KernelCh(NOW - 4 * NANOS_PER_SEC, 1, 2));
    ctx.reclaim_pass(&p.config, NOW);
    assert!(ctx.ncclops.contains_key(&1));
    assert!(!ctx.ncclops.contains_key(&2));
    ctx.try_reclaim_ncclops_from_map(ReclaimPolicy::Oldest { n: 0 }, NOW);
    assert!(ctx.ncclops.contains_key(&1));
}

#[test]
fn empty_batch_of_an_unknown_operation_is_not_usable() {
    let mut t = thread();
    let info = proxyop(8, PID, None);
    t.fifo.hold(Message::StepBatch(info, vec![], false));
    let mut threads = vec![t];
    receive_all(&mut threads, Queue::Events, 10, true, NOW);
    assert!(!threads[0].queue_is_usable(Queue::Events, 10));
    assert!(threads[0].queue_is_usable(Queue::Ncclops, 10));

    let mut t = thread();
    t.fifo.hold(Message::StepBatch(info, vec![step(1, 1)], false));
    t.fifo.hold(Message::StepBatch(info, vec![], true));
    t.fifo.hold(Message::StepBatch(info, vec![], true));
    let mut threads = vec![t];
    receive_all(&mut threads, Queue::Events, 10, true, NOW);
    assert!(threads[0].queue_is_usable(Queue::Events, 2));
    assert!(!threads[0].queue_is_usable(Queue::Events, 3));
}

#[test]
fn queues_hand_on_in_order() {
    let mut f: FifoReceiver<u32> = FifoReceiver::new(Receiver::new(), 0);
    for i in 0..5 {
        f.hold(i);
    }
    assert_eq!(f.recv_many(10, 100, false, 5), 0);
    assert_eq!(f.recv_many(10, 1, false, 11), 2);
    assert_eq!(f.recv_many(10, 100, false, 11), 3);
    assert_eq!(f.process_many(0), [0]);
    assert_eq!(f.process_many(3), [1, 2, 3]);
    assert_eq!(f.n_pending(), 1);
    assert_eq!(*f.pending_at(0), 4);
    f.hold(6);
    f.fetch_from_sender();
    assert_eq!(f.recv_many(10, 100, false, 11), 1);
    assert_eq!(f.process_many(100), [4, 6]);
}

#[test]
fn new_threads_learn_their_place() {
    let mut p = profiler();
    let mut threads = Vec::new();
    handle_control(&mut threads, &mut p, ControlMessage::NewThread(thread()));
    handle_control(&mut threads, &mut p, ControlMessage::NewThread(thread()));
    assert_eq!(threads[1].daemon_state.idx, 1);
    let update = GateUpdate { track_group: Some(true), ..Default::default() };
    handle_control(&mut threads, &mut p, ControlMessage::SetGates(update));
    assert!(p.gates.track_group());
}

#[test]
fn pass_handles_announcements_before_events() {
    let p = profiler();
    let mut ctx = PollingContext::new();
    let mut t = thread();
    t.fifo.hold(Message::KernelCh(NOW - 5 * NANOS_PER_SEC, 10, 1));
    t.fifo.hold(Message::StepBatch(proxyop(8, PID, None), vec![step(1, 1)], false));
    t.ncclop_fifo.hold(Message::NcclOp(coll(1, NOW - 6 * NANOS_PER_SEC)));
    let mut threads = vec![t];
    assert!(receive_all(&mut threads, Queue::Events, FIFO_RECV_BATCH, true, NOW));
    assert!(receive_all(&mut threads, Queue::Ncclops, FIFO_RECV_BATCH, true, NOW));
    assert!(!receive_all(&mut threads, Queue::Ncclops, FIFO_RECV_BATCH, true, NOW));
    assert!(threads[0].is_usable(10, 10));
    let ipc = vec![InterProcessMessage::ProxyOpStart(1, 55, 4, 8, 60)];
    handle_pass(&mut ctx, &mut threads, &ipc, 10, 10, &NoopExport, &p, NOW);
    assert!(ctx.early_completions.is_empty());
    assert!(ctx.online_completed.contains(&1));
    assert_eq!(ctx.ipc_batch(55), [InterProcessMessage::ReplyProxyOpComm(4, 8, 0xabc)]);
    assert!(threads[0].daemon_state.proxyops.contains_key(&8));
    settle_pass(&mut ctx, &mut threads, &p, NOW);
    assert!(ctx.ncclops.is_empty());
}

#[test]
fn usable_queues_depend_on_each_other() {
    let mut t = thread();
    let info = proxyop(8, PID, None);
    t.ncclop_fifo.hold(Message::StepBatch(info, vec![step(1, 1)], false));
    t.fifo.hold(Message::StepBatch(info, vec![], false));
    let mut threads = vec![t];
    receive_all(&mut threads, Queue::Events, 10, true, NOW);
    receive_all(&mut threads, Queue::Ncclops, 10, true, NOW);
    assert!(!threads[0].queue_is_usable(Queue::Events, 10));
    assert!(threads[0].is_usable(10, 10));
}

#[test]
fn announcements_come_along_with_events() {
    let mut quiet = thread();
    quiet.ncclop_fifo = FifoReceiver::new(Receiver::new(), NOW);
    quiet.fifo = FifoReceiver::new(Receiver::new(), NOW);
    quiet.ncclop_fifo.hold(Message::NcclOp(coll(1, NOW)));
    let mut threads = vec![quiet];
    receive_pass(&mut threads, false, NOW);
    assert_eq!(threads[0].ncclop_fifo.n_pending(), 0);
    receive_pass(&mut threads, true, NOW);
    assert_eq!(threads[0].ncclop_fifo.n_pending(), 1);

    threads[0].ncclop_fifo.hold(Message::NcclOp(coll(2, NOW)));
    threads[0].fifo.hold(Message::CommClose(3));
    receive_pass(&mut threads, false, NOW);
    assert_eq!(threads[0].fifo.n_pending(), 0);
    assert_eq!(threads[0].ncclop_fifo.n_pending(), 1);
    threads[0].fifo.fetch_from_sender();
    receive_pass(&mut threads, false, NOW);
    assert_eq!(threads[0].fifo.n_pending(), 1);
    assert_eq!(threads[0].ncclop_fifo.n_pending(), 2);
}

#[test]
fn nothing_is_left_behind_at_the_end() {
    let mut t = thread();
    for id in 0..3 {
        t.ncclop_fifo.hold(Message::NcclOp(coll(id, NOW)));
        t.fifo.hold(Message::CommClose(id as u64));
    }
    let mut threads = vec![t, thread()];
    receive_rest(&mut threads, NOW);
    assert_eq!(threads[0].ncclop_fifo.n_pending(), 3);
    assert_eq!(threads[0].fifo.n_pending(), 3);
    assert_eq!(threads[1].fifo.n_pending(), 0);
}

#[test]
fn transfers_are_told_once_however_they_leave() {
    let p = profiler();
    let mut ctx = PollingContext::new();
    let mut t = thread();
    let old = NOW - 20 * NANOS_PER_SEC;
    // 1 and 2 leave by their age, 3 and 4 when the daemon stops.
    for (id, start, home) in [(1, old, Some(9)), (2, old, None), (3, NOW, Some(9)), (4, NOW, None)] {
        t.ncclop_fifo.hold(Message::NcclOp(p2p(id, start, true, 5, home)));
    }
    t.ncclop_fifo.hold(Message::NcclOp(coll(5, old)));
    t.fifo.hold(Message::Group(group(9, 0)));
    let mut threads = vec![t];
    receive_rest(&mut threads, NOW);
    handle_pass(&mut ctx, &mut threads, &vec![], 10, 10, &NoopExport, &p, NOW);
    settle_pass(&mut ctx, &mut threads, &p, NOW);
    assert_eq!(ctx.ncclops.len(), 2);
    let told = |ctx: &PollingContext, id: usize| -> usize {
        ctx.pending_telemetry
            .iter()
            .map(|r| match r {
                Telemetry::NcclOp(op) => (op.info.id == id) as usize,
                Telemetry::P2pParent(g) => g.children.iter().filter(|c| c.info.id == id).count(),
                _ => 0,
            })
            .sum()
    };
    assert_eq!([1, 2, 3, 4, 5].map(|id| told(&ctx, id)), [0, 1, 0, 0, 1]);
    finish(&mut ctx, &mut threads, &p, NOW);
    assert!(ctx.ncclops.is_empty());
    assert_eq!([1, 2, 3, 4, 5].map(|id| told(&ctx, id)), [1, 1, 1, 1, 1]);
}

#[test]
fn passes_that_cannot_be_handled_are_told() {
    let mut threads = vec![thread()];
    let reply = |idx| vec![InterProcessMessage::ReplyProxyOpComm(idx, 8, 1)];
    assert!(pass_is_usable(&threads, &reply(0), 10, 10));
    assert!(!pass_is_usable(&threads, &reply(1), 10, 10));
    threads[0].fifo.hold(Message::StepBatch(proxyop(8, PID, None), vec![], false));
    receive_rest(&mut threads, NOW);
    assert!(!pass_is_usable(&threads, &vec![], 10, 10));
}

#[test]
fn single_steps_are_kept_where_they_are_tracked() {
    let mut p = profiler();
    for (track, aggregate) in [(true, true), (true, false), (false, true), (false, false)] {
        p.gates.apply_update(&GateUpdate {
            track_steps: Some(track),
            aggregate_steps: Some(aggregate),
            ..Default::default()
        });
        let mut ctx = PollingContext::new();
        let mut t = ThreadState::default();
        handle(&mut ctx, &mut t, &p, Message::NcclOp(coll(1, 50)));
        let steps = vec![step(100, 20), step(90, 300)];
        let msg = Message::StepBatch(proxyop(8, PID, Some(1)), steps.clone(), false);
        ctx.handle_fifo_message(msg, &mut t, &OneHistogram, &p, NOW);
        let op = &t.proxyops[&8];
        assert_eq!(op.steps, if track { steps.clone() } else { vec![] });
        assert!(op.unsampled.is_empty());
        assert_eq!((op.core.start_time, op.core.end_time), (90, Some(390)));
        let (a, b) = (steps[0], steps[1]);
        let samples = vec![(0xabc, a), (99, a), (0xabc, b), (99, b)];
        assert_eq!(ctx.take_samples(), if aggregate { samples } else { vec![] });
        assert!(ctx.take_samples().is_empty());
    }
}

#[test]
fn aggregated_steps_wait_for_their_histograms() {
    let p = profiler();
    let mut ctx = PollingContext::new();
    let mut threads = vec![thread()];
    let (a, b) = (step(100, 20), step(130, 20));
    let info = proxyop(8, 55, Some(1));
    let t = &mut threads[0].daemon_state;
    ctx.handle_fifo_message(Message::StepBatch(info, vec![a], false), t, &OneHistogram, &p, NOW);
    assert_eq!(t.proxyops[&8].unsampled, [a]);
    assert!(t.proxyops[&8].steps.is_empty());
    assert!(ctx.take_samples().is_empty());

    let reply = vec![InterProcessMessage::ReplyProxyOpComm(0, 8, 0xdef)];
    handle_ipc_all(&mut ctx, &mut threads, &OneHistogram, &reply, &p, NOW);
    assert!(threads[0].daemon_state.proxyops[&8].unsampled.is_empty());
    assert_eq!(ctx.take_samples(), [(0xdef, a), (99, a)]);

    let t = &mut threads[0].daemon_state;
    ctx.handle_fifo_message(Message::StepBatch(info, vec![b], true), t, &OneHistogram, &p, NOW);
    assert_eq!(ctx.take_samples(), [(0xdef, b), (99, b)]);

    // An operation that ended before the reply keeps its steps for it.
    let info = proxyop(9, 55, Some(1));
    let t = &mut threads[0].daemon_state;
    ctx.handle_fifo_message(Message::StepBatch(info, vec![b], true), t, &OneHistogram, &p, NOW);
    assert!(ctx.take_samples().is_empty());
    let reply = vec![InterProcessMessage::ReplyProxyOpComm(0, 9, 0xdef)];
    handle_ipc_all(&mut ctx, &mut threads, &OneHistogram, &reply, &p, NOW);
    assert_eq!(ctx.take_samples(), [(0xdef, b), (99, b)]);
}

#[test]
fn rounds_send_what_waits_and_keep_what_did_not_go() {
    let p = profiler();
    let mut ctx = PollingContext::new();
    let mut t = thread();
    t.fifo.hold(Message::StepBatch(proxyop(8, 55, Some(1)), vec![step(100, 20)], true));
    t.fifo.hold(Message::StepBatch(proxyop(9, 44, Some(2)), vec![step(110, 20)], true));
    let mut threads = vec![t];
    let out = begin_round(&mut ctx, &mut threads, &vec![], &NoopExport, &p, NOW).unwrap();
    assert_eq!(out.iter().map(|o| (o.pid, o.msgs.len())).collect::<Vec<_>>(), [(44, 2), (55, 2)]);
    assert_eq!(out[1].msgs[1], InterProcessMessage::ProxyOpEnd(1, 120));
    end_round(&mut ctx, &mut threads, &vec![(44, 2), (55, 1)], &p, NOW);
    assert_eq!(threads[0].daemon_state.pending_comm_hash_proxyops.len(), 2);
    assert_eq!(ctx.ipc_peers(), [55]);

    let late = NOW + 2 * NANOS_PER_SEC;
    let out = begin_round(&mut ctx, &mut threads, &vec![], &NoopExport, &p, late).unwrap();
    assert_eq!(out.len(), 1);
    assert_eq!(out[0].msgs, [InterProcessMessage::ProxyOpEnd(1, 120)]);
    end_round(&mut ctx, &mut threads, &vec![(55, 0)], &p, late);
    assert!(threads[0].daemon_state.pending_comm_hash_proxyops.is_empty());
    assert_eq!(ctx.ipc_peers(), [55]);

    let mut alone = p;
    alone.config.track_interprocess_proxyop = false;
    assert!(begin_round(&mut ctx, &mut threads, &vec![], &NoopExport, &alone, late)
        .unwrap()
        .is_empty());
}

#[test]
fn rounds_that_cannot_be_handled_change_nothing_but_the_queues() {
    let p = profiler();
    let mut ctx = PollingContext::new();
    let mut t = thread();
    t.ncclop_fifo.hold(Message::NcclOp(coll(1, NOW)));
    t.fifo.hold(Message::StepBatch(proxyop(8, PID, None), vec![], false));
    let mut threads = vec![t];
    assert!(begin_round(&mut ctx, &mut threads, &vec![], &NoopExport, &p, NOW).is_none());
    assert!(!last_round(&mut ctx, &mut threads, &NoopExport, &p, NOW));
    assert!(ctx.ncclops.is_empty() && ctx.pending_telemetry.is_empty());
    assert_eq!(threads[0].ncclop_fifo.n_pending(), 1);
    assert_eq!(threads[0].fifo.n_pending(), 1);
}

#[test]
fn announcements_are_told_once_over_a_whole_run() {
    let p = profiler();
    let mut ctx = PollingContext::new();
    let mut threads = vec![thread()];
    let (tx, mut rx) = tokio::sync::mpsc::channel::<Telemetry>(64);
    let exporter = Exporter::new(tx);
    for id in 0..3 {
        let at = NOW + id as u128 * 20 * NANOS_PER_SEC;
        threads[0].ncclop_fifo.hold(Message::NcclOp(coll(id, at)));
        assert!(begin_round(&mut ctx, &mut threads, &vec![], &NoopExport, &p, at).is_some());
        end_round(&mut ctx, &mut threads, &vec![], &p, at);
        exporter.export_pending(&mut ctx, false);
    }
    threads.push(thread());
    threads[1].ncclop_fifo.hold(Message::NcclOp(coll(3, NOW)));
    assert!(last_round(&mut ctx, &mut threads, &NoopExport, &p, NOW + 60 * NANOS_PER_SEC));
    exporter.export_pending(&mut ctx, true);
    let mut told = Vec::new();
    while let Ok(t) = rx.try_recv() {
        if let Telemetry::NcclOp(op) = t {
            told.push(op.info.id);
        }
    }
    assert_eq!(told, [0, 1, 2, 3]);
    assert!(ctx.ncclops.is_empty());
}
