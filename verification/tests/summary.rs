use comma::daemon::Telemetry;
use comma::event::{NcclOp, OpInfo, P2pParent};
use comma::nccl_metadata::{Algo, CollDescr, CollOpType, OpDescr, P2pDescr};
use comma::profiler::Communicator;
use comma::summary::CollectiveSummary;
use std::collections::BTreeMap;
use std::sync::atomic::AtomicUsize;
use std::sync::Arc;

fn info(descr: OpDescr, byte_count: usize) -> OpInfo {
    OpInfo {
        id: 1,
        descr,
        rank: 3,
        comm_hash: 0xabc,
        byte_count,
        start_time: 0,
        end_time: Some(500),
        child_start_time: Some(100),
        parent_group_id: None,
    }
}

fn coll(op_type: CollOpType, seq_num: u64, byte_count: usize) -> NcclOp {
    NcclOp::issued(info(OpDescr::Coll(CollDescr { op_type, algo: Algo::Ring, seq_num }), byte_count))
}

fn send(byte_count: usize) -> NcclOp {
    NcclOp::issued(info(OpDescr::P2p(P2pDescr { is_send: true, peer: 1 }), byte_count))
}

fn comm(hash: Option<u64>, bytes: usize) -> Communicator {
    Communicator { comm_hash: hash, total_net_bytes: Arc::new(AtomicUsize::new(bytes)) }
}

#[test]
fn operations_are_counted_by_key_and_size() {
    let mut s = CollectiveSummary::new();
    s.add_op(&coll(CollOpType::AllReduce, 1, 64));
    s.add_op(&coll(CollOpType::AllReduce, 2, 64));
    s.add_op(&coll(CollOpType::AllReduce, 3, 128));
    s.add_op(&coll(CollOpType::Reduce, 4, 64));
    assert_eq!(s.tallies.len(), 2);
    assert_eq!(s.tallies[0].sizes.counts, BTreeMap::from([(64, 2), (128, 1)]));
    assert_eq!(s.tallies[0].latencies.counts, BTreeMap::from([((64, 400), 2), ((128, 400), 1)]));
    assert_eq!(s.tallies[1].sizes.counts, BTreeMap::from([(64, 1)]));
}

#[test]
fn operation_without_an_end_has_no_latency() {
    let mut s = CollectiveSummary::new();
    let mut op = coll(CollOpType::AllReduce, 1, 64);
    op.info.end_time = None;
    s.add_op(&op);
    assert!(s.tallies[0].latencies.counts.is_empty());
}

#[test]
fn members_of_a_group_count_one_by_one() {
    let mut s = CollectiveSummary::new();
    let parent = P2pParent {
        group_id: 0,
        rank: 0,
        comm_hash: 0,
        start_time: 0,
        end_time: 0,
        size: 0,
        n_children: 2,
        n_peers: 1,
        name: "send",
        children: vec![send(8), send(8)],
        partial: false,
        self_copy_size: 0,
    };
    s.record(&Telemetry::P2pParent(Box::new(parent)), 0);
    assert_eq!(s.tallies[0].sizes.counts, BTreeMap::from([(8, 2)]));
}

#[test]
fn issues_are_noted_per_collective() {
    let mut s = CollectiveSummary::new();
    s.record(&Telemetry::NcclOpIssued(Box::new(coll(CollOpType::AllReduce, 1, 64))), 0);
    s.record(&Telemetry::NcclOpIssued(Box::new(coll(CollOpType::Reduce, 9, 32))), 0);
    s.record(&Telemetry::NcclOpIssued(Box::new(coll(CollOpType::AllReduce, 2, 65))), 0);
    s.record(&Telemetry::NcclOpIssued(Box::new(send(1))), 0);
    assert_eq!(s.active_comm.len(), 1);
    let c = &s.active_comm[&0xabc];
    assert_eq!(c.rank, Some(3));
    assert_eq!(c.colls.len(), 2);
    assert_eq!((c.colls[0].seq_num, c.colls[0].op_size, c.colls[0].algo), (2, 65, Algo::Ring));
    assert!(s.tallies.is_empty());
}

#[test]
fn heartbeat_tells_of_open_and_closed_communicators() {
    let mut s = CollectiveSummary::new();
    s.record(&Telemetry::CommOpen(comm(Some(5), 70)), 0);
    s.record(&Telemetry::CommOpen(comm(Some(5), 99)), 0);
    s.record(&Telemetry::CommOpen(comm(None, 1)), 0);
    s.record(&Telemetry::NcclOpIssued(Box::new(coll(CollOpType::AllReduce, 1, 64))), 0);
    s.record(&Telemetry::CommClose(0xabc), 1234);
    s.record(&Telemetry::CommClose(0xdead), 1234);
    let h = s.generate_heartbeat(&Some(Arc::new(AtomicUsize::new(8))));
    assert_eq!(h.active_comm.len(), 1);
    assert_eq!((h.active_comm[0].comm_hash, h.active_comm[0].net_bytes), (5, Some(70)));
    assert_eq!(h.closed_comm.len(), 1);
    assert_eq!((h.closed_comm[0].comm_hash, h.closed_comm[0].rank), (0xabc, Some(3)));
    assert_eq!(h.closed_comm[0].close_time, 1234);
    assert_eq!(h.remote_comm_bytes, Some(8));
    let h = s.generate_heartbeat(&None);
    assert!(h.closed_comm.is_empty());
    assert_eq!(h.remote_comm_bytes, None);
}

#[test]
fn heartbeat_of_given_counters() {
    let mut s = CollectiveSummary::new();
    s.record_comm_open(&comm(Some(9), 0));
    s.record_comm_open(&comm(Some(5), 0));
    let h = s.heartbeat(&BTreeMap::from([(9, 1)]), None);
    let told: Vec<(u64, Option<u64>)> =
        h.active_comm.iter().map(|c| (c.comm_hash, c.net_bytes)).collect();
    assert_eq!(told, [(5, None), (9, Some(1))]);
}
