use comma::daemon::Telemetry;
use comma::delivery::{
    collect_histograms, connection_queries, tick_acts, tick_enabled, ConnectionType, ExportEvent,
    ExportLoop, ExportSettings, LaneStates, Sinks, Tick, TraceRecord, SEND_LATENCY_METRIC,
};
use comma::event::{
    Group, KernelCopySummary, NcclOp, OpInfo, P2pGroupSeal, StepProgress, StepProgressSource,
    StepProgressStage,
};
use comma::exporter::{is_deadline_telemetry, is_online_evidence, Attempt, Exporter, Lane};
use comma::nccl_metadata::{Algo, CollDescr, CollOpType, OpDescr};
use comma::polling::PollingContext;
use tokio::sync::mpsc;

fn op() -> NcclOp {
    let descr = CollDescr { op_type: CollOpType::AllReduce, algo: Algo::Ring, seq_num: 5 };
    NcclOp::issued(OpInfo {
        id: 1,
        descr: OpDescr::Coll(descr),
        rank: 0,
        comm_hash: 0,
        byte_count: 0,
        start_time: 0,
        end_time: None,
        child_start_time: None,
        parent_group_id: None,
    })
}

fn group(id: u64) -> Telemetry {
    Telemetry::Group(Group { id, rank: 0, start_time: 0, end_time: None, self_copy_size: 0 })
}

fn evidence() -> Telemetry {
    Telemetry::KernelCopy(KernelCopySummary {
        observed_at: 0,
        rank: 0,
        bytes: 0,
        copy_ns: 0,
        steps: 0,
    })
}

fn group_id(t: Option<Telemetry>) -> u64 {
    match t {
        Some(Telemetry::Group(g)) => g.id,
        _ => panic!("expected a group"),
    }
}

#[test]
fn p2p_seal_uses_deadline_lane() {
    let seal = Telemetry::P2pGroupSeal(P2pGroupSeal { group_id: 7, n_children: 4, observed_at: 0 });
    assert!(is_deadline_telemetry(&seal));
    assert!(!is_online_evidence(&seal));
}

#[test]
fn evidence_has_no_deadline() {
    let progress = Telemetry::StepProgress(StepProgress {
        source: StepProgressSource::Proxy,
        stage: StepProgressStage::Posted,
        observed_at: 0,
        parent_start: 0,
        rank: 0,
        comm_hash: 0,
        seq_num: 0,
        parent_group_id: None,
        parent_name: "send",
        is_send: true,
        peer: 0,
        channel_id: 0,
        step: 0,
        size: 0,
    });
    for t in [progress, evidence()] {
        assert!(is_online_evidence(&t));
        assert!(!is_deadline_telemetry(&t));
    }
    assert!(!is_online_evidence(&group(1)));
    assert!(!is_deadline_telemetry(&group(1)));
}

#[test]
fn full_lane_lets_the_others_pass() {
    let (tx, mut rx) = mpsc::channel(1);
    let (online_tx, mut online_rx) = mpsc::channel(1);
    let (deadline_tx, mut deadline_rx) = mpsc::channel(1);
    let exporter =
        Exporter { tx, online_tx: Some(online_tx), deadline_tx: Some(deadline_tx) };
    let mut ctx = PollingContext::new();
    ctx.pending_telemetry.push_back(group(1));
    ctx.pending_telemetry.push_back(group(2));
    ctx.pending_telemetry.push_back(evidence());
    ctx.pending_telemetry.push_back(Telemetry::CommClose(3));
    assert!(!exporter.export_pending(&mut ctx, false));
    assert_eq!(group_id(rx.try_recv().ok()), 1);
    assert!(matches!(online_rx.try_recv(), Ok(Telemetry::KernelCopy(_))));
    assert!(matches!(deadline_rx.try_recv(), Ok(Telemetry::CommClose(3))));
    assert_eq!(ctx.pending_telemetry.len(), 1);
    assert_eq!(group_id(ctx.pending_telemetry.pop_front()), 2);
}

#[test]
fn full_deadline_lane_stops_the_scan() {
    let (tx, mut rx) = mpsc::channel(4);
    let (deadline_tx, _deadline_rx) = mpsc::channel(1);
    let exporter = Exporter { tx, online_tx: None, deadline_tx: Some(deadline_tx) };
    let mut ctx = PollingContext::new();
    ctx.pending_telemetry.push_back(Telemetry::CommClose(1));
    ctx.pending_telemetry.push_back(Telemetry::CommClose(2));
    ctx.pending_telemetry.push_back(group(3));
    assert!(exporter.export_pending(&mut ctx, false));
    assert_eq!(ctx.pending_telemetry.len(), 2);
    assert!(matches!(ctx.pending_telemetry.pop_front(), Some(Telemetry::CommClose(2))));
    assert!(rx.try_recv().is_err());
}

#[test]
fn retrying_keeps_the_order() {
    let (tx, mut rx) = mpsc::channel(1);
    let exporter = Exporter::new(tx);
    let mut ctx = PollingContext::new();
    for id in 1..=3 {
        ctx.pending_telemetry.push_back(group(id));
    }
    let mut seen = Vec::new();
    while exporter.export_pending(&mut ctx, true) {
        seen.push(group_id(rx.try_recv().ok()));
    }
    seen.push(group_id(rx.try_recv().ok()));
    assert_eq!(seen, [1, 2, 3]);
    assert!(ctx.pending_telemetry.is_empty());
}

#[test]
fn closed_channel_loses_records() {
    let (tx, rx) = mpsc::channel(4);
    drop(rx);
    let exporter = Exporter::new(tx);
    let mut ctx = PollingContext::new();
    ctx.pending_telemetry.push_back(group(1));
    ctx.pending_telemetry.push_back(Telemetry::CommClose(2));
    assert!(!exporter.export_pending(&mut ctx, true));
    assert!(ctx.pending_telemetry.is_empty());
}

#[test]
fn lanes_without_a_channel_take_the_next() {
    let (tx, mut rx) = mpsc::channel(4);
    let (online_tx, mut online_rx) = mpsc::channel(4);
    let exporter = Exporter { tx, online_tx: Some(online_tx), deadline_tx: None };
    let mut ctx = PollingContext::new();
    ctx.pending_telemetry.push_back(Telemetry::CommClose(2));
    exporter.export_pending(&mut ctx, false);
    assert!(matches!(online_rx.try_recv(), Ok(Telemetry::CommClose(2))));
    assert!(rx.try_recv().is_err());
}

#[test]
fn records_are_taken_and_put_back() {
    let mut ctx = PollingContext::new();
    assert!(ctx.next_export().is_none());
    ctx.pending_telemetry.push_back(group(1));
    ctx.pending_telemetry.push_back(evidence());
    let (lane, t) = ctx.next_export().unwrap();
    assert_eq!(lane, Lane::Regular);
    assert!(!ctx.settle_export(lane, Attempt::Full(t), false));
    let (lane, t) = ctx.next_export().unwrap();
    assert_eq!(lane, Lane::Online);
    assert!(ctx.settle_export(lane, Attempt::Full(t), true));
    assert_eq!(ctx.next_export().unwrap().0, Lane::Online);
    assert!(!ctx.settle_export(Lane::Online, Attempt::Accepted, true));
    assert_eq!(ctx.pending_telemetry.len(), 1);
}

fn settings() -> ExportSettings {
    ExportSettings {
        heartbeat: true,
        otel_enable: true,
        otel_trace_ncclop: false,
        summary_interval: 60,
        heartbeat_upload_interval: 1,
        latency_flush_interval: 0,
        otel_metrics_cardinality_grouping_interval: 5,
    }
}

#[test]
fn sinks_follow_the_settings() {
    let mut s = settings();
    let sinks = Sinks::open(&s, true, true, false, true);
    assert!(sinks.summary && sinks.otel_gauge && !sinks.otel_tracer);
    s.heartbeat = false;
    s.otel_trace_ncclop = true;
    let sinks = Sinks::open(&s, true, true, false, true);
    assert!(!sinks.summary && sinks.otel_tracer);
}

#[test]
fn records_go_where_they_belong() {
    let mut s = settings();
    s.otel_trace_ncclop = true;
    let mut sinks = Sinks::open(&s, true, true, true, true);
    let whole = Telemetry::NcclOp(Box::new(op()));
    let d = sinks.deliver(Lane::Regular, &whole);
    assert!(d.latency_file && d.summary && d.gpuviz && d.otel_tracer);
    assert!(!d.live_ring && !d.otel_gauge);
    let issued = Telemetry::NcclOpIssued(Box::new(op()));
    let d = sinks.deliver(Lane::Deadline, &issued);
    assert!(d.live_ring && d.otel_gauge && !d.gpuviz && !d.otel_tracer);
    sinks.latency_file_failed();
    assert!(!sinks.deliver(Lane::Online, &whole).latency_file);
}

#[test]
fn records_have_forms() {
    assert_eq!(group(1).trace_record(), Some(TraceRecord::Group));
    assert_eq!(Telemetry::NcclOp(Box::new(op())).trace_record(), Some(TraceRecord::Op));
    let done = Telemetry::NcclOpComplete(Box::new(op()));
    assert_eq!(done.trace_record(), Some(TraceRecord::OpOnlineComplete));
    assert_eq!(Telemetry::CommClose(1).trace_record(), None);
    assert_eq!(evidence().trace_record(), None);
}

#[test]
fn lanes_are_served_by_urgency() {
    let mut lanes = LaneStates::new();
    assert_eq!(lanes.next(true, true, true), Some(Lane::Deadline));
    assert_eq!(lanes.next(false, true, true), Some(Lane::Online));
    lanes.close(Lane::Deadline);
    assert_eq!(lanes.next(true, false, true), Some(Lane::Regular));
    lanes.close(Lane::Regular);
    assert!(!lanes.all_closed());
    assert_eq!(lanes.next(true, false, true), None);
    lanes.close(Lane::Online);
    assert!(lanes.all_closed());
}

#[test]
fn ticks_need_something_to_do() {
    let mut s = settings();
    let sinks = Sinks::open(&s, true, false, false, false);
    assert!(!tick_enabled(Tick::LatencyFlush, &s, &sinks));
    s.latency_flush_interval = 1;
    assert!(tick_acts(Tick::LatencyFlush, &s, &sinks));
    assert!(tick_enabled(Tick::Summary, &s, &sinks));
    assert!(!tick_acts(Tick::Summary, &s, &sinks));
    assert!(tick_enabled(Tick::Heartbeat, &s, &sinks));
    assert!(!tick_acts(Tick::Heartbeat, &s, &sinks));
    assert!(tick_acts(Tick::Heartbeat, &s, &Sinks::open(&s, true, false, false, true)));
    assert!(tick_acts(Tick::Grouping, &s, &sinks));
}

#[test]
fn histograms_of_a_connection() {
    assert_eq!(connection_queries(false), [None]);
    assert_eq!(
        connection_queries(true),
        [Some(ConnectionType::Net), Some(ConnectionType::E2e), Some(ConnectionType::Cts)]
    );
    assert_eq!(collect_histograms(&vec![None, Some(4), None, Some(2)]), Some(vec![4, 2]));
    assert_eq!(collect_histograms(&vec![None]), None);
}

#[test]
fn exporter_ends_with_its_lanes() {
    let s = settings();
    let mut state = ExportLoop::new(s, Sinks::open(&s, true, true, true, true));
    let step = state.step(&ExportEvent::Record(Lane::Online, evidence()));
    assert!(step.deliver.unwrap().live_ring && step.flush_ring && !step.tick && !step.done);
    assert!(state.step(&ExportEvent::Tick(Tick::Summary)).tick);
    assert!(!state.step(&ExportEvent::Ended(Lane::Deadline)).done);
    assert!(!state.step(&ExportEvent::Ended(Lane::Regular)).done);
    state.step(&ExportEvent::LatencyFailed);
    assert!(state.step(&ExportEvent::Ended(Lane::Online)).done);
    let end = state.finish();
    assert!(end.close_ring && end.write_summary && end.send_heartbeat);
    assert!(!end.flush_latency_file);
}

#[test]
fn metric_of_send_latencies_is_named() {
    assert_eq!(SEND_LATENCY_METRIC, "nccl.net.send.latency");
}
