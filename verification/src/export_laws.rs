//! Which way records take, and what receives them.
use crate::clock::TimeBase;
use crate::daemon::{Telemetry, TelemetryView};
use crate::delivery::{
    present, record_form, tick_has_effect, tick_is_on, wanted_connections, ConnectionType,
    ExportEvent, ExportLoop, ExportSettings, LaneStates, Sinks, Tick, TraceRecord,
};
use crate::exporter::{
    came_of, lane_for, Attempt, Exporter, Lane, Outcome, DEADLINE_CHANNEL_SZ, ONLINE_CHANNEL_SZ,
    TELEMETRY_CHANNEL_SZ,
};
use crate::live_encode::live_slots;
use crate::polling_model::CtxView;
use vstd::prelude::*;

verus! {

// ----------------------------------------------------------------------- lanes

/// What marks the issue or the completion of an operation, the start or the
/// final count of a group, or the opening, the members or the closing of a
/// communicator has the lane with deadlines to itself. Progress and copy timings
/// have the lane for compact evidence. The rest is bulk data.
pub proof fn law_lanes_by_what_a_record_tells(t: TelemetryView)
    ensures
        t is NcclOpIssued || t is NcclOpComplete ==> lane_for(t) == Lane::Deadline,
        t is P2pParentStart || t is P2pGroupSeal ==> lane_for(t) == Lane::Deadline,
        t is CommOpen || t is CommInit || t is CommClose ==> lane_for(t) == Lane::Deadline,
        t is StepProgress || t is KernelCopy ==> lane_for(t) == Lane::Online,
        t is Group || t is NcclOp || t is P2pParent || t is ProxyOp ==> lane_for(t)
            == Lane::Regular,
{
}

/// A record that has slots on the live ring takes a lane that feeds the ring, so
/// that the ring receives it where there is one.
pub proof fn law_live_records_reach_the_ring(t: TelemetryView, base: TimeBase, sinks: Sinks)
    requires
        live_slots(t, base).len() > 0,
    ensures
        lane_for(t) != Lane::Regular,
        sinks.receiving(lane_for(t), t).live_ring == sinks.live_ring,
{
}

/// Every record of an operation, a group or a communicator that starts or ends
/// has a slot on the live ring; bulk data has none, for the reader of the ring
/// would have to wait for it.
pub proof fn law_live_records_have_slots(t: TelemetryView, base: TimeBase)
    ensures
        t is NcclOpIssued || t is NcclOpComplete || t is P2pParentStart || t is P2pGroupSeal
            || t is StepProgress || t is KernelCopy ==> live_slots(t, base).len() == 1,
        t matches TelemetryView::CommInit(m) ==> live_slots(t, base).len() == m.members@.len() + 1,
        t is Group || t is NcclOp || t is P2pParent || t is ProxyOp || t is CommOpen
            || t is CommClose ==> live_slots(t, base).len() == 0,
{
}

/// A lane with a channel of its own uses it. Without one, deadlines share the
/// channel of the evidence, and both share that of the bulk data.
pub proof fn law_lanes_fall_back_to_the_next(e: Exporter)
    ensures
        e.channel_for(Lane::Regular) == e.tx,
        e.online_tx matches Some(tx) ==> e.channel_for(Lane::Online) == tx,
        e.online_tx is None ==> e.channel_for(Lane::Online) == e.channel_for(Lane::Regular),
        e.deadline_tx matches Some(tx) ==> e.channel_for(Lane::Deadline) == tx,
        e.deadline_tx is None ==> e.channel_for(Lane::Deadline) == e.channel_for(Lane::Online),
{
}

/// An attempt that succeeds takes the oldest record out. So does one that finds
/// nobody receiving. Where the lane is full, bulk data and evidence go behind
/// the other records and the scan goes on; a record with a deadline stays in
/// front and the scan ends, and so does every record when the daemon stops.
pub proof fn law_full_lanes_hold_deadlines_back(c: CtxView, o: Outcome, retrying: bool)
    requires
        c.pending.len() > 0,
    ensures
        ({
            let (d, ends) = c.attempted(o, retrying);
            let stays = retrying || c.pending[0] is NcclOpIssued || c.pending[0] is NcclOpComplete
                || c.pending[0] is P2pParentStart || c.pending[0] is P2pGroupSeal
                || c.pending[0] is CommOpen || c.pending[0] is CommInit || c.pending[0] is CommClose;
            &&& ends <==> o is Full && stays
            &&& ends ==> d == c
            &&& o is Full && !ends ==> d.pending == c.pending.skip(1).push(c.pending[0])
            &&& o !is Full ==> d.pending == c.pending.skip(1)
            &&& d.ncclops == c.ncclops && d.groups == c.groups
        }),
{
}

// ----------------------------------------------------------------------- sinks

/// Every record goes to the file of records and into the summary, where they are
/// kept. Whole operations, alone or as a group, go to the telemetry library and
/// to the tracer; issued operations to the gauge.
pub proof fn law_sinks_by_what_a_record_tells(s: Sinks, lane: Lane, t: TelemetryView)
    ensures
        ({
            let r = s.receiving(lane, t);
            &&& r.latency_file == s.latency_file
            &&& r.summary == s.summary
            &&& !r.summary_file
            &&& r.live_ring <==> s.live_ring && (lane == Lane::Deadline || lane == Lane::Online)
            &&& t is NcclOp || t is P2pParent ==> r.gpuviz == s.gpuviz && r.otel_tracer
                == s.otel_tracer
            &&& !(t is NcclOp || t is P2pParent) ==> !r.gpuviz && !r.otel_tracer
            &&& t is NcclOpIssued ==> r.otel_gauge == s.otel_gauge
            &&& t !is NcclOpIssued ==> !r.otel_gauge
        }),
{
}

/// What could be opened is used. A summary is kept for its file or for
/// heartbeats; traces and the gauge are kept where OpenTelemetry is on, and
/// traces where they are asked for as well.
pub proof fn law_sinks_follow_the_settings(
    s: ExportSettings,
    file: bool,
    ring: bool,
    summary_file: bool,
    gpuviz: bool,
)
    ensures
        ({
            let r = Sinks::opened(s, file, ring, summary_file, gpuviz);
            &&& r.latency_file == file && r.live_ring == ring && r.summary_file == summary_file
            &&& r.gpuviz == gpuviz
            &&& r.summary <==> summary_file || s.heartbeat
            &&& r.otel_gauge <==> s.otel_enable
            &&& r.otel_tracer <==> s.otel_enable && s.otel_trace_ncclop
        }),
{
}

/// The file is flushed from time to time where that is asked for, summaries are
/// written where there is a file for them, and heartbeats are sent where they
/// are on and the telemetry library is there to send them.
pub proof fn law_ticks_do_what_the_settings_ask(s: ExportSettings, sinks: Sinks)
    ensures
        tick_has_effect(Tick::LatencyFlush, s, sinks) <==> s.latency_flush_interval > 0
            && sinks.latency_file,
        tick_has_effect(Tick::Summary, s, sinks) <==> sinks.summary && sinks.summary_file,
        tick_has_effect(Tick::Heartbeat, s, sinks) <==> s.heartbeat && sinks.summary
            && sinks.gpuviz,
        tick_has_effect(Tick::Grouping, s, sinks) <==> s.otel_enable,
        tick_is_on(Tick::Summary, s, sinks) <==> sinks.summary,
        tick_is_on(Tick::Heartbeat, s, sinks) <==> s.heartbeat,
        forall|t: Tick| tick_has_effect(t, s, sinks) ==> #[trigger] tick_is_on(t, s, sinks),
{
}

/// A record that came is delivered, and nothing is on other events. The ring is
/// published after every event. Only the end of a lane ends it, and only a
/// failure gives up the file of records.
pub proof fn law_exporter_acts_on_what_happens(l: ExportLoop, e: ExportEvent)
    ensures
        ({
            let r = l.step_for(e);
            let after = l.after(e);
            &&& r.flush_ring == l.sinks.live_ring
            &&& e matches ExportEvent::Record(lane, t) ==> r.deliver == Some(
                l.sinks.receiving(lane, t@),
            ) && !r.tick && after == l
            &&& e matches ExportEvent::Tick(tick) ==> r.deliver is None && r.tick
                == tick_has_effect(tick, l.settings, l.sinks) && after == l
            &&& e matches ExportEvent::Ended(lane) ==> r.deliver is None && !r.tick && after.sinks
                == l.sinks && after.lanes.spec_is_closed(lane) && (forall|other: Lane|
                other != lane ==> (#[trigger] after.lanes.spec_is_closed(other)
                    == l.lanes.spec_is_closed(other)))
            &&& e is LatencyFailed ==> r.deliver is None && !r.tick && !after.sinks.latency_file
                && after.lanes == l.lanes && (Sinks {
                latency_file: l.sinks.latency_file,
                ..after.sinks
            }) == l.sinks
            &&& after.settings == l.settings
        }),
{
}

/// The exporter is done when every lane ended, and no earlier.
pub proof fn law_exporter_waits_for_every_lane(l: ExportLoop, e: ExportEvent)
    ensures
        l.step_for(e).done <==> (l.lanes.regular_closed || (e matches ExportEvent::Ended(lane)
            && lane is Regular)) && (l.lanes.online_closed || (e matches ExportEvent::Ended(lane)
            && lane is Online)) && (l.lanes.deadline_closed || (e matches ExportEvent::Ended(lane)
            && lane is Deadline)),
        l.lanes.spec_is_closed(Lane::Regular) == l.lanes.regular_closed,
        l.lanes.spec_is_closed(Lane::Online) == l.lanes.online_closed,
        l.lanes.spec_is_closed(Lane::Deadline) == l.lanes.deadline_closed,
{
}

/// At the end the ring is closed, the file of records flushed, the last summary
/// written and a last heartbeat sent, each where there is one.
pub proof fn law_exporter_finishes_what_is_open(l: ExportLoop)
    ensures
        l.end().close_ring == l.sinks.live_ring,
        l.end().flush_latency_file == l.sinks.latency_file,
        l.end().write_summary <==> l.sinks.summary && l.sinks.summary_file,
        l.end().send_heartbeat <==> l.settings.heartbeat && l.sinks.summary && l.sinks.gpuviz,
{
}

/// Lanes are served in the order of their urgency: deadlines, evidence, bulk
/// data; one that ended or has nothing to give is passed over.
pub proof fn law_urgent_lanes_go_first(
    l: LaneStates,
    deadline: bool,
    online: bool,
    regular: bool,
)
    ensures
        ({
            let d = deadline && !l.deadline_closed;
            let o = online && !l.online_closed;
            let r = regular && !l.regular_closed;
            let next = l.spec_next(deadline, online, regular);
            &&& d ==> next == Some(Lane::Deadline)
            &&& !d && o ==> next == Some(Lane::Online)
            &&& !d && !o && r ==> next == Some(Lane::Regular)
            &&& !d && !o && !r ==> next is None
        }),
{
}

/// Every record but copy timings and the opening and closing of communicators is
/// written to the file, each kind in a form of its own.
pub proof fn law_records_have_forms(t: TelemetryView, u: TelemetryView)
    ensures
        record_form(t) is None <==> t is KernelCopy || t is CommOpen || t is CommClose,
        t is Group ==> record_form(t) == Some(TraceRecord::Group),
        t is NcclOpIssued ==> record_form(t) == Some(TraceRecord::OpIssued),
        t is NcclOpComplete ==> record_form(t) == Some(TraceRecord::OpOnlineComplete),
        t is NcclOp ==> record_form(t) == Some(TraceRecord::Op),
        t is P2pParentStart ==> record_form(t) == Some(TraceRecord::GroupIssued),
        t is P2pGroupSeal ==> record_form(t) == Some(TraceRecord::GroupSeal),
        t is P2pParent ==> record_form(t) == Some(TraceRecord::GroupReport),
        t is StepProgress ==> record_form(t) == Some(TraceRecord::Progress),
        t is ProxyOp ==> record_form(t) == Some(TraceRecord::ProxyOp),
        t is CommInit ==> record_form(t) == Some(TraceRecord::Membership),
{
}

// ------------------------------------------------------------------ histograms

/// The histograms that were found are kept, in the order in which they were
/// asked for, and a missing one leaves no gap.
pub proof fn law_found_histograms_are_kept(found: Seq<Option<u64>>, h: u64)
    ensures
        present(Seq::empty()) == Seq::<u64>::empty(),
        present(found.push(Some(h))) == present(found).push(h),
        present(found.push(None)) == present(found),
{
    assert(found.push(Some(h)).drop_last() =~= found);
    assert(found.push(None).drop_last() =~= found);
}

/// With the time in the queue tracked, each part of a connection has a histogram
/// of its own: on the network, end to end, and until clear to send. Otherwise
/// there is one for the whole.
pub proof fn law_connections_have_parts(track: bool)
    ensures
        track ==> wanted_connections(track).len() == 3 && wanted_connections(track).contains(
            Some(ConnectionType::Net),
        ) && wanted_connections(track).contains(Some(ConnectionType::E2e)) && wanted_connections(
            track,
        ).contains(Some(ConnectionType::Cts)),
        !track ==> wanted_connections(track) == seq![None::<ConnectionType>],
{
    if track {
        let w = wanted_connections(track);
        assert(w[0] == Some(ConnectionType::Net));
        assert(w[1] == Some(ConnectionType::E2e));
        assert(w[2] == Some(ConnectionType::Cts));
    }
}

/// Records are offered oldest first, each on the channel of its own lane.
pub proof fn law_records_are_offered_on_their_lane(
    e: Exporter,
    pending: Seq<TelemetryView>,
    sent: Seq<(Telemetry, Attempt)>,
    i: int,
)
    requires
        e.offered(pending, sent),
        0 <= i < sent.len(),
    ensures
        sent.len() <= pending.len(),
        sent[i].0@ == pending[i],
        (pending[i] is NcclOp || pending[i] is P2pParent || pending[i] is ProxyOp
            || pending[i] is Group) ==> came_of(e.tx, sent[i].0, sent[i].1),
        (pending[i] is StepProgress || pending[i] is KernelCopy) && e.online_tx is Some ==> came_of(
            e.online_tx->0,
            sent[i].0,
            sent[i].1,
        ),
        (pending[i] is NcclOpIssued || pending[i] is NcclOpComplete || pending[i] is P2pParentStart
            || pending[i] is P2pGroupSeal || pending[i] is CommOpen || pending[i] is CommInit
            || pending[i] is CommClose) && e.deadline_tx is Some ==> came_of(
            e.deadline_tx->0,
            sent[i].0,
            sent[i].1,
        ),
{
}

/// How many records the lanes hold: the more urgent, the fewer.
pub proof fn law_lanes_are_bounded()
    ensures
        TELEMETRY_CHANNEL_SZ == 4096,
        ONLINE_CHANNEL_SZ == 1024,
        DEADLINE_CHANNEL_SZ == 256,
{
}

} // verus!
