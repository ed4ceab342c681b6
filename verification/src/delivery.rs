//! What the exporter does with the records that reach it, and when it is done.
use crate::clock::Duration;
use crate::daemon::{Telemetry, TelemetryView};
use crate::exporter::Lane;
use vstd::prelude::*;

verus! {

/// The name of the histogram of the times that sends over the network take.
pub const SEND_LATENCY_METRIC: &'static str = "nccl.net.send.latency";

/// What the settings ask of the exporter.
#[derive(Clone, Copy, Debug, PartialEq, Eq, Structural)]
pub struct ExportSettings {
    pub heartbeat: bool,
    pub otel_enable: bool,
    pub otel_trace_ncclop: bool,
    pub summary_interval: Duration,
    pub heartbeat_upload_interval: Duration,
    /// Zero where the file of records is not flushed periodically.
    pub latency_flush_interval: Duration,
    pub otel_metrics_cardinality_grouping_interval: Duration,
}

/// Where records can go.
#[derive(Clone, Copy, Debug, PartialEq, Eq, Structural)]
pub struct Sinks {
    /// The file of records.
    pub latency_file: bool,
    /// The live ring.
    pub live_ring: bool,
    /// The file of summaries.
    pub summary_file: bool,
    /// The summary of the operations so far.
    pub summary: bool,
    /// The telemetry library.
    pub gpuviz: bool,
    /// Traces of operations.
    pub otel_tracer: bool,
    /// The gauge of sequence numbers.
    pub otel_gauge: bool,
}

impl Sinks {
    /// The sinks at the start, given what could be opened. A summary is kept
    /// where a file or a heartbeat needs it.
    pub open spec fn opened(
        s: ExportSettings,
        latency_file: bool,
        live_ring: bool,
        summary_file: bool,
        gpuviz: bool,
    ) -> Sinks {
        Sinks {
            latency_file,
            live_ring,
            summary_file,
            summary: summary_file || s.heartbeat,
            gpuviz,
            otel_tracer: s.otel_enable && s.otel_trace_ncclop,
            otel_gauge: s.otel_enable,
        }
    }

    pub fn open(
        s: &ExportSettings,
        latency_file: bool,
        live_ring: bool,
        summary_file: bool,
        gpuviz: bool,
    ) -> (r: Sinks)
        ensures
            r == Sinks::opened(*s, latency_file, live_ring, summary_file, gpuviz),
    {
        Sinks {
            latency_file,
            live_ring,
            summary_file,
            summary: summary_file || s.heartbeat,
            gpuviz,
            otel_tracer: s.otel_enable && s.otel_trace_ncclop,
            otel_gauge: s.otel_enable,
        }
    }

    /// Writing to the file of records failed. It is not tried again.
    pub fn latency_file_failed(&mut self)
        ensures
            *final(self) == (Sinks { latency_file: false, ..*old(self) }),
    {
        self.latency_file = false;
    }

    /// Where a record goes that came on `lane`. Only the lanes of an online
    /// reader feed the ring. The telemetry library and the tracer get whole
    /// operations, the gauge those that were issued.
    pub open spec fn receiving(self, lane: Lane, t: TelemetryView) -> Sinks {
        let whole = t is NcclOp || t is P2pParent;
        Sinks {
            latency_file: self.latency_file,
            live_ring: self.live_ring && lane !is Regular,
            summary_file: false,
            summary: self.summary,
            gpuviz: self.gpuviz && whole,
            otel_tracer: self.otel_tracer && whole,
            otel_gauge: self.otel_gauge && t is NcclOpIssued,
        }
    }

    pub fn deliver(&self, lane: Lane, t: &Telemetry) -> (r: Sinks)
        ensures
            r == self.receiving(lane, t@),
    {
        let whole: bool = match t {
            Telemetry::NcclOp(_) => true,
            Telemetry::P2pParent(_) => true,
            _ => false,
        };
        let issued: bool = match t {
            Telemetry::NcclOpIssued(_) => true,
            _ => false,
        };
        let online: bool = match lane {
            Lane::Regular => false,
            _ => true,
        };
        Sinks {
            latency_file: self.latency_file,
            live_ring: self.live_ring && online,
            summary_file: false,
            summary: self.summary,
            gpuviz: self.gpuviz && whole,
            otel_tracer: self.otel_tracer && whole,
            otel_gauge: self.otel_gauge && issued,
        }
    }
}

// -------------------------------------------------------------- file of records

/// The form that a record takes in the file.
#[derive(Clone, Copy, Debug, PartialEq, Eq, Structural)]
pub enum TraceRecord {
    Group,
    OpIssued,
    OpOnlineComplete,
    Op,
    GroupIssued,
    GroupSeal,
    GroupReport,
    Progress,
    ProxyOp,
    Membership,
}

/// The form of a record, where it has one.
pub open spec fn record_form(t: TelemetryView) -> Option<TraceRecord> {
    match t {
        TelemetryView::Group(_) => Some(TraceRecord::Group),
        TelemetryView::NcclOpIssued(_) => Some(TraceRecord::OpIssued),
        TelemetryView::NcclOpComplete(_) => Some(TraceRecord::OpOnlineComplete),
        TelemetryView::NcclOp(_) => Some(TraceRecord::Op),
        TelemetryView::P2pParentStart(_) => Some(TraceRecord::GroupIssued),
        TelemetryView::P2pGroupSeal(_) => Some(TraceRecord::GroupSeal),
        TelemetryView::P2pParent(_) => Some(TraceRecord::GroupReport),
        TelemetryView::StepProgress(_) => Some(TraceRecord::Progress),
        TelemetryView::ProxyOp(_) => Some(TraceRecord::ProxyOp),
        TelemetryView::CommInit(_) => Some(TraceRecord::Membership),
        TelemetryView::KernelCopy(_) => None,
        TelemetryView::CommOpen(_) => None,
        TelemetryView::CommClose(_) => None,
    }
}

impl Telemetry {
    /// The form in which this record is written to the file, if it is.
    pub fn trace_record(&self) -> (r: Option<TraceRecord>)
        ensures
            r == record_form(self@),
    {
        match self {
            Telemetry::Group(_) => Some(TraceRecord::Group),
            Telemetry::NcclOpIssued(_) => Some(TraceRecord::OpIssued),
            Telemetry::NcclOpComplete(_) => Some(TraceRecord::OpOnlineComplete),
            Telemetry::NcclOp(_) => Some(TraceRecord::Op),
            Telemetry::P2pParentStart(_) => Some(TraceRecord::GroupIssued),
            Telemetry::P2pGroupSeal(_) => Some(TraceRecord::GroupSeal),
            Telemetry::P2pParent(_) => Some(TraceRecord::GroupReport),
            Telemetry::StepProgress(_) => Some(TraceRecord::Progress),
            Telemetry::ProxyOp(_) => Some(TraceRecord::ProxyOp),
            Telemetry::CommInit(_) => Some(TraceRecord::Membership),
            _ => None,
        }
    }
}

// ------------------------------------------------------------------- the lanes

/// Which lanes have ended.
#[derive(Clone, Copy, Debug, PartialEq, Eq, Structural)]
pub struct LaneStates {
    pub regular_closed: bool,
    pub online_closed: bool,
    pub deadline_closed: bool,
}

impl LaneStates {
    pub open spec fn spec_is_closed(self, lane: Lane) -> bool {
        match lane {
            Lane::Regular => self.regular_closed,
            Lane::Online => self.online_closed,
            Lane::Deadline => self.deadline_closed,
        }
    }

    /// All lanes are open.
    pub fn new() -> (r: LaneStates)
        ensures
            forall|lane: Lane| !#[trigger] r.spec_is_closed(lane),
    {
        LaneStates { regular_closed: false, online_closed: false, deadline_closed: false }
    }

    /// A lane has ended.
    pub fn close(&mut self, lane: Lane)
        ensures
            *final(self) == old(self).with_closed(lane),
    {
        match lane {
            Lane::Regular => self.regular_closed = true,
            Lane::Online => self.online_closed = true,
            Lane::Deadline => self.deadline_closed = true,
        }
    }

    /// Whether the exporter is done.
    pub fn all_closed(&self) -> (r: bool)
        ensures
            r == self.spec_all_closed(),
    {
        self.regular_closed && self.online_closed && self.deadline_closed
    }

    /// The lane to serve next, if `deadline`, `online` and `regular` say which
    /// have something to give: deadlines come first, bulk data last. This is the
    /// order in which a biased wait on the lanes has to name them.
    pub open spec fn spec_next(self, deadline: bool, online: bool, regular: bool) -> Option<Lane> {
        if deadline && !self.deadline_closed {
            Some(Lane::Deadline)
        } else if online && !self.online_closed {
            Some(Lane::Online)
        } else if regular && !self.regular_closed {
            Some(Lane::Regular)
        } else {
            None
        }
    }

    pub fn next(&self, deadline: bool, online: bool, regular: bool) -> (r: Option<Lane>)
        ensures
            r == self.spec_next(deadline, online, regular),
    {
        if deadline && !self.deadline_closed {
            Some(Lane::Deadline)
        } else if online && !self.online_closed {
            Some(Lane::Online)
        } else if regular && !self.regular_closed {
            Some(Lane::Regular)
        } else {
            None
        }
    }
}

// ------------------------------------------------------------------- the clocks

/// What the exporter does from time to time.
#[derive(Clone, Copy, Debug, PartialEq, Eq, Structural)]
pub enum Tick {
    LatencyFlush,
    Summary,
    Heartbeat,
    Grouping,
}

/// Whether the exporter waits for a tick at all.
pub open spec fn tick_is_on(tick: Tick, s: ExportSettings, sinks: Sinks) -> bool {
    match tick {
        Tick::LatencyFlush => s.latency_flush_interval > 0 && sinks.latency_file,
        Tick::Summary => sinks.summary,
        Tick::Heartbeat => s.heartbeat,
        Tick::Grouping => s.otel_enable,
    }
}

/// Whether a tick does something.
pub open spec fn tick_has_effect(tick: Tick, s: ExportSettings, sinks: Sinks) -> bool {
    tick_is_on(tick, s, sinks) && match tick {
        Tick::LatencyFlush => true,
        Tick::Summary => sinks.summary_file,
        Tick::Heartbeat => sinks.summary && sinks.gpuviz,
        Tick::Grouping => true,
    }
}

pub fn tick_enabled(tick: Tick, s: &ExportSettings, sinks: &Sinks) -> (r: bool)
    ensures
        r == tick_is_on(tick, *s, *sinks),
{
    match tick {
        Tick::LatencyFlush => s.latency_flush_interval > 0 && sinks.latency_file,
        Tick::Summary => sinks.summary,
        Tick::Heartbeat => s.heartbeat,
        Tick::Grouping => s.otel_enable,
    }
}

pub fn tick_acts(tick: Tick, s: &ExportSettings, sinks: &Sinks) -> (r: bool)
    ensures
        r == tick_has_effect(tick, *s, *sinks),
{
    tick_enabled(tick, s, sinks) && match tick {
        Tick::LatencyFlush => true,
        Tick::Summary => sinks.summary_file,
        Tick::Heartbeat => sinks.summary && sinks.gpuviz,
        Tick::Grouping => true,
    }
}

// --------------------------------------------------------------------- the loop

/// What the exporter waits for.
#[derive(Debug)]
pub enum ExportEvent {
    /// A record came on a lane.
    Record(Lane, Telemetry),
    /// A lane has ended.
    Ended(Lane),
    Tick(Tick),
    /// The file of records could not be written.
    LatencyFailed,
}

/// What the exporter does then.
#[derive(Clone, Copy, Debug, PartialEq, Eq, Structural)]
pub struct ExportStep {
    /// Where the record goes, if one came.
    pub deliver: Option<Sinks>,
    /// Whether the work of a tick is done.
    pub tick: bool,
    /// Whether what the ring holds is published.
    pub flush_ring: bool,
    /// Whether the exporter ends.
    pub done: bool,
}

/// What the exporter does when it ends.
#[derive(Clone, Copy, Debug, PartialEq, Eq, Structural)]
pub struct ExportEnd {
    pub close_ring: bool,
    pub flush_latency_file: bool,
    pub write_summary: bool,
    pub send_heartbeat: bool,
}

/// Where the exporter stands.
#[derive(Clone, Copy, Debug, PartialEq, Eq, Structural)]
pub struct ExportLoop {
    pub settings: ExportSettings,
    pub sinks: Sinks,
    pub lanes: LaneStates,
}

impl LaneStates {
    pub open spec fn spec_all_closed(self) -> bool {
        self.regular_closed && self.online_closed && self.deadline_closed
    }

    pub open spec fn with_closed(self, lane: Lane) -> LaneStates {
        match lane {
            Lane::Regular => LaneStates { regular_closed: true, ..self },
            Lane::Online => LaneStates { online_closed: true, ..self },
            Lane::Deadline => LaneStates { deadline_closed: true, ..self },
        }
    }
}

impl ExportLoop {
    /// The exporter after an event.
    pub open spec fn after(self, e: ExportEvent) -> ExportLoop {
        match e {
            ExportEvent::Ended(lane) => ExportLoop { lanes: self.lanes.with_closed(lane), ..self },
            ExportEvent::LatencyFailed => ExportLoop {
                sinks: Sinks { latency_file: false, ..self.sinks },
                ..self
            },
            _ => self,
        }
    }

    /// What the exporter does on an event. The ring is published after each, so
    /// that its reader does not lag by a batch.
    pub open spec fn step_for(self, e: ExportEvent) -> ExportStep {
        ExportStep {
            deliver: match e {
                ExportEvent::Record(lane, t) => Some(self.sinks.receiving(lane, t@)),
                _ => None,
            },
            tick: match e {
                ExportEvent::Tick(tick) => tick_has_effect(tick, self.settings, self.sinks),
                _ => false,
            },
            flush_ring: self.sinks.live_ring,
            done: self.after(e).lanes.spec_all_closed(),
        }
    }

    pub open spec fn end(self) -> ExportEnd {
        ExportEnd {
            close_ring: self.sinks.live_ring,
            flush_latency_file: self.sinks.latency_file,
            write_summary: self.sinks.summary && self.sinks.summary_file,
            send_heartbeat: self.sinks.summary && self.settings.heartbeat && self.sinks.gpuviz,
        }
    }

    pub fn new(settings: ExportSettings, sinks: Sinks) -> (r: ExportLoop)
        ensures
            r.settings == settings,
            r.sinks == sinks,
            forall|lane: Lane| !#[trigger] r.lanes.spec_is_closed(lane),
    {
        ExportLoop { settings, sinks, lanes: LaneStates::new() }
    }

    /// Decides on an event.
    pub fn step(&mut self, e: &ExportEvent) -> (r: ExportStep)
        ensures
            r == old(self).step_for(*e),
            *final(self) == old(self).after(*e),
    {
        let mut deliver: Option<Sinks> = None;
        let mut tick: bool = false;
        match e {
            ExportEvent::Record(lane, t) => {
                deliver = Some(self.sinks.deliver(*lane, t));
            },
            ExportEvent::Ended(lane) => self.lanes.close(*lane),
            ExportEvent::Tick(which) => {
                tick = tick_acts(*which, &self.settings, &self.sinks);
            },
            ExportEvent::LatencyFailed => self.sinks.latency_file_failed(),
        }
        ExportStep {
            deliver,
            tick,
            flush_ring: self.sinks.live_ring,
            done: self.lanes.all_closed(),
        }
    }

    /// Decides on the end.
    pub fn finish(&self) -> (r: ExportEnd)
        ensures
            r == self.end(),
    {
        ExportEnd {
            close_ring: self.sinks.live_ring,
            flush_latency_file: self.sinks.latency_file,
            write_summary: self.sinks.summary && self.sinks.summary_file,
            send_heartbeat: self.sinks.summary && self.settings.heartbeat && self.sinks.gpuviz,
        }
    }
}

/// Of the lanes that have something to give, the one with deadlines is the one
/// to serve next, whatever waits in the others.
pub proof fn law_deadlines_go_first(l: LaneStates, online: bool, regular: bool)
    requires
        !l.spec_is_closed(Lane::Deadline),
    ensures
        l.spec_next(true, online, regular) == Some(Lane::Deadline),
{
}

/// A lane that ended stays so.
pub proof fn law_ended_lanes_stay_ended(l: ExportLoop, e: ExportEvent, lane: Lane)
    requires
        l.lanes.spec_is_closed(lane),
    ensures
        l.after(e).lanes.spec_is_closed(lane),
{
}

/// The exporter is done when all lanes have ended, and not before.
pub proof fn law_exporter_ends_with_its_lanes(l: ExportLoop, e: ExportEvent)
    ensures
        l.step_for(e).done <==> (forall|lane: Lane| #[trigger]
            l.after(e).lanes.spec_is_closed(lane)),
{
    let m = l.after(e).lanes;
    assert(m.spec_is_closed(Lane::Regular) == m.regular_closed);
    assert(m.spec_is_closed(Lane::Online) == m.online_closed);
    assert(m.spec_is_closed(Lane::Deadline) == m.deadline_closed);
}

/// A file of records that failed is not written again.
pub proof fn law_failed_file_is_left_alone(l: ExportLoop, e: ExportEvent, lane: Lane, t: TelemetryView)
    requires
        !l.sinks.latency_file,
    ensures
        !l.after(e).sinks.latency_file,
        !l.after(e).sinks.receiving(lane, t).latency_file,
{
}

// ------------------------------------------------------------------- histograms

/// The part of a transfer that a histogram measures.
#[derive(Clone, Copy, Debug, PartialEq, Eq, Structural)]
pub enum ConnectionType {
    Net,
    E2e,
    Cts,
}

/// The histograms of a connection that are asked for: one for each part where
/// the time in the queue is tracked, else one for the whole.
pub open spec fn wanted_connections(track_step_fifo_wait: bool) -> Seq<Option<ConnectionType>> {
    if track_step_fifo_wait {
        seq![Some(ConnectionType::Net), Some(ConnectionType::E2e), Some(ConnectionType::Cts)]
    } else {
        seq![None]
    }
}

pub fn connection_queries(track_step_fifo_wait: bool) -> (r: Vec<Option<ConnectionType>>)
    ensures
        r@ == wanted_connections(track_step_fifo_wait),
{
    let mut r: Vec<Option<ConnectionType>> = Vec::new();
    if track_step_fifo_wait {
        r.push(Some(ConnectionType::Net));
        r.push(Some(ConnectionType::E2e));
        r.push(Some(ConnectionType::Cts));
    } else {
        r.push(None);
    }
    assert(r@ =~= wanted_connections(track_step_fifo_wait));
    r
}

/// Those of `found` that are there, in order.
pub open spec fn present(found: Seq<Option<u64>>) -> Seq<u64>
    decreases found.len(),
{
    if found.len() == 0 {
        Seq::empty()
    } else {
        match found.last() {
            Some(h) => present(found.drop_last()).push(h),
            None => present(found.drop_last()),
        }
    }
}

/// The histograms of a connection, out of the answers to all queries: none
/// where no answer gave one.
pub fn collect_histograms(found: &Vec<Option<u64>>) -> (r: Option<Vec<u64>>)
    ensures
        r is None <==> present(found@).len() == 0,
        r matches Some(h) ==> h@ == present(found@),
{
    let mut h: Vec<u64> = Vec::new();
    let mut i: usize = 0;
    assert(found@.take(0) =~= Seq::<Option<u64>>::empty());
    while i < found.len()
        invariant
            i <= found@.len(),
            h@ == present(found@.take(i as int)),
        decreases found@.len() - i,
    {
        assert(found@.take(i + 1).drop_last() =~= found@.take(i as int));
        match found[i] {
            Some(x) => h.push(x),
            None => {},
        }
        i += 1;
    }
    assert(found@.take(i as int) =~= found@);
    if h.len() == 0 {
        None
    } else {
        Some(h)
    }
}

} // verus!
