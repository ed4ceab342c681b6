//! Telemetry of NCCL's profiler plugin.
//!
//! The profiled threads of a process report events to a daemon. The daemon
//! follows every operation from its announcement to its end, reports it, and
//! hands the records to an exporter, which writes them to files, to a ring
//! that another process reads, and to summaries.
//!
//! - [`event`], [`nccl_metadata`], [`profiler`], [`config`] and [`clock`] hold
//!   the data; [`daemon`] the messages and records.
//! - [`polling_model`] says what each event means as a function on values,
//!   [`polling`], [`polling_messages`], [`polling_pass`] and [`rounds`] do it,
//!   and [`polling_laws`], [`reclaim_laws`], [`telling_laws`] and [`run_laws`]
//!   state what follows. What single events, groups, messages and passes come
//!   to stands in [`event_laws`], [`group_laws`], [`message_laws`] and
//!   [`pass_laws`].
//! - [`exporter`] hands records on, [`delivery`] decides where they go, and
//!   [`summary`] counts them; [`export_laws`] and [`summary_laws`] say which
//!   and how.
//! - [`live_ring`] is the ring, [`ring_layout`] its bytes, [`live_encode`]
//!   turns records into slots, [`slot_laws`] says what a slot tells, and
//!   [`ring_laws`] what a reader can rely on.
//! - [`runtime_gates`] and [`control_rpc`] turn metrics on and off while the
//!   process runs; [`paths`] names files and sockets, and [`setting_text`]
//!   reads durations and flags in settings.
pub mod clock;
pub mod config;
pub mod control_rpc;
pub mod daemon;
pub mod delivery;
pub mod event;
pub mod event_laws;
pub mod export_laws;
pub mod exporter;
pub mod group_laws;
pub mod key_order;
pub mod live_encode;
pub mod live_ring;
pub mod message_laws;
pub mod nccl_metadata;
pub mod pass_laws;
pub mod paths;
pub mod polling;
pub mod polling_laws;
pub mod polling_messages;
pub mod polling_model;
pub mod polling_pass;
pub mod profiler;
pub mod profiler_shim;
pub mod reclaim_laws;
pub mod ring_laws;
pub mod ring_layout;
pub mod rounds;
pub mod run_laws;
pub mod runtime_gates;
pub mod setting_text;
pub mod slot_laws;
pub mod spsc;
pub mod summary;
pub mod summary_laws;
pub mod telling_laws;
pub mod utf8_text;
pub mod views;
