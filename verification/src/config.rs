//! Settings that the process starts with.
use crate::clock::{Duration, NANOS_PER_SEC};
use vstd::prelude::*;

verus! {

/// Version of NCCL's profiler interface.
#[derive(Clone, Copy, Debug, PartialEq, Eq, Structural)]
pub enum Version {
    V1,
    V2,
    V3,
    V4,
    V5,
    V6,
}

/// What is tracked, and the limits of tracking.
#[derive(Clone, Copy, Debug, PartialEq, Eq, Structural)]
pub struct Config {
    pub track_group: bool,
    pub track_ncclop: bool,
    pub track_proxyop: bool,
    pub track_interprocess_proxyop: bool,
    pub track_steps: bool,
    pub track_recv_steps: bool,
    pub track_step_fifo_wait: bool,
    pub aggregate_steps: bool,
    pub track_kernel_ch: bool,
    pub track_kernel_step: bool,
    pub track_recv_kernel_step: bool,
    /// How long an ended operation waits for late events.
    pub ncclop_completion_delay: Duration,
    /// How long a proxy operation waits for the hash of its communicator.
    pub comm_hash_ipc_timeout: Duration,
    /// Age at which an operation is given up.
    pub ncclop_timeout: Duration,
    /// Most operations that are followed at once.
    pub max_tracked_ncclop: usize,
}

impl Config {
    /// The settings of a process that configures nothing.
    pub open spec fn defaults() -> Config {
        Config {
            track_group: false,
            track_ncclop: true,
            track_proxyop: false,
            track_interprocess_proxyop: true,
            track_steps: false,
            track_recv_steps: false,
            track_step_fifo_wait: true,
            aggregate_steps: true,
            track_kernel_ch: false,
            track_kernel_step: false,
            track_recv_kernel_step: false,
            ncclop_completion_delay: 2_000_000_000,
            comm_hash_ipc_timeout: 1_000_000_000,
            ncclop_timeout: 10_000_000_000,
            max_tracked_ncclop: 65536,
        }
    }
}

impl Default for Config {
    fn default() -> (r: Config)
        ensures
            r == Config::defaults(),
    {
        Config {
            track_group: false,
            track_ncclop: true,
            track_proxyop: false,
            track_interprocess_proxyop: true,
            track_steps: false,
            track_recv_steps: false,
            track_step_fifo_wait: true,
            aggregate_steps: true,
            track_kernel_ch: false,
            track_kernel_step: false,
            track_recv_kernel_step: false,
            ncclop_completion_delay: 2 * NANOS_PER_SEC,
            comm_hash_ipc_timeout: NANOS_PER_SEC,
            ncclop_timeout: 10 * NANOS_PER_SEC,
            max_tracked_ncclop: 65536,
        }
    }
}

/// A process that configures nothing follows operations and aggregates steps,
/// also those that it runs for other processes, and nothing in more detail. It
/// keeps an ended operation for two seconds, waits one for a communicator, and
/// gives an operation up after ten.
pub proof fn law_defaults_are_light()
    ensures
        ({
            let c = Config::defaults();
            &&& c.track_ncclop && c.aggregate_steps && c.track_interprocess_proxyop
                && c.track_step_fifo_wait
            &&& !c.track_group && !c.track_proxyop && !c.track_steps && !c.track_recv_steps
            &&& !c.track_kernel_ch && !c.track_kernel_step && !c.track_recv_kernel_step
            &&& c.ncclop_completion_delay == 2 * 1_000_000_000
            &&& c.comm_hash_ipc_timeout == 1_000_000_000
            &&& c.ncclop_timeout == 10 * 1_000_000_000
            &&& c.max_tracked_ncclop == 65536
        }),
{
}

} // verus!
