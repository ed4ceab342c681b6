//! The process that is profiled, as the daemon sees it.
use crate::clock::{Instant, TimeBase};
use crate::config::Config;
use crate::runtime_gates::RuntimeGates;
use std::sync::atomic::AtomicUsize;
use std::sync::Arc;
use vstd::prelude::*;

verus! {

/// Events that a thread queues before its queue is full.
pub const EVENT_QUEUE_SZ: usize = 8192;

/// Identity and settings of the profiled process.
#[derive(Clone, Copy, Debug)]
pub struct Profiler {
    pub pid: i32,
    pub config: Config,
    /// The gates as they stand now. They may have been turned since the
    /// process started.
    pub gates: RuntimeGates,
    pub time_base: TimeBase,
}

impl Profiler {
    /// The moment from which step times count.
    pub open spec fn spec_init_instant(self) -> Instant {
        self.time_base.init_instant
    }

    pub fn init_instant(&self) -> (r: Instant)
        ensures
            r == self.spec_init_instant(),
    {
        self.time_base.init_instant
    }
}

/// A communicator that was opened.
#[derive(Debug)]
pub struct Communicator {
    pub comm_hash: Option<u64>,
    /// Bytes that its collectives put on the network so far.
    pub total_net_bytes: Arc<AtomicUsize>,
}

/// One rank of a communicator.
#[derive(Clone, Copy, Debug, PartialEq, Eq, Structural)]
pub struct CommMember {
    pub rank: i32,
    pub world_rank: i32,
    pub node: i32,
    pub cuda_dev: i32,
    pub host_hash: u64,
    pub bus_id: i64,
}

/// A communicator with all its ranks, as dumped when it is initialised.
#[derive(Debug)]
pub struct CommMembership {
    pub ts: Instant,
    pub rank: i32,
    pub world_rank: i32,
    pub comm_hash: u64,
    pub n_nodes: i32,
    pub n_ranks: i32,
    pub comm_name: String,
    pub host: String,
    pub ip: String,
    pub members: Vec<CommMember>,
}

} // verus!
