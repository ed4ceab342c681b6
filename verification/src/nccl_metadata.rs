//! What NCCL says of an operation: which collective it is, which algorithm
//! runs it, or, for point-to-point transfers, the direction and the peer.
use vstd::prelude::*;

verus! {

/// The collective operations of NCCL.
#[derive(Clone, Copy, Debug, PartialEq, Eq, Structural)]
pub enum CollOpType {
    AllGather,
    AllReduce,
    Broadcast,
    Reduce,
    ReduceScatter,
    Unknown,
}

impl CollOpType {
    pub open spec fn spec_name(self) -> &'static str {
        match self {
            CollOpType::AllGather => "ncclAllGather",
            CollOpType::AllReduce => "ncclAllReduce",
            CollOpType::Broadcast => "ncclBroadcast",
            CollOpType::Reduce => "ncclReduce",
            CollOpType::ReduceScatter => "ncclReduceScatter",
            CollOpType::Unknown => "unknown",
        }
    }

    pub fn name(&self) -> (r: &'static str)
        ensures
            r == self.spec_name(),
    {
        match self {
            CollOpType::AllGather => "ncclAllGather",
            CollOpType::AllReduce => "ncclAllReduce",
            CollOpType::Broadcast => "ncclBroadcast",
            CollOpType::Reduce => "ncclReduce",
            CollOpType::ReduceScatter => "ncclReduceScatter",
            CollOpType::Unknown => "unknown",
        }
    }
}

/// The algorithm that NCCL picked for a collective.
#[derive(Clone, Copy, Debug, PartialEq, Eq, Structural)]
pub enum Algo {
    Tree,
    Ring,
    CollNetDirect,
    CollNetChain,
    Nvls,
    NvlsTree,
    Pat,
    Unknown,
}

impl Algo {
    pub open spec fn spec_name(self) -> &'static str {
        match self {
            Algo::Tree => "Tree",
            Algo::Ring => "Ring",
            Algo::CollNetDirect => "CollNetDirect",
            Algo::CollNetChain => "CollNetChain",
            Algo::Nvls => "NVLS",
            Algo::NvlsTree => "NVLSTree",
            Algo::Pat => "PAT",
            Algo::Unknown => "unknown",
        }
    }

    pub fn name(&self) -> (r: &'static str)
        ensures
            r == self.spec_name(),
    {
        match self {
            Algo::Tree => "Tree",
            Algo::Ring => "Ring",
            Algo::CollNetDirect => "CollNetDirect",
            Algo::CollNetChain => "CollNetChain",
            Algo::Nvls => "NVLS",
            Algo::NvlsTree => "NVLSTree",
            Algo::Pat => "PAT",
            Algo::Unknown => "unknown",
        }
    }
}

/// Description of a collective.
#[derive(Clone, Copy, Debug, PartialEq, Eq, Structural)]
pub struct CollDescr {
    pub op_type: CollOpType,
    pub algo: Algo,
    pub seq_num: u64,
}

/// Description of one send or receive.
#[derive(Clone, Copy, Debug, PartialEq, Eq, Structural)]
pub struct P2pDescr {
    pub is_send: bool,
    pub peer: i32,
}

impl P2pDescr {
    pub open spec fn spec_name(self) -> &'static str {
        if self.is_send {
            "send"
        } else {
            "recv"
        }
    }

    pub fn name(&self) -> (r: &'static str)
        ensures
            r == self.spec_name(),
    {
        if self.is_send {
            "send"
        } else {
            "recv"
        }
    }
}

/// Description of an NCCL operation.
#[derive(Clone, Copy, Debug, PartialEq, Eq, Structural)]
pub enum OpDescr {
    Coll(CollDescr),
    P2p(P2pDescr),
}

/// What an operation is counted under in the summaries.
#[derive(Clone, Copy, Debug, PartialEq, Eq, Structural)]
pub enum OpKind {
    Coll(CollOpType),
    P2p(P2pDescr),
    /// One connection of the network proxy, with the rank at its other end.
    Net(i32),
}

/// Key of a family of like operations: communicator, local rank and kind.
#[derive(Clone, Copy, Debug, PartialEq, Eq, Structural)]
pub struct NcclOpKey {
    pub comm_hash: u64,
    pub local_rank: usize,
    pub kind: OpKind,
}

} // verus!
