//! Bits of NCCL's profiler event mask.
#![allow(non_upper_case_globals)]
use vstd::prelude::*;

verus! {

pub const ncclProfileGroup: i32 = 0x1;

pub const ncclProfileColl: i32 = 0x2;

pub const ncclProfileP2p: i32 = 0x4;

pub const ncclProfileProxyOp: i32 = 0x8;

pub const ncclProfileProxyStep: i32 = 0x10;

pub const ncclProfileKernelCh: i32 = 0x40;

pub const ncclProfileKernelStep: i32 = 0x1000;

} // verus!
