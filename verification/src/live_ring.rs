//! File-backed ring of packed records for live latency telemetry.
//!
//! One process writes the ring, one reads it. The file starts with a header
//! that holds the cursors of both sides, a magic number and a layout version;
//! `capacity` slots of one size follow. The capacity is a power of two, so a
//! cursor that wraps at the end of its counter still meets the next slot.
//!
//! The writer never waits: a full ring counts the record as dropped.
//!
//! [`RingWriter`] is the writer's image of the file. The code that maps the
//! file copies what the image changes, and tells it how far the reader is.
use crate::utf8_text;
use crate::views::{group_views, view_seq};
use vstd::arithmetic::power2::{lemma2_to64, pow2};
use vstd::prelude::*;
use vstd::slice::slice_subrange;

verus! {

/// ASCII `LIVERING`: shows that a mapped file is a live ring.
pub const RING_MAGIC: u64 = 0x4C495645_52494E47;

/// Changes with every incompatible slot layout.
pub const RING_LAYOUT_VERSION: u32 = 1;

/// Slots of a ring where nothing else is asked for.
pub const DEFAULT_RING_CAPACITY: u32 = 8192;

// Sizes of the text fields of a slot, the closing NUL counted.
pub const NAME_LEN: usize = 24;

pub const PARENT_NAME_LEN: usize = 16;

pub const COMM_NAME_LEN: usize = 32;

pub const HOST_LEN: usize = 32;

pub const IP_LEN: usize = 16;

/// Slots that are written before their cursor is published.
pub const PUBLISH_BATCH: u32 = 32;

/// Stands in a slot where no peer or rank is named.
pub const UNSET: i32 = -1;

/// Stands in a slot where no step is named.
pub const UNSET_STEP: i64 = -1;

// Layout of the file. Each cursor has a block of its own, so that the two
// sides do not share a cache line.
pub const RING_BLOCK: usize = 128;

pub const RD_IDX_OFFSET: usize = 128;

pub const WR_IDX_OFFSET: usize = 256;

pub const WR_IDX_PUB_OFFSET: usize = 384;

pub const DROPPED_OFFSET: usize = 512;

pub const CLOSED_OFFSET: usize = 640;

pub const RING_HEADER_SIZE: usize = 768;

pub const RING_SLOT_SIZE: usize = 272;

/// What a slot holds. `Empty` marks slots that were never written.
#[derive(Copy, Clone, Debug, Eq, PartialEq, Structural)]
pub enum SlotKind {
    Empty,
    /// A collective was issued.
    CollStart,
    /// A collective completed on the GPU.
    CollComplete,
    /// A send or receive was issued; `group_id` names its group.
    P2pStart,
    /// A send or receive completed.
    P2pComplete,
    /// First issue of a group of sends and receives.
    P2pGroupStart,
    /// Final child count of a group.
    P2pGroupSeal,
    /// A progress marker, posted or complete.
    StepProgress,
    /// First record of a communicator dump.
    CommInitHeader,
    /// One member of the communicator being dumped.
    CommInitMember,
    /// Copy timing of the kernel steps of one completed operation:
    /// `payload_bytes` bytes sent, `step` copy time in nanoseconds,
    /// `n_children` steps, `ts` end of the operation.
    KernelCopy,
}

impl SlotKind {
    pub open spec fn spec_code(self) -> u8 {
        match self {
            SlotKind::Empty => 0,
            SlotKind::CollStart => 1,
            SlotKind::CollComplete => 2,
            SlotKind::P2pStart => 3,
            SlotKind::P2pComplete => 4,
            SlotKind::P2pGroupStart => 5,
            SlotKind::P2pGroupSeal => 6,
            SlotKind::StepProgress => 7,
            SlotKind::CommInitHeader => 8,
            SlotKind::CommInitMember => 9,
            SlotKind::KernelCopy => 10,
        }
    }

    /// The byte that stands for this kind in a slot.
    pub fn code(self) -> (r: u8)
        ensures
            r == self.spec_code(),
    {
        match self {
            SlotKind::Empty => 0,
            SlotKind::CollStart => 1,
            SlotKind::CollComplete => 2,
            SlotKind::P2pStart => 3,
            SlotKind::P2pComplete => 4,
            SlotKind::P2pGroupStart => 5,
            SlotKind::P2pGroupSeal => 6,
            SlotKind::StepProgress => 7,
            SlotKind::CommInitHeader => 8,
            SlotKind::CommInitMember => 9,
            SlotKind::KernelCopy => 10,
        }
    }

    /// The kind that a byte stands for, if any.
    pub fn from_u8(v: u8) -> (r: Option<SlotKind>)
        ensures
            r is Some <==> v <= 10,
            r matches Some(k) ==> k.spec_code() == v,
    {
        match v {
            0 => Some(SlotKind::Empty),
            1 => Some(SlotKind::CollStart),
            2 => Some(SlotKind::CollComplete),
            3 => Some(SlotKind::P2pStart),
            4 => Some(SlotKind::P2pComplete),
            5 => Some(SlotKind::P2pGroupStart),
            6 => Some(SlotKind::P2pGroupSeal),
            7 => Some(SlotKind::StepProgress),
            8 => Some(SlotKind::CommInitHeader),
            9 => Some(SlotKind::CommInitMember),
            10 => Some(SlotKind::KernelCopy),
            _ => None,
        }
    }
}

// `source` of a progress marker.
pub const STEP_SOURCE_PROXY: u8 = 0;

pub const STEP_SOURCE_KERNEL: u8 = 1;

pub const STEP_SOURCE_KERNEL_CH: u8 = 2;

// `stage` of a progress marker.
pub const STEP_STAGE_POSTED: u8 = 0;

pub const STEP_STAGE_COMPLETE: u8 = 1;

/// One packed record. Every field is always there; `kind` says which of them
/// mean something. The others hold -1 where they name a peer or a rank, and 0
/// where they count.
#[derive(Copy, Clone)]
pub struct RingSlot {
    pub kind: u8,
    pub is_send: u8,
    /// `STEP_SOURCE_*` of a progress marker, else 0.
    pub source: u8,
    /// `STEP_STAGE_*` of a progress marker, else 0.
    pub stage: u8,
    pub _pad0: u32,
    pub rank: i32,
    pub world_rank: i32,
    /// Times are in microseconds.
    pub ts: i64,
    pub launch_ts: i64,
    pub duration_us: i64,
    pub comm_hash: u64,
    pub group_id: u64,
    pub seq_num: i64,
    pub payload_bytes: i64,
    pub self_copy_size: i64,
    pub peer: i32,
    pub channel: i32,
    pub step: i64,
    pub size: i64,
    pub n_children: u32,
    pub n_peers: u32,
    pub n_nodes: i32,
    pub n_ranks: i32,
    pub member_host_hash: u64,
    pub member_bus_id: i64,
    pub member_rank: i32,
    pub member_world_rank: i32,
    pub member_node: i32,
    pub member_cuda_dev: i32,
    pub name: [u8; NAME_LEN],
    pub parent_name: [u8; PARENT_NAME_LEN],
    pub comm_name: [u8; COMM_NAME_LEN],
    pub host: [u8; HOST_LEN],
    pub ip: [u8; IP_LEN],
}

/// `n` zero bytes.
pub open spec fn zeros(n: nat) -> Seq<u8> {
    Seq::new(n, |i: int| 0u8)
}

/// A slot with the text fields as byte sequences.
#[verifier::ext_equal]
pub struct SlotView {
    pub kind: u8,
    pub is_send: u8,
    pub source: u8,
    pub stage: u8,
    pub pad0: u32,
    pub rank: i32,
    pub world_rank: i32,
    pub ts: i64,
    pub launch_ts: i64,
    pub duration_us: i64,
    pub comm_hash: u64,
    pub group_id: u64,
    pub seq_num: i64,
    pub payload_bytes: i64,
    pub self_copy_size: i64,
    pub peer: i32,
    pub channel: i32,
    pub step: i64,
    pub size: i64,
    pub n_children: u32,
    pub n_peers: u32,
    pub n_nodes: i32,
    pub n_ranks: i32,
    pub member_host_hash: u64,
    pub member_bus_id: i64,
    pub member_rank: i32,
    pub member_world_rank: i32,
    pub member_node: i32,
    pub member_cuda_dev: i32,
    pub name: Seq<u8>,
    pub parent_name: Seq<u8>,
    pub comm_name: Seq<u8>,
    pub host: Seq<u8>,
    pub ip: Seq<u8>,
}

impl View for RingSlot {
    type V = SlotView;

    open spec fn view(&self) -> SlotView {
        SlotView {
            kind: self.kind,
            is_send: self.is_send,
            source: self.source,
            stage: self.stage,
            pad0: self._pad0,
            rank: self.rank,
            world_rank: self.world_rank,
            ts: self.ts,
            launch_ts: self.launch_ts,
            duration_us: self.duration_us,
            comm_hash: self.comm_hash,
            group_id: self.group_id,
            seq_num: self.seq_num,
            payload_bytes: self.payload_bytes,
            self_copy_size: self.self_copy_size,
            peer: self.peer,
            channel: self.channel,
            step: self.step,
            size: self.size,
            n_children: self.n_children,
            n_peers: self.n_peers,
            n_nodes: self.n_nodes,
            n_ranks: self.n_ranks,
            member_host_hash: self.member_host_hash,
            member_bus_id: self.member_bus_id,
            member_rank: self.member_rank,
            member_world_rank: self.member_world_rank,
            member_node: self.member_node,
            member_cuda_dev: self.member_cuda_dev,
            name: self.name@,
            parent_name: self.parent_name@,
            comm_name: self.comm_name@,
            host: self.host@,
            ip: self.ip@,
        }
    }
}

impl SlotView {
    /// The slot in which nothing is set.
    pub open spec fn blank() -> SlotView {
        SlotView {
            kind: 0,
            is_send: 0,
            source: 0,
            stage: 0,
            pad0: 0,
            rank: UNSET,
            world_rank: UNSET,
            ts: 0,
            launch_ts: 0,
            duration_us: 0,
            comm_hash: 0,
            group_id: 0,
            seq_num: 0,
            payload_bytes: 0,
            self_copy_size: 0,
            peer: UNSET,
            channel: UNSET,
            step: UNSET_STEP,
            size: 0,
            n_children: 0,
            n_peers: 0,
            n_nodes: 0,
            n_ranks: 0,
            member_host_hash: 0,
            member_bus_id: 0,
            member_rank: UNSET,
            member_world_rank: UNSET,
            member_node: UNSET,
            member_cuda_dev: UNSET,
            name: zeros(NAME_LEN as nat),
            parent_name: zeros(PARENT_NAME_LEN as nat),
            comm_name: zeros(COMM_NAME_LEN as nat),
            host: zeros(HOST_LEN as nat),
            ip: zeros(IP_LEN as nat),
        }
    }

    /// A slot of a new file, which holds nothing but zeros.
    pub open spec fn unwritten() -> SlotView {
        SlotView {
            rank: 0,
            world_rank: 0,
            peer: 0,
            channel: 0,
            step: 0,
            member_rank: 0,
            member_world_rank: 0,
            member_node: 0,
            member_cuda_dev: 0,
            ..SlotView::blank()
        }
    }
}

impl RingSlot {
    /// A slot in which nothing is set. Fields that name a peer or a rank hold
    /// -1.
    pub fn zeroed() -> (r: RingSlot)
        ensures
            r@ == SlotView::blank(),
    {
        let r = RingSlot {
            kind: 0,
            is_send: 0,
            source: 0,
            stage: 0,
            _pad0: 0,
            rank: UNSET,
            world_rank: UNSET,
            ts: 0,
            launch_ts: 0,
            duration_us: 0,
            comm_hash: 0,
            group_id: 0,
            seq_num: 0,
            payload_bytes: 0,
            self_copy_size: 0,
            peer: UNSET,
            channel: UNSET,
            step: UNSET_STEP,
            size: 0,
            n_children: 0,
            n_peers: 0,
            n_nodes: 0,
            n_ranks: 0,
            member_host_hash: 0,
            member_bus_id: 0,
            member_rank: UNSET,
            member_world_rank: UNSET,
            member_node: UNSET,
            member_cuda_dev: UNSET,
            name: [0u8; 24],
            parent_name: [0u8; 16],
            comm_name: [0u8; 32],
            host: [0u8; 32],
            ip: [0u8; 16],
        };
        assert(r@ =~= SlotView::blank());
        r
    }

    fn unwritten() -> (r: RingSlot)
        ensures
            r@ == SlotView::unwritten(),
    {
        let mut r: RingSlot = RingSlot::zeroed();
        r.rank = 0;
        r.world_rank = 0;
        r.peer = 0;
        r.channel = 0;
        r.step = 0;
        r.member_rank = 0;
        r.member_world_rank = 0;
        r.member_node = 0;
        r.member_cuda_dev = 0;
        r
    }
}

/// What a text field of `n` bytes holds of the text with the encoding
/// `bytes`: as much as leaves room for a closing NUL, and zeros behind it.
pub open spec fn packed(n: nat, bytes: Seq<u8>) -> Seq<u8> {
    let kept = if n == 0 {
        0
    } else if bytes.len() < n {
        bytes.len() as int
    } else {
        n - 1
    };
    bytes.take(kept) + zeros((n - kept) as nat)
}

/// Copies the text `src` into `dst`. The last byte of `dst` is always NUL, and
/// nothing of what `dst` held before is left.
pub fn pack_str(dst: &mut [u8], src: &str)
    ensures
        final(dst)@ == packed(old(dst)@.len(), vstd::utf8::encode_utf8(src@)),
{
    let len: usize = dst.len();
    let max: usize = if len == 0 {
        0
    } else {
        len - 1
    };
    let bytes: &[u8] = src.as_bytes();
    let n: usize = if bytes.len() < max {
        bytes.len()
    } else {
        max
    };
    let mut i: usize = 0;
    while i < len
        invariant
            i <= len,
            len == dst@.len(),
            len == old(dst)@.len(),
            n <= bytes@.len(),
            n <= len,
            forall|j: int| 0 <= j < i ==> #[trigger] dst@[j] == (if j < n {
                bytes@[j]
            } else {
                0u8
            }),
        decreases len - i,
    {
        if i < n {
            dst[i] = bytes[i];
        } else {
            dst[i] = 0;
        }
        i += 1;
    }
    assert(dst@ =~= packed(old(dst)@.len(), vstd::utf8::encode_utf8(src@)));
}

/// Where the text in `buf` ends: at its first NUL, or with `buf`.
pub open spec fn text_end(buf: Seq<u8>) -> nat
    decreases buf.len(),
{
    if buf.len() == 0 || buf[0] == 0 {
        0
    } else {
        1 + text_end(buf.drop_first())
    }
}

/// Reads the text that ends at the first NUL of `buf`. Bytes that are no
/// UTF-8 read as replacement characters.
pub fn unpack_str(buf: &[u8]) -> (r: String)
    ensures
        r@ == utf8_text::lossy_text(buf@.take(text_end(buf@) as int)),
        vstd::utf8::valid_utf8(buf@.take(text_end(buf@) as int)) ==> r@ == vstd::utf8::decode_utf8(
            buf@.take(text_end(buf@) as int),
        ),
{
    let mut end: usize = 0;
    assert(buf@.skip(0) =~= buf@);
    while end < buf.len() && buf[end] != 0
        invariant
            end <= buf@.len(),
            text_end(buf@) == end + text_end(buf@.skip(end as int)),
        decreases buf@.len() - end,
    {
        assert(buf@.skip(end as int).drop_first() =~= buf@.skip(end + 1));
        end += 1;
    }
    assert(text_end(buf@) == end);
    assert(buf@.subrange(0, end as int) =~= buf@.take(end as int));
    utf8_text::utf8_lossy(slice_subrange(buf, 0, end))
}

// ------------------------------------------------------------------ the header

/// A cursor or counter of 64 bits, alone in its block of the header.
#[derive(Copy, Clone, Debug, PartialEq, Eq, Structural)]
pub struct AtomicCellU64 {
    pub value: u64,
}

impl AtomicCellU64 {
    pub fn new(v: u64) -> (r: AtomicCellU64)
        ensures
            r.value == v,
    {
        AtomicCellU64 { value: v }
    }
}

/// A flag of 32 bits, alone in its block of the header.
#[derive(Copy, Clone, Debug, PartialEq, Eq, Structural)]
pub struct AtomicCellU32 {
    pub value: u32,
}

impl AtomicCellU32 {
    pub fn new(v: u32) -> (r: AtomicCellU32)
        ensures
            r.value == v,
    {
        AtomicCellU32 { value: v }
    }
}

/// What the file starts with. The slots follow directly behind it.
#[derive(Copy, Clone, Debug, PartialEq, Eq, Structural)]
pub struct RingHeader {
    pub magic: u64,
    pub version: u32,
    pub slot_size: u32,
    pub capacity: u32,
    pub producer_pid: u32,
    pub reserved0: u64,
    pub reserved1: u64,
    /// The slot that the reader reads next. The reader sets it.
    pub rd_idx: AtomicCellU64,
    /// The slot that the writer writes next.
    pub wr_idx: AtomicCellU64,
    /// How far the writer has published: the reader may rely on every slot
    /// before this one.
    pub wr_idx_pub: AtomicCellU64,
    /// Records that found the ring full.
    pub dropped: AtomicCellU64,
    /// 1 once the writer is done.
    pub closed: AtomicCellU32,
}

impl RingHeader {
    /// The header of a new ring.
    pub open spec fn fresh(capacity: u32, producer_pid: u32) -> RingHeader {
        RingHeader {
            magic: RING_MAGIC,
            version: RING_LAYOUT_VERSION,
            slot_size: 272,
            capacity,
            producer_pid,
            reserved0: 0,
            reserved1: 0,
            rd_idx: AtomicCellU64 { value: 0 },
            wr_idx: AtomicCellU64 { value: 0 },
            wr_idx_pub: AtomicCellU64 { value: 0 },
            dropped: AtomicCellU64 { value: 0 },
            closed: AtomicCellU32 { value: 0 },
        }
    }
}

/// Bytes of a file with `capacity` slots.
pub open spec fn file_size(capacity: u32) -> int {
    RING_HEADER_SIZE + capacity * RING_SLOT_SIZE
}

/// Bytes of a file with `capacity` slots.
pub fn ring_file_size(capacity: u32) -> (r: usize)
    requires
        file_size(capacity) <= usize::MAX,
    ensures
        r == file_size(capacity),
{
    RING_HEADER_SIZE + capacity as usize * RING_SLOT_SIZE
}

// ------------------------------------------------------------------ the writer

/// Whether a ring can have this many slots: a power of two.
pub open spec fn is_capacity(n: u32) -> bool {
    ||| n == 0x1
    ||| n == 0x2
    ||| n == 0x4
    ||| n == 0x8
    ||| n == 0x10
    ||| n == 0x20
    ||| n == 0x40
    ||| n == 0x80
    ||| n == 0x100
    ||| n == 0x200
    ||| n == 0x400
    ||| n == 0x800
    ||| n == 0x1000
    ||| n == 0x2000
    ||| n == 0x4000
    ||| n == 0x8000
    ||| n == 0x10000
    ||| n == 0x20000
    ||| n == 0x40000
    ||| n == 0x80000
    ||| n == 0x100000
    ||| n == 0x200000
    ||| n == 0x400000
    ||| n == 0x800000
    ||| n == 0x1000000
    ||| n == 0x2000000
    ||| n == 0x4000000
    ||| n == 0x8000000
    ||| n == 0x10000000
    ||| n == 0x20000000
    ||| n == 0x40000000
    ||| n == 0x80000000
}

/// Whether a ring can have this many slots.
pub fn is_ring_capacity(n: u32) -> (r: bool)
    ensures
        r == is_capacity(n),
{
    let mut c: u32 = n;
    while c > 1 && c % 2 == 0
        invariant
            c <= n,
            is_capacity(c) == is_capacity(n),
        decreases c,
    {
        proof {
            lemma_halved_capacity(c);
        }
        c = c / 2;
    }
    c == 1
}

/// An even number is a power of two where its half is.
proof fn lemma_halved_capacity(c: u32)
    requires
        c > 1,
        c % 2 == 0,
    ensures
        is_capacity(c) == is_capacity(c / 2),
{
    assert(c / 2 + c / 2 == c);
}

/// The exponent of a power of two.
pub proof fn lemma_capacity(n: u32) -> (k: nat)
    requires
        is_capacity(n),
    ensures
        k < 32,
        n == pow2(k),
{
    lemma2_to64();
    choose|k: nat| k < 32 && n == #[trigger] pow2(k)
}

/// How far the cursor `a` is ahead of `b`. Cursors wrap at the end of their
/// counter.
pub open spec fn ahead(a: u64, b: u64) -> int {
    if a >= b {
        a - b
    } else {
        a - b + 0x1_0000_0000_0000_0000
    }
}

/// The cursor behind `a`.
pub open spec fn next_cursor(a: u64) -> u64 {
    if a == u64::MAX {
        0
    } else {
        (a + 1) as u64
    }
}

/// The writer of a ring: its image of the file, how far it wrote, how far it
/// last saw the reader, and how many slots it has not published.
pub struct RingWriter {
    header: RingHeader,
    slots: Vec<RingSlot>,
    wr_idx_cache: u64,
    rd_idx_cache: u64,
    pending_commit: u32,
}

/// The value of a [`RingWriter`].
#[verifier::ext_equal]
pub struct RingView {
    pub header: RingHeader,
    pub slots: Seq<SlotView>,
    pub wr: u64,
    pub rd_seen: u64,
    pub pending: u32,
}

impl View for RingWriter {
    type V = RingView;

    closed spec fn view(&self) -> RingView {
        RingView {
            header: self.header,
            slots: view_seq(self.slots@),
            wr: self.wr_idx_cache,
            rd_seen: self.rd_idx_cache,
            pending: self.pending_commit,
        }
    }
}

impl RingView {
    /// What holds of a writer at all times: there are as many slots as the
    /// header says, the header shows the write cursor, and the published
    /// cursor is behind it by the slots that are not published, fewer than a
    /// batch.
    pub open spec fn wf(self) -> bool {
        &&& is_capacity(self.header.capacity)
        &&& self.slots.len() == self.header.capacity
        &&& self.header.wr_idx.value == self.wr
        &&& self.pending < PUBLISH_BATCH
        &&& ahead(self.wr, self.header.wr_idx_pub.value) == self.pending
    }

    pub open spec fn fresh(capacity: u32, producer_pid: u32) -> RingView {
        RingView {
            header: RingHeader::fresh(capacity, producer_pid),
            slots: Seq::new(capacity as nat, |i: int| SlotView::unwritten()),
            wr: 0,
            rd_seen: 0,
            pending: 0,
        }
    }

    /// Where the slot of the cursor `i` stands.
    pub open spec fn place(self, i: u64) -> int {
        i as int % self.header.capacity as int
    }

    /// The slot of the cursor `i`.
    pub open spec fn slot(self, i: u64) -> SlotView {
        self.slots[self.place(i)]
    }

    /// Whether a slot is free, as far as the writer can tell: by where it last
    /// saw the reader, else by where the reader is now.
    pub open spec fn has_room(self) -> bool {
        ahead(self.wr, self.rd_seen) < self.header.capacity || ahead(
            self.wr,
            self.header.rd_idx.value,
        ) < self.header.capacity
    }

    /// Where the writer saw the reader after a push: it looks only when it
    /// seems to be out of room.
    pub open spec fn rd_after_push(self) -> u64 {
        if ahead(self.wr, self.rd_seen) < self.header.capacity {
            self.rd_seen
        } else {
            self.header.rd_idx.value
        }
    }

    /// Everything that was written is published.
    pub open spec fn flushed(self) -> RingView {
        RingView {
            header: RingHeader {
                wr_idx: AtomicCellU64 { value: self.wr },
                wr_idx_pub: AtomicCellU64 { value: self.wr },
                ..self.header
            },
            pending: 0,
            ..self
        }
    }

    pub open spec fn closed(self) -> RingView {
        let f = self.flushed();
        RingView { header: RingHeader { closed: AtomicCellU32 { value: 1 }, ..f.header }, ..f }
    }

    /// The record `s` was written where there was room, else counted as
    /// dropped.
    pub open spec fn pushed(self, s: SlotView) -> RingView {
        if self.has_room() {
            let wr = next_cursor(self.wr);
            let written = RingView {
                header: RingHeader { wr_idx: AtomicCellU64 { value: wr }, ..self.header },
                slots: self.slots.update(self.place(self.wr), s),
                wr,
                rd_seen: self.rd_after_push(),
                pending: (self.pending + 1) as u32,
            };
            if self.pending + 1 >= PUBLISH_BATCH {
                written.flushed()
            } else {
                written
            }
        } else {
            RingView {
                header: RingHeader {
                    dropped: AtomicCellU64 { value: next_cursor(self.header.dropped.value) },
                    ..self.header
                },
                rd_seen: self.rd_after_push(),
                ..self
            }
        }
    }
}

proof fn lemma_mask(i: u64, capacity: u32)
    requires
        is_capacity(capacity),
    ensures
        capacity >= 1,
        i & ((capacity as u64 - 1) as u64) == i as int % capacity as int,
{
    let k = lemma_capacity(capacity);
    vstd::arithmetic::power2::lemma_pow2_pos(k);
    vstd::bits::lemma_u64_low_bits_mask_is_mod(i, k);
}

impl RingWriter {
    /// The image of a new ring.
    pub fn create(capacity: u32, producer_pid: u32) -> (r: RingWriter)
        requires
            is_capacity(capacity),
        ensures
            r@ == RingView::fresh(capacity, producer_pid),
            r@.wf(),
    {
        broadcast use group_views;

        let mut slots: Vec<RingSlot> = Vec::new();
        let mut i: u32 = 0;
        while i < capacity
            invariant
                i <= capacity,
                slots@.len() == i,
                forall|j: int| 0 <= j < i ==> (#[trigger] slots@[j])@ == SlotView::unwritten(),
            decreases capacity - i,
        {
            slots.push(RingSlot::unwritten());
            i += 1;
        }
        assert(view_seq(slots@) =~= RingView::fresh(capacity, producer_pid).slots);
        RingWriter {
            header: RingHeader {
                magic: RING_MAGIC,
                version: RING_LAYOUT_VERSION,
                slot_size: RING_SLOT_SIZE as u32,
                capacity,
                producer_pid,
                reserved0: 0,
                reserved1: 0,
                rd_idx: AtomicCellU64::new(0),
                wr_idx: AtomicCellU64::new(0),
                wr_idx_pub: AtomicCellU64::new(0),
                dropped: AtomicCellU64::new(0),
                closed: AtomicCellU32::new(0),
            },
            slots,
            wr_idx_cache: 0,
            rd_idx_cache: 0,
            pending_commit: 0,
        }
    }

    /// Tells the image where the reader is.
    pub fn observe_reader(&mut self, rd_idx: u64)
        requires
            old(self)@.wf(),
        ensures
            final(self)@ == (RingView {
                header: RingHeader {
                    rd_idx: AtomicCellU64 { value: rd_idx },
                    ..old(self)@.header
                },
                ..old(self)@
            }),
            final(self)@.wf(),
    {
        self.header.rd_idx = AtomicCellU64::new(rd_idx);
    }

    /// Writes a record. Where the ring is full it is counted as dropped and
    /// `Err` returned; this never waits.
    pub fn push(&mut self, slot: &RingSlot) -> (r: Result<(), ()>)
        requires
            old(self)@.wf(),
        ensures
            final(self)@ == old(self)@.pushed(slot@),
            final(self)@.wf(),
            r is Ok <==> old(self)@.has_room(),
    {
        broadcast use group_views;

        let capacity: u64 = self.header.capacity as u64;
        let wr: u64 = self.wr_idx_cache;
        if wr.wrapping_sub(self.rd_idx_cache) >= capacity {
            let seen: u64 = self.header.rd_idx.value;
            self.rd_idx_cache = seen;
            if wr.wrapping_sub(seen) >= capacity {
                self.header.dropped = AtomicCellU64::new(self.header.dropped.value.wrapping_add(1));
                return Err(());
            }
        }
        proof {
            lemma_mask(wr, self.header.capacity);
            vstd::arithmetic::div_mod::lemma_mod_bound(wr as int, capacity as int);
        }
        let place: usize = (wr & (capacity - 1)) as usize;
        self.slots.set(place, *slot);
        self.wr_idx_cache = wr.wrapping_add(1);
        self.pending_commit = self.pending_commit.saturating_add(1);
        if self.pending_commit >= PUBLISH_BATCH {
            self.publish();
        } else {
            self.header.wr_idx = AtomicCellU64::new(self.wr_idx_cache);
        }
        assert(self@ =~= old(self)@.pushed(slot@));
        Ok(())
    }

    fn publish(&mut self)
        ensures
            final(self)@ == old(self)@.flushed(),
    {
        let wr: u64 = self.wr_idx_cache;
        self.header.wr_idx = AtomicCellU64::new(wr);
        self.header.wr_idx_pub = AtomicCellU64::new(wr);
        self.pending_commit = 0;
    }

    /// Publishes everything that was written.
    pub fn flush(&mut self)
        requires
            old(self)@.wf(),
        ensures
            final(self)@ == old(self)@.flushed(),
            final(self)@.wf(),
    {
        self.publish();
    }

    /// Publishes everything and tells the reader that nothing follows.
    pub fn close(&mut self)
        requires
            old(self)@.wf(),
        ensures
            final(self)@ == old(self)@.closed(),
            final(self)@.wf(),
    {
        self.publish();
        self.header.closed = AtomicCellU32::new(1);
    }

    /// Records that found the ring full.
    pub fn dropped(&self) -> (r: u64)
        ensures
            r == self@.header.dropped.value,
    {
        self.header.dropped.value
    }

    pub fn capacity(&self) -> (r: u32)
        ensures
            r == self@.header.capacity,
    {
        self.header.capacity
    }

    /// The header as it stands.
    pub fn header(&self) -> (r: RingHeader)
        ensures
            r == self@.header,
    {
        self.header
    }

    /// The slot of the cursor `i`.
    pub fn slot_at(&self, i: u64) -> (r: RingSlot)
        requires
            self@.wf(),
        ensures
            r@ == self@.slot(i),
    {
        let capacity: u64 = self.header.capacity as u64;
        proof {
            lemma_mask(i, self.header.capacity);
            vstd::arithmetic::div_mod::lemma_mod_bound(i as int, capacity as int);
        }
        self.slots[(i & (capacity - 1)) as usize]
    }

    /// The slot that is written next.
    pub fn write_cursor(&self) -> (r: u64)
        ensures
            r == self@.wr,
    {
        self.wr_idx_cache
    }
}

} // verus!
