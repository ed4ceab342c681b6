//! The bytes of a ring file. Numbers stand with their lowest byte first.
use crate::live_ring::{
    file_size, zeros, RingHeader, RingSlot, SlotView, CLOSED_OFFSET, COMM_NAME_LEN, DROPPED_OFFSET,
    HOST_LEN, IP_LEN, NAME_LEN, PARENT_NAME_LEN, RD_IDX_OFFSET, RING_BLOCK, RING_HEADER_SIZE,
    RING_SLOT_SIZE, WR_IDX_OFFSET, WR_IDX_PUB_OFFSET,
};
use vstd::prelude::*;

verus! {

/// A number of 32 bits, lowest byte first.
#[verifier::opaque]
pub open spec fn le32(x: u32) -> Seq<u8> {
    seq![
        (x % 0x100) as u8,
        (x / 0x100 % 0x100) as u8,
        (x / 0x1_0000 % 0x100) as u8,
        (x / 0x100_0000) as u8,
    ]
}

/// A number of 64 bits, lowest byte first.
#[verifier::opaque]
pub open spec fn le64(x: u64) -> Seq<u8> {
    le32((x % 0x1_0000_0000) as u32) + le32((x / 0x1_0000_0000) as u32)
}

/// A negative number stands as its two's complement.
pub open spec fn le32s(x: i32) -> Seq<u8> {
    le32(
        if x < 0 {
            (x + 0x1_0000_0000) as u32
        } else {
            x as u32
        },
    )
}

/// A negative number stands as its two's complement.
pub open spec fn le64s(x: i64) -> Seq<u8> {
    le64(
        if x < 0 {
            (x + 0x1_0000_0000_0000_0000) as u64
        } else {
            x as u64
        },
    )
}

impl SlotView {
    /// Whether the text fields have their sizes.
    pub open spec fn wf(self) -> bool {
        &&& self.name.len() == NAME_LEN
        &&& self.parent_name.len() == PARENT_NAME_LEN
        &&& self.comm_name.len() == COMM_NAME_LEN
        &&& self.host.len() == HOST_LEN
        &&& self.ip.len() == IP_LEN
    }

    /// Bytes 0 to 40: kind, identity and times.
    pub open spec fn head_bytes(self) -> Seq<u8> {
        seq![self.kind, self.is_send, self.source, self.stage] + le32(self.pad0) + le32s(self.rank)
            + le32s(self.world_rank) + le64s(self.ts) + le64s(self.launch_ts) + le64s(
            self.duration_us,
        )
    }

    /// Bytes 40 to 80: keys and payload sizes.
    pub open spec fn key_bytes(self) -> Seq<u8> {
        le64(self.comm_hash) + le64(self.group_id) + le64s(self.seq_num) + le64s(self.payload_bytes)
            + le64s(self.self_copy_size)
    }

    /// Bytes 80 to 120: the transfer, the shape of a group and of a
    /// communicator.
    pub open spec fn child_bytes(self) -> Seq<u8> {
        le32s(self.peer) + le32s(self.channel) + le64s(self.step) + le64s(self.size) + le32(
            self.n_children,
        ) + le32(self.n_peers) + le32s(self.n_nodes) + le32s(self.n_ranks)
    }

    /// Bytes 120 to 152: a member of a communicator.
    pub open spec fn member_bytes(self) -> Seq<u8> {
        le64(self.member_host_hash) + le64s(self.member_bus_id) + le32s(self.member_rank) + le32s(
            self.member_world_rank,
        ) + le32s(self.member_node) + le32s(self.member_cuda_dev)
    }

    /// The rest: the texts.
    pub open spec fn text_bytes(self) -> Seq<u8> {
        self.name + self.parent_name + self.comm_name + self.host + self.ip
    }

    /// A slot as it stands in the file.
    pub open spec fn bytes(self) -> Seq<u8> {
        self.head_bytes() + self.key_bytes() + self.child_bytes() + self.member_bytes()
            + self.text_bytes()
    }
}

fn put32(out: &mut Vec<u8>, x: u32)
    ensures
        final(out)@ == old(out)@ + le32(x),
{
    out.push((x % 0x100) as u8);
    out.push((x / 0x100 % 0x100) as u8);
    out.push((x / 0x1_0000 % 0x100) as u8);
    out.push((x / 0x100_0000) as u8);
    proof {
        reveal(le32);
    }
    assert(out@ =~= old(out)@ + le32(x));
}

fn put64(out: &mut Vec<u8>, x: u64)
    ensures
        final(out)@ == old(out)@ + le64(x),
{
    put32(out, (x % 0x1_0000_0000) as u32);
    put32(out, (x / 0x1_0000_0000) as u32);
    proof {
        reveal(le64);
    }
    assert(out@ =~= old(out)@ + le64(x));
}

fn put32s(out: &mut Vec<u8>, x: i32)
    ensures
        final(out)@ == old(out)@ + le32s(x),
{
    assert(x < 0 ==> x as u32 == x + 0x1_0000_0000) by (bit_vector);
    put32(out, x as u32);
}

fn put64s(out: &mut Vec<u8>, x: i64)
    ensures
        final(out)@ == old(out)@ + le64s(x),
{
    assert(x < 0 ==> x as u64 == x + 0x1_0000_0000_0000_0000) by (bit_vector);
    put64(out, x as u64);
}

fn put_all(out: &mut Vec<u8>, text: &[u8])
    ensures
        final(out)@ == old(out)@ + text@,
{
    let mut i: usize = 0;
    assert(text@.take(0) =~= Seq::<u8>::empty());
    assert(out@ =~= old(out)@ + text@.take(0));
    while i < text.len()
        invariant
            i <= text@.len(),
            out@ == old(out)@ + text@.take(i as int),
        decreases text@.len() - i,
    {
        out.push(text[i]);
        assert(out@ =~= old(out)@ + text@.take(i + 1));
        i += 1;
    }
    assert(text@.take(i as int) =~= text@);
}

impl RingSlot {
    fn put_head(&self, out: &mut Vec<u8>)
        ensures
            final(out)@ == old(out)@ + self@.head_bytes(),
    {
        out.push(self.kind);
        out.push(self.is_send);
        out.push(self.source);
        out.push(self.stage);
        put32(out, self._pad0);
        put32s(out, self.rank);
        put32s(out, self.world_rank);
        put64s(out, self.ts);
        put64s(out, self.launch_ts);
        put64s(out, self.duration_us);
        assert(out@ =~= old(out)@ + self@.head_bytes());
    }

    fn put_keys(&self, out: &mut Vec<u8>)
        ensures
            final(out)@ == old(out)@ + self@.key_bytes(),
    {
        put64(out, self.comm_hash);
        put64(out, self.group_id);
        put64s(out, self.seq_num);
        put64s(out, self.payload_bytes);
        put64s(out, self.self_copy_size);
        assert(out@ =~= old(out)@ + self@.key_bytes());
    }

    fn put_child(&self, out: &mut Vec<u8>)
        ensures
            final(out)@ == old(out)@ + self@.child_bytes(),
    {
        put32s(out, self.peer);
        put32s(out, self.channel);
        put64s(out, self.step);
        put64s(out, self.size);
        put32(out, self.n_children);
        put32(out, self.n_peers);
        put32s(out, self.n_nodes);
        put32s(out, self.n_ranks);
        assert(out@ =~= old(out)@ + self@.child_bytes());
    }

    fn put_member(&self, out: &mut Vec<u8>)
        ensures
            final(out)@ == old(out)@ + self@.member_bytes(),
    {
        put64(out, self.member_host_hash);
        put64s(out, self.member_bus_id);
        put32s(out, self.member_rank);
        put32s(out, self.member_world_rank);
        put32s(out, self.member_node);
        put32s(out, self.member_cuda_dev);
        assert(out@ =~= old(out)@ + self@.member_bytes());
    }

    fn put_texts(&self, out: &mut Vec<u8>)
        ensures
            final(out)@ == old(out)@ + self@.text_bytes(),
    {
        put_all(out, &self.name);
        put_all(out, &self.parent_name);
        put_all(out, &self.comm_name);
        put_all(out, &self.host);
        put_all(out, &self.ip);
        assert(out@ =~= old(out)@ + self@.text_bytes());
    }

    /// The slot as it stands in the file.
    pub fn to_bytes(&self) -> (r: Vec<u8>)
        ensures
            r@ == self@.bytes(),
            r@.len() == RING_SLOT_SIZE,
    {
        let mut out: Vec<u8> = Vec::new();
        self.put_head(&mut out);
        self.put_keys(&mut out);
        self.put_child(&mut out);
        self.put_member(&mut out);
        self.put_texts(&mut out);
        assert(out@ =~= self@.bytes());
        proof {
            lemma_slot_size(self@);
        }
        out
    }
}

proof fn lemma_slot_size(s: SlotView)
    requires
        s.wf(),
    ensures
        s.head_bytes().len() == 40,
        s.key_bytes().len() == 40,
        s.child_bytes().len() == 40,
        s.member_bytes().len() == 32,
        s.text_bytes().len() == 120,
        s.bytes().len() == RING_SLOT_SIZE,
{
    lemma_le_lens();
}

proof fn lemma_le_lens()
    ensures
        forall|x: u32| #[trigger] le32(x).len() == 4,
        forall|y: u64| #[trigger] le64(y).len() == 8,
{
    reveal(le32);
    reveal(le64);
}

/// The parts of a slot stand where the layout says.
pub proof fn law_parts_stand_at_their_offsets(s: SlotView)
    requires
        s.wf(),
    ensures
        s.bytes().subrange(0, 40) == s.head_bytes(),
        s.bytes().subrange(40, 80) == s.key_bytes(),
        s.bytes().subrange(80, 120) == s.child_bytes(),
        s.bytes().subrange(120, 152) == s.member_bytes(),
        s.bytes().subrange(152, 272) == s.text_bytes(),
{
    lemma_slot_size(s);
    assert(s.bytes().subrange(0, 40) =~= s.head_bytes());
    assert(s.bytes().subrange(40, 80) =~= s.key_bytes());
    assert(s.bytes().subrange(80, 120) =~= s.child_bytes());
    assert(s.bytes().subrange(120, 152) =~= s.member_bytes());
    assert(s.bytes().subrange(152, 272) =~= s.text_bytes());
}

/// The fields in this part of a slot stand where the layout says.
pub proof fn law_head_fields_stand_at_their_offsets(s: SlotView)
    ensures
        s.head_bytes()[0] == s.kind,
        s.head_bytes()[1] == s.is_send,
        s.head_bytes()[2] == s.source,
        s.head_bytes()[3] == s.stage,
        s.head_bytes().subrange(4, 8) == le32(s.pad0),
        s.head_bytes().subrange(8, 12) == le32s(s.rank),
        s.head_bytes().subrange(12, 16) == le32s(s.world_rank),
        s.head_bytes().subrange(16, 24) == le64s(s.ts),
        s.head_bytes().subrange(24, 32) == le64s(s.launch_ts),
        s.head_bytes().subrange(32, 40) == le64s(s.duration_us),
{
    lemma_le_lens();
    assert(s.head_bytes().subrange(4, 8) =~= le32(s.pad0));
    assert(s.head_bytes().subrange(8, 12) =~= le32s(s.rank));
    assert(s.head_bytes().subrange(12, 16) =~= le32s(s.world_rank));
    assert(s.head_bytes().subrange(16, 24) =~= le64s(s.ts));
    assert(s.head_bytes().subrange(24, 32) =~= le64s(s.launch_ts));
    assert(s.head_bytes().subrange(32, 40) =~= le64s(s.duration_us));
}

/// The fields in this part of a slot stand where the layout says.
pub proof fn law_key_fields_stand_at_their_offsets(s: SlotView)
    ensures
        s.key_bytes().subrange(0, 8) == le64(s.comm_hash),
        s.key_bytes().subrange(8, 16) == le64(s.group_id),
        s.key_bytes().subrange(16, 24) == le64s(s.seq_num),
        s.key_bytes().subrange(24, 32) == le64s(s.payload_bytes),
        s.key_bytes().subrange(32, 40) == le64s(s.self_copy_size),
{
    lemma_le_lens();
    assert(s.key_bytes().subrange(0, 8) =~= le64(s.comm_hash));
    assert(s.key_bytes().subrange(8, 16) =~= le64(s.group_id));
    assert(s.key_bytes().subrange(16, 24) =~= le64s(s.seq_num));
    assert(s.key_bytes().subrange(24, 32) =~= le64s(s.payload_bytes));
    assert(s.key_bytes().subrange(32, 40) =~= le64s(s.self_copy_size));
}

/// The fields in this part of a slot stand where the layout says.
pub proof fn law_child_fields_stand_at_their_offsets(s: SlotView)
    ensures
        s.child_bytes().subrange(0, 4) == le32s(s.peer),
        s.child_bytes().subrange(4, 8) == le32s(s.channel),
        s.child_bytes().subrange(8, 16) == le64s(s.step),
        s.child_bytes().subrange(16, 24) == le64s(s.size),
        s.child_bytes().subrange(24, 28) == le32(s.n_children),
        s.child_bytes().subrange(28, 32) == le32(s.n_peers),
        s.child_bytes().subrange(32, 36) == le32s(s.n_nodes),
        s.child_bytes().subrange(36, 40) == le32s(s.n_ranks),
{
    lemma_le_lens();
    assert(s.child_bytes().subrange(0, 4) =~= le32s(s.peer));
    assert(s.child_bytes().subrange(4, 8) =~= le32s(s.channel));
    assert(s.child_bytes().subrange(8, 16) =~= le64s(s.step));
    assert(s.child_bytes().subrange(16, 24) =~= le64s(s.size));
    assert(s.child_bytes().subrange(24, 28) =~= le32(s.n_children));
    assert(s.child_bytes().subrange(28, 32) =~= le32(s.n_peers));
    assert(s.child_bytes().subrange(32, 36) =~= le32s(s.n_nodes));
    assert(s.child_bytes().subrange(36, 40) =~= le32s(s.n_ranks));
}

/// The fields in this part of a slot stand where the layout says.
pub proof fn law_member_fields_stand_at_their_offsets(s: SlotView)
    ensures
        s.member_bytes().subrange(0, 8) == le64(s.member_host_hash),
        s.member_bytes().subrange(8, 16) == le64s(s.member_bus_id),
        s.member_bytes().subrange(16, 20) == le32s(s.member_rank),
        s.member_bytes().subrange(20, 24) == le32s(s.member_world_rank),
        s.member_bytes().subrange(24, 28) == le32s(s.member_node),
        s.member_bytes().subrange(28, 32) == le32s(s.member_cuda_dev),
{
    lemma_le_lens();
    assert(s.member_bytes().subrange(0, 8) =~= le64(s.member_host_hash));
    assert(s.member_bytes().subrange(8, 16) =~= le64s(s.member_bus_id));
    assert(s.member_bytes().subrange(16, 20) =~= le32s(s.member_rank));
    assert(s.member_bytes().subrange(20, 24) =~= le32s(s.member_world_rank));
    assert(s.member_bytes().subrange(24, 28) =~= le32s(s.member_node));
    assert(s.member_bytes().subrange(28, 32) =~= le32s(s.member_cuda_dev));
}

/// The texts of a slot stand where the layout says.
pub proof fn law_texts_stand_at_their_offsets(s: SlotView)
    requires
        s.wf(),
    ensures
        s.text_bytes().subrange(0, 24) == s.name,
        s.text_bytes().subrange(24, 40) == s.parent_name,
        s.text_bytes().subrange(40, 72) == s.comm_name,
        s.text_bytes().subrange(72, 104) == s.host,
        s.text_bytes().subrange(104, 120) == s.ip,
{
    assert(s.text_bytes().subrange(0, 24) =~= s.name);
    assert(s.text_bytes().subrange(24, 40) =~= s.parent_name);
    assert(s.text_bytes().subrange(40, 72) =~= s.comm_name);
    assert(s.text_bytes().subrange(72, 104) =~= s.host);
    assert(s.text_bytes().subrange(104, 120) =~= s.ip);
}

proof fn lemma_le32_faithful(a: u32, b: u32)
    requires
        le32(a) == le32(b),
    ensures
        a == b,
{
    reveal(le32);
    assert(le32(a)[0] == le32(b)[0] && le32(a)[1] == le32(b)[1] && le32(a)[2] == le32(b)[2]
        && le32(a)[3] == le32(b)[3]);
}

proof fn lemma_le64_faithful(a: u64, b: u64)
    requires
        le64(a) == le64(b),
    ensures
        a == b,
{
    lemma_le_lens();
    reveal(le64);
    let (low, high) = ((a % 0x1_0000_0000) as u32, (a / 0x1_0000_0000) as u32);
    let (other_low, other_high) = ((b % 0x1_0000_0000) as u32, (b / 0x1_0000_0000) as u32);
    assert(le64(a).take(4) =~= le32(low) && le64(b).take(4) =~= le32(other_low));
    assert(le64(a).skip(4) =~= le32(high) && le64(b).skip(4) =~= le32(other_high));
    lemma_le32_faithful(low, other_low);
    lemma_le32_faithful(high, other_high);
}

proof fn lemma_le_faithful()
    ensures
        forall|a: u32, b: u32| #[trigger] le32(a) == #[trigger] le32(b) ==> a == b,
        forall|a: u64, b: u64| #[trigger] le64(a) == #[trigger] le64(b) ==> a == b,
        forall|a: i32, b: i32| #[trigger] le32s(a) == #[trigger] le32s(b) ==> a == b,
        forall|a: i64, b: i64| #[trigger] le64s(a) == #[trigger] le64s(b) ==> a == b,
{
    assert forall|a: u32, b: u32| #[trigger] le32(a) == #[trigger] le32(b) implies a == b by {
        lemma_le32_faithful(a, b);
    }
    assert forall|a: u64, b: u64| #[trigger] le64(a) == #[trigger] le64(b) implies a == b by {
        lemma_le64_faithful(a, b);
    }
}

/// The bytes of a slot say everything about it: two slots with the same bytes
/// are the same.
pub proof fn law_slot_bytes_are_faithful(a: SlotView, b: SlotView)
    requires
        a.wf(),
        b.wf(),
        a.bytes() == b.bytes(),
    ensures
        a == b,
{
    law_parts_stand_at_their_offsets(a);
    law_parts_stand_at_their_offsets(b);
    law_head_fields_stand_at_their_offsets(a);
    law_head_fields_stand_at_their_offsets(b);
    law_key_fields_stand_at_their_offsets(a);
    law_key_fields_stand_at_their_offsets(b);
    law_child_fields_stand_at_their_offsets(a);
    law_child_fields_stand_at_their_offsets(b);
    law_member_fields_stand_at_their_offsets(a);
    law_member_fields_stand_at_their_offsets(b);
    law_texts_stand_at_their_offsets(a);
    law_texts_stand_at_their_offsets(b);
    lemma_le_faithful();
    assert(a =~= b);
}

/// A slot of a new file holds nothing but zeros.
pub proof fn law_unwritten_slots_are_zeros()
    ensures
        SlotView::unwritten().bytes() == zeros(RING_SLOT_SIZE as nat),
{
    reveal(le32);
    reveal(le64);
    let s = SlotView::unwritten();
    assert(le32(0) =~= zeros(4));
    assert(le64(0) =~= zeros(8));
    lemma_slot_size(s);
    assert(s.head_bytes() =~= zeros(40));
    assert(s.key_bytes() =~= zeros(40));
    assert(s.child_bytes() =~= zeros(40));
    assert(s.member_bytes() =~= zeros(32));
    assert(s.text_bytes() =~= zeros(120));
    assert(s.bytes() =~= zeros(RING_SLOT_SIZE as nat));
}

// ------------------------------------------------------------------ the header

/// `b` with zeros behind it, up to `n` bytes.
pub open spec fn padded(b: Seq<u8>, n: nat) -> Seq<u8> {
    b + zeros((n - b.len()) as nat)
}

impl RingHeader {
    /// The fields in front of the cursors.
    pub open spec fn front_bytes(self) -> Seq<u8> {
        le64(self.magic) + le32(self.version) + le32(self.slot_size) + le32(self.capacity) + le32(
            self.producer_pid,
        ) + le64(self.reserved0) + le64(self.reserved1)
    }

    /// The header as it stands in the file.
    pub open spec fn bytes(self) -> Seq<u8> {
        padded(self.front_bytes(), RING_BLOCK as nat) + padded(
            le64(self.rd_idx.value),
            RING_BLOCK as nat,
        ) + padded(le64(self.wr_idx.value), RING_BLOCK as nat) + padded(
            le64(self.wr_idx_pub.value),
            RING_BLOCK as nat,
        ) + padded(le64(self.dropped.value), RING_BLOCK as nat) + padded(
            le32(self.closed.value),
            RING_BLOCK as nat,
        )
    }
}

fn put_block(out: &mut Vec<u8>, b: Vec<u8>)
    requires
        b@.len() <= RING_BLOCK,
    ensures
        final(out)@ == old(out)@ + padded(b@, RING_BLOCK as nat),
{
    let mut b = b;
    let ghost given = b@;
    while b.len() < RING_BLOCK
        invariant
            given.len() <= b@.len() <= RING_BLOCK,
            b@ == padded(given, b@.len()),
        decreases RING_BLOCK - b@.len(),
    {
        b.push(0);
        assert(b@ =~= padded(given, b@.len()));
    }
    out.append(&mut b);
}

fn cell_bytes(x: u64) -> (r: Vec<u8>)
    ensures
        r@ == le64(x),
        r@.len() == 8,
{
    let mut r: Vec<u8> = Vec::new();
    put64(&mut r, x);
    assert(r@ =~= le64(x));
    proof {
        lemma_le_lens();
    }
    r
}

impl RingHeader {
    fn front(&self) -> (r: Vec<u8>)
        ensures
            r@ == self.front_bytes(),
            r@.len() == 40,
    {
        let mut out: Vec<u8> = Vec::new();
        put64(&mut out, self.magic);
        put32(&mut out, self.version);
        put32(&mut out, self.slot_size);
        put32(&mut out, self.capacity);
        put32(&mut out, self.producer_pid);
        put64(&mut out, self.reserved0);
        put64(&mut out, self.reserved1);
        assert(out@ =~= self.front_bytes());
        proof {
            lemma_front_size(*self);
        }
        out
    }

    /// The header as it stands in the file.
    pub fn to_bytes(&self) -> (r: Vec<u8>)
        ensures
            r@ == self.bytes(),
            r@.len() == RING_HEADER_SIZE,
    {
        let mut out: Vec<u8> = Vec::new();
        put_block(&mut out, self.front());
        put_block(&mut out, cell_bytes(self.rd_idx.value));
        put_block(&mut out, cell_bytes(self.wr_idx.value));
        put_block(&mut out, cell_bytes(self.wr_idx_pub.value));
        put_block(&mut out, cell_bytes(self.dropped.value));
        proof {
            lemma_le_lens();
            lemma_header_size(*self);
        }
        let mut closed: Vec<u8> = Vec::new();
        put32(&mut closed, self.closed.value);
        assert(closed@ =~= le32(self.closed.value));
        put_block(&mut out, closed);
        assert(out@ =~= self.bytes());
        out
    }
}

proof fn lemma_front_size(h: RingHeader)
    ensures
        h.front_bytes().len() == 40,
{
    lemma_le_lens();
}

proof fn lemma_header_size(h: RingHeader)
    ensures
        h.bytes().len() == RING_HEADER_SIZE,
        padded(h.front_bytes(), RING_BLOCK as nat).len() == RING_BLOCK,
        forall|x: u64| #[trigger] padded(le64(x), RING_BLOCK as nat).len() == RING_BLOCK,
        padded(le32(h.closed.value), RING_BLOCK as nat).len() == RING_BLOCK,
{
    lemma_front_size(h);
    lemma_le_lens();
}

/// Each cursor stands at the start of a block of its own.
pub proof fn law_cursors_stand_apart(h: RingHeader)
    ensures
        h.bytes().subrange(0, 40) == h.front_bytes(),
        h.bytes().subrange(RD_IDX_OFFSET as int, RD_IDX_OFFSET + 8) == le64(h.rd_idx.value),
        h.bytes().subrange(WR_IDX_OFFSET as int, WR_IDX_OFFSET + 8) == le64(h.wr_idx.value),
        h.bytes().subrange(WR_IDX_PUB_OFFSET as int, WR_IDX_PUB_OFFSET + 8) == le64(
            h.wr_idx_pub.value,
        ),
        h.bytes().subrange(DROPPED_OFFSET as int, DROPPED_OFFSET + 8) == le64(h.dropped.value),
        h.bytes().subrange(CLOSED_OFFSET as int, CLOSED_OFFSET + 4) == le32(h.closed.value),
        RD_IDX_OFFSET % RING_BLOCK == 0,
        WR_IDX_OFFSET % RING_BLOCK == 0,
        WR_IDX_PUB_OFFSET % RING_BLOCK == 0,
        DROPPED_OFFSET % RING_BLOCK == 0,
        CLOSED_OFFSET % RING_BLOCK == 0,
        RING_HEADER_SIZE % RING_BLOCK == 0,
{
    lemma_header_size(h);
    lemma_front_size(h);
    lemma_le_lens();
    let b = h.bytes();
    assert(b.subrange(0, 40) =~= h.front_bytes());
    assert(b.subrange(128, 136) =~= le64(h.rd_idx.value));
    assert(b.subrange(256, 264) =~= le64(h.wr_idx.value));
    assert(b.subrange(384, 392) =~= le64(h.wr_idx_pub.value));
    assert(b.subrange(512, 520) =~= le64(h.dropped.value));
    assert(b.subrange(640, 644) =~= le32(h.closed.value));
}

// ------------------------------------------------------------------- the slots

/// Where the slot at `place` starts.
pub open spec fn slot_offset(place: int) -> int {
    RING_HEADER_SIZE + place * RING_SLOT_SIZE
}

/// Where the slot of the cursor `i` starts in a file with `capacity` slots.
pub fn ring_slot_offset(capacity: u32, i: u64) -> (r: usize)
    requires
        capacity > 0,
        file_size(capacity) <= usize::MAX,
    ensures
        r == slot_offset(i as int % capacity as int),
        r + RING_SLOT_SIZE <= file_size(capacity),
{
    let place: u64 = i % capacity as u64;
    proof {
        law_slots_lie_in_the_file(capacity, place as int);
    }
    RING_HEADER_SIZE + place as usize * RING_SLOT_SIZE
}

/// Every slot lies behind the header and inside the file.
pub proof fn law_slots_lie_in_the_file(capacity: u32, place: int)
    requires
        0 <= place < capacity,
    ensures
        RING_HEADER_SIZE <= slot_offset(place),
        slot_offset(place) + RING_SLOT_SIZE <= file_size(capacity),
{
}

/// Two slots do not overlap.
pub proof fn law_slots_do_not_overlap(a: int, b: int)
    requires
        0 <= a < b,
    ensures
        slot_offset(a) + RING_SLOT_SIZE <= slot_offset(b),
{
}

// ---------------------------------------------------------------- what is read

/// The number of 32 bits that four bytes stand for.
pub open spec fn value32(b: Seq<u8>) -> int {
    b[0] + 0x100 * b[1] + 0x1_0000 * b[2] + 0x100_0000 * b[3]
}

/// Numbers are read back as they were written, lowest byte first.
pub proof fn law_numbers_are_read_back(x: u32, y: u64)
    ensures
        le32(x).len() == 4,
        value32(le32(x)) == x,
        le64(y).len() == 8,
        value32(le64(y).subrange(0, 4)) + 0x1_0000_0000 * value32(le64(y).subrange(4, 8)) == y,
{
    reveal(le32);
    reveal(le64);
    assert(le64(y).subrange(0, 4) =~= le32((y % 0x1_0000_0000) as u32));
    assert(le64(y).subrange(4, 8) =~= le32((y / 0x1_0000_0000) as u32));
    lemma_value32((y % 0x1_0000_0000) as u32);
    lemma_value32((y / 0x1_0000_0000) as u32);
    lemma_value32(x);
}

proof fn lemma_value32(x: u32)
    ensures
        value32(le32(x)) == x,
{
    reveal(le32);
    let b = le32(x);
    assert(b[0] == x % 0x100);
    assert(b[1] == x / 0x100 % 0x100);
    assert(b[2] == x / 0x1_0000 % 0x100);
    assert(b[3] == x / 0x100_0000);
}

/// Negative numbers are read back from their two's complement.
pub proof fn law_signed_numbers_are_read_back(x: i32, y: i64)
    ensures
        value32(le32s(x)) == if x < 0 {
            x + 0x1_0000_0000
        } else {
            x as int
        },
        value32(le64s(y).subrange(0, 4)) + 0x1_0000_0000 * value32(le64s(y).subrange(4, 8)) == if y
            < 0 {
            y + 0x1_0000_0000_0000_0000
        } else {
            y as int
        },
{
    let a = if x < 0 {
        (x + 0x1_0000_0000) as u32
    } else {
        x as u32
    };
    let b = if y < 0 {
        (y + 0x1_0000_0000_0000_0000) as u64
    } else {
        y as u64
    };
    law_numbers_are_read_back(a, b);
}

/// The fields in front of the cursors stand where the layout says, and the
/// cursors each 128 bytes behind the one before.
pub proof fn law_header_fields_stand_at_their_offsets(h: RingHeader)
    ensures
        h.front_bytes().len() == 40,
        h.front_bytes().subrange(0, 8) == le64(h.magic),
        h.front_bytes().subrange(8, 12) == le32(h.version),
        h.front_bytes().subrange(12, 16) == le32(h.slot_size),
        h.front_bytes().subrange(16, 20) == le32(h.capacity),
        h.front_bytes().subrange(20, 24) == le32(h.producer_pid),
        h.bytes().len() == 768,
        h.bytes().subrange(128, 136) == le64(h.rd_idx.value),
        h.bytes().subrange(256, 264) == le64(h.wr_idx.value),
        h.bytes().subrange(384, 392) == le64(h.wr_idx_pub.value),
        h.bytes().subrange(512, 520) == le64(h.dropped.value),
        h.bytes().subrange(640, 644) == le32(h.closed.value),
{
    lemma_front_size(h);
    lemma_header_size(h);
    lemma_le_lens();
    law_cursors_stand_apart(h);
    let b = h.front_bytes();
    assert(b.subrange(0, 8) =~= le64(h.magic));
    assert(b.subrange(8, 12) =~= le32(h.version));
    assert(b.subrange(12, 16) =~= le32(h.slot_size));
    assert(b.subrange(16, 20) =~= le32(h.capacity));
    assert(b.subrange(20, 24) =~= le32(h.producer_pid));
}

/// Slots of 272 bytes follow the header of 768, one behind the other.
pub proof fn law_slots_follow_the_header(place: int, capacity: u32)
    ensures
        slot_offset(place) == 768 + 272 * place,
        file_size(capacity) == 768 + 272 * capacity,
{
}

} // verus!
