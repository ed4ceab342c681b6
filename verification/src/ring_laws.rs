//! What the two sides of a ring can rely on.
use crate::clock::TimeBase;
use crate::daemon::TelemetryView;
use crate::live_encode::{live_slots, pushed_until_full};
use crate::live_ring::{
    ahead, is_capacity, lemma_capacity, next_cursor, packed, text_end, RingView, SlotKind,
    SlotView, PUBLISH_BATCH,
};
use vstd::arithmetic::div_mod::{lemma_fundamental_div_mod, lemma_mod_bound};
use vstd::arithmetic::power2::{lemma_pow2_adds, lemma_pow2_pos, pow2};
use vstd::prelude::*;

verus! {

/// No two kinds share a code.
pub proof fn law_kinds_have_codes_of_their_own(a: SlotKind, b: SlotKind)
    requires
        a.spec_code() == b.spec_code(),
    ensures
        a == b,
{
}

// ---------------------------------------------------------------------- texts

proof fn lemma_text_end(b: Seq<u8>, n: nat)
    requires
        n < b.len(),
        b[n as int] == 0,
        forall|i: int| 0 <= i < n ==> #[trigger] b[i] != 0,
    ensures
        text_end(b) == n,
    decreases n,
{
    if n > 0 {
        assert(b.drop_first()[n - 1] == b[n as int]);
        assert forall|i: int| 0 <= i < n - 1 implies #[trigger] b.drop_first()[i] != 0 by {
            assert(b[i + 1] != 0);
        }
        lemma_text_end(b.drop_first(), (n - 1) as nat);
    }
}

/// A text field always ends with a NUL.
pub proof fn law_texts_are_terminated(n: nat, bytes: Seq<u8>)
    requires
        n > 0,
    ensures
        packed(n, bytes).len() == n,
        packed(n, bytes)[n - 1] == 0,
{
}

/// A text without NULs that fits into its field, with room for the closing
/// NUL, is read back as it was written.
pub proof fn law_texts_are_read_back(n: nat, text: Seq<char>)
    requires
        vstd::utf8::encode_utf8(text).len() < n,
        !vstd::utf8::encode_utf8(text).contains(0u8),
    ensures
        ({
            let field = packed(n, vstd::utf8::encode_utf8(text));
            let read = field.take(text_end(field) as int);
            vstd::utf8::valid_utf8(read) && vstd::utf8::decode_utf8(read) == text
        }),
{
    let bytes = vstd::utf8::encode_utf8(text);
    let field = packed(n, bytes);
    assert forall|i: int| 0 <= i < bytes.len() implies #[trigger] field[i] != 0 by {
        assert(bytes.contains(bytes[i]));
    }
    lemma_text_end(field, bytes.len());
    assert(field.take(bytes.len() as int) =~= bytes);
    vstd::utf8::encode_utf8_decode_utf8(text);
    vstd::utf8::encode_utf8_valid_utf8(text);
}

// -------------------------------------------------------------------- cursors

impl RingView {
    /// Whether the reader is where it can be: not ahead of the writer, not
    /// behind where the writer saw it last, and no more than a ring away.
    pub open spec fn reader_is_sane(self) -> bool {
        &&& ahead(self.wr, self.header.rd_idx.value) <= ahead(self.wr, self.rd_seen)
        &&& ahead(self.wr, self.rd_seen) <= self.header.capacity
    }

    /// Whether the slot of the cursor `i` waits for the reader.
    pub open spec fn is_unread(self, i: u64) -> bool {
        1 <= ahead(self.wr, i) <= ahead(self.wr, self.header.rd_idx.value)
    }
}

/// Cursors less than a ring apart stand for different slots.
proof fn lemma_places_differ(v: RingView, a: u64, b: u64)
    requires
        is_capacity(v.header.capacity),
        1 <= ahead(a, b) < v.header.capacity,
    ensures
        v.place(a) != v.place(b),
{
    let cap = v.header.capacity as int;
    let d = ahead(a, b);
    let k = lemma_capacity(v.header.capacity);
    lemma_pow2_pos(k);
    lemma_pow2_adds(k, (64 - k) as nat);
    vstd::arithmetic::power2::lemma2_to64();
    let m = pow2((64 - k) as nat) as int;
    assert(cap * m == 0x1_0000_0000_0000_0000);
    assert((a as int) % cap == (b + d) % cap) by {
        if a < b {
            assert(b + d == cap * m + a);
            vstd::arithmetic::div_mod::lemma_mod_multiples_vanish(m, a as int, cap);
        }
    }
    lemma_fundamental_div_mod(b as int, cap);
    lemma_mod_bound(b as int, cap);
    let q = b as int / cap;
    let r = b as int % cap;
    if r + d < cap {
        assert(b + d == q * cap + (r + d)) by (nonlinear_arith)
            requires
                b == cap * q + r,
        ;
        vstd::arithmetic::div_mod::lemma_fundamental_div_mod_converse(b + d, cap, q, r + d);
    } else {
        assert(b + d == (q + 1) * cap + (r + d - cap)) by (nonlinear_arith)
            requires
                b == cap * q + r,
        ;
        vstd::arithmetic::div_mod::lemma_fundamental_div_mod_converse(
            b + d,
            cap,
            q + 1,
            r + d - cap,
        );
    }
}

/// A push succeeds where the reader has left room, and only there.
pub proof fn law_push_succeeds_where_there_is_room(v: RingView)
    requires
        v.wf(),
        v.reader_is_sane(),
    ensures
        v.has_room() <==> ahead(v.wr, v.header.rd_idx.value) < v.header.capacity,
{
}

/// A push changes no slot that waits for the reader; what was pushed can be
/// read where the writer stood.
pub proof fn law_push_leaves_unread_slots(v: RingView, s: SlotView, i: u64)
    requires
        v.wf(),
        v.reader_is_sane(),
    ensures
        v.is_unread(i) ==> v.pushed(s).slot(i) == v.slot(i),
        v.has_room() ==> v.pushed(s).slot(v.wr) == s,
{
    let cap = v.header.capacity as int;
    let k = lemma_capacity(v.header.capacity);
    lemma_pow2_pos(k);
    lemma_mod_bound(v.wr as int, cap);
    lemma_mod_bound(i as int, cap);
    if v.is_unread(i) && v.has_room() {
        lemma_places_differ(v, v.wr, i);
    }
}

/// After a push the reader is still where it can be, and a pushed slot waits
/// for it.
pub proof fn law_push_keeps_reader_sane(v: RingView, s: SlotView)
    requires
        v.wf(),
        v.reader_is_sane(),
    ensures
        v.pushed(s).reader_is_sane(),
        v.has_room() ==> v.pushed(s).is_unread(v.wr),
{
}

/// A full ring takes no record: it counts it, and is otherwise as it was.
pub proof fn law_full_ring_counts_records(v: RingView, s: SlotView)
    requires
        v.wf(),
        !v.has_room(),
    ensures
        v.pushed(s).slots == v.slots,
        v.pushed(s).wr == v.wr,
        v.pushed(s).header.wr_idx_pub == v.header.wr_idx_pub,
        v.pushed(s).header.dropped.value == next_cursor(v.header.dropped.value),
{
}

/// The published cursor never runs ahead of the written one, and is less than
/// a batch behind it; flushing and closing bring it up.
pub proof fn law_publishing_keeps_up(v: RingView)
    requires
        v.wf(),
    ensures
        ahead(v.header.wr_idx.value, v.header.wr_idx_pub.value) < PUBLISH_BATCH,
        v.flushed().header.wr_idx_pub.value == v.wr,
        v.flushed().slots == v.slots,
        v.closed().header.wr_idx_pub.value == v.wr,
        v.closed().header.closed.value == 1,
        v.closed().slots == v.slots,
{
}

/// The cursor `n` slots behind `a`.
pub open spec fn cursor_after(a: u64, n: nat) -> u64
    decreases n,
{
    if n == 0 {
        a
    } else {
        cursor_after(next_cursor(a), (n - 1) as nat)
    }
}

proof fn lemma_push(v: RingView, s: SlotView, i: u64)
    requires
        v.wf(),
        v.reader_is_sane(),
        v.has_room(),
    ensures
        v.pushed(s).wf(),
        v.pushed(s).wr == next_cursor(v.wr),
        v.is_unread(i) ==> v.pushed(s).is_unread(i),
{
    assert(v.slots.update(v.place(v.wr), s).len() == v.slots.len());
}

proof fn lemma_pushes(v: RingView, slots: Seq<SlotView>)
    requires
        v.wf(),
        v.reader_is_sane(),
    ensures
        ({
            let (w, n) = pushed_until_full(v, slots);
            &&& n <= slots.len()
            &&& forall|i: u64| #[trigger] v.is_unread(i) ==> w.slot(i) == v.slot(i)
            &&& forall|k: nat|
                k < n ==> w.slot(#[trigger] cursor_after(v.wr, k)) == slots[k as int]
        }),
    decreases slots.len(),
{
    let (w, n) = pushed_until_full(v, slots);
    if slots.len() > 0 {
        let s = slots[0];
        law_push_keeps_reader_sane(v, s);
        assert forall|i: u64| #[trigger] v.is_unread(i) implies v.pushed(s).slot(i) == v.slot(
            i,
        ) by {
            law_push_leaves_unread_slots(v, s, i);
        }
        if v.has_room() {
            let u = v.pushed(s);
            law_push_leaves_unread_slots(v, s, v.wr);
            lemma_push(v, s, v.wr);
            lemma_pushes(u, slots.skip(1));
            assert forall|i: u64| #[trigger] v.is_unread(i) implies w.slot(i) == v.slot(i) by {
                lemma_push(v, s, i);
                assert(u.is_unread(i));
            }
            assert forall|k: nat| k < n implies w.slot(#[trigger] cursor_after(v.wr, k))
                == slots[k as int] by {
                if k == 0 {
                    assert(u.is_unread(v.wr));
                } else {
                    assert(cursor_after(v.wr, k) == cursor_after(u.wr, (k - 1) as nat));
                    assert(slots.skip(1)[k - 1] == slots[k as int]);
                }
            }
        }
    }
}

/// The slots of a record that reached the ring stand there in order, from where
/// the writer stood, and no slot that waited for the reader was touched.
pub proof fn law_published_slots_can_be_read(v: RingView, t: TelemetryView, base: TimeBase, i: u64)
    requires
        v.wf(),
        v.reader_is_sane(),
    ensures
        ({
            let slots = live_slots(t, base);
            let (w, n) = pushed_until_full(v, slots);
            &&& n <= slots.len()
            &&& v.is_unread(i) ==> w.slot(i) == v.slot(i)
            &&& forall|k: nat|
                k < n ==> w.slot(#[trigger] cursor_after(v.wr, k)) == slots[k as int]
        }),
{
    lemma_pushes(v, live_slots(t, base));
}

// ------------------------------------------------------------------ the format

/// The codes of the kinds, as readers know them.
pub proof fn law_codes_of_kinds(k: SlotKind)
    ensures
        k is Empty ==> k.spec_code() == 0,
        k is CollStart ==> k.spec_code() == 1,
        k is CollComplete ==> k.spec_code() == 2,
        k is P2pStart ==> k.spec_code() == 3,
        k is P2pComplete ==> k.spec_code() == 4,
        k is P2pGroupStart ==> k.spec_code() == 5,
        k is P2pGroupSeal ==> k.spec_code() == 6,
        k is StepProgress ==> k.spec_code() == 7,
        k is CommInitHeader ==> k.spec_code() == 8,
        k is CommInitMember ==> k.spec_code() == 9,
        k is KernelCopy ==> k.spec_code() == 10,
{
}

/// A new ring says what it is, how large its slots are and how many there are,
/// and who writes it. Nothing was written, read or lost, and it is open.
pub proof fn law_new_rings_are_empty(capacity: u32, pid: u32)
    ensures
        ({
            let v = RingView::fresh(capacity, pid);
            &&& v.header.magic == 0x4C49564552494E47
            &&& v.header.version == 1
            &&& v.header.slot_size == 272
            &&& v.header.capacity == capacity
            &&& v.header.producer_pid == pid
            &&& v.header.rd_idx.value == 0 && v.header.wr_idx.value == 0
            &&& v.header.wr_idx_pub.value == 0 && v.header.dropped.value == 0
            &&& v.header.closed.value == 0
            &&& v.slots.len() == capacity
            &&& v.wr == 0
            &&& capacity > 0 ==> v.has_room()
            &&& forall|i: u64| !#[trigger] v.is_unread(i)
            &&& forall|i: int|
                0 <= i < capacity ==> ({
                    let s = #[trigger] v.slots[i];
                    &&& s.kind == 0 && s.is_send == 0 && s.source == 0 && s.stage == 0
                    &&& s.pad0 == 0 && s.rank == 0 && s.world_rank == 0 && s.ts == 0
                    &&& s.launch_ts == 0 && s.duration_us == 0 && s.comm_hash == 0
                    &&& s.group_id == 0 && s.seq_num == 0 && s.payload_bytes == 0
                    &&& s.self_copy_size == 0 && s.peer == 0 && s.channel == 0 && s.step == 0
                    &&& s.size == 0 && s.n_children == 0 && s.n_peers == 0 && s.n_nodes == 0
                    &&& s.n_ranks == 0 && s.member_host_hash == 0 && s.member_bus_id == 0
                    &&& s.member_rank == 0 && s.member_world_rank == 0 && s.member_node == 0
                    &&& s.member_cuda_dev == 0
                })
        }),
{
}

/// A field holds as much of a text as leaves room for a NUL, and zeros behind it.
pub proof fn law_fields_hold_the_start_of_a_text(n: nat, bytes: Seq<u8>, i: int)
    requires
        0 <= i < n,
    ensures
        i < bytes.len() && i < n - 1 ==> packed(n, bytes)[i] == bytes[i],
        i >= bytes.len() || i == n - 1 ==> packed(n, bytes)[i] == 0,
{
}

/// A slot in which nothing is set has no rank, peer, channel or step, and zeros
/// elsewhere.
pub proof fn law_blank_slots_say_nothing(i: int)
    requires
        0 <= i < 16,
    ensures
        ({
            let s = SlotView::blank();
            &&& s.kind == 0 && s.is_send == 0 && s.source == 0 && s.stage == 0 && s.pad0 == 0
            &&& s.rank == -1 && s.world_rank == -1 && s.peer == -1 && s.channel == -1
            &&& s.step == -1 && s.member_rank == -1 && s.member_world_rank == -1
            &&& s.member_node == -1 && s.member_cuda_dev == -1
            &&& s.ts == 0 && s.launch_ts == 0 && s.duration_us == 0 && s.comm_hash == 0
            &&& s.group_id == 0 && s.seq_num == 0 && s.payload_bytes == 0 && s.self_copy_size == 0
            &&& s.size == 0 && s.n_children == 0 && s.n_peers == 0 && s.n_nodes == 0
            &&& s.n_ranks == 0 && s.member_host_hash == 0 && s.member_bus_id == 0
            &&& s.name[i] == 0 && s.parent_name[i] == 0 && s.comm_name[i] == 0 && s.host[i] == 0
                && s.ip[i] == 0
        }),
{
}

/// A ring can have as many slots as a power of two below 2 to the 32nd.
pub proof fn law_capacities_are_powers_of_two(n: u32)
    ensures
        is_capacity(n) <==> exists|k: nat| k < 32 && n == #[trigger] pow2(k),
{
    vstd::arithmetic::power2::lemma2_to64();
    if is_capacity(n) {
        let k = lemma_capacity(n);
        assert(k < 32 && n == pow2(k));
    }
}

/// Cursors count on, over the end of their counter.
pub proof fn law_cursors_count_on(a: u64, b: u64)
    ensures
        ahead(a, a) == 0,
        0 <= ahead(a, b) < 0x1_0000_0000_0000_0000,
        (b + ahead(a, b)) % 0x1_0000_0000_0000_0000 == a,
        ahead(next_cursor(a), a) == 1,
        ahead(a, b) + 1 < 0x1_0000_0000_0000_0000 ==> ahead(next_cursor(a), b) == ahead(a, b) + 1,
{
}

/// A slot that was pushed is published with the 31 others of its batch, not
/// before; the writer goes on by one slot. What the reader and the header said
/// otherwise stays.
pub proof fn law_slots_are_published_in_batches(v: RingView, s: SlotView)
    requires
        v.wf(),
        v.has_room(),
    ensures
        ({
            let w = v.pushed(s);
            &&& ahead(w.wr, v.wr) == 1
            &&& w.header.wr_idx.value == w.wr
            &&& v.pending + 1 >= 32 ==> w.header.wr_idx_pub.value == w.wr && w.pending == 0
            &&& v.pending + 1 < 32 ==> w.header.wr_idx_pub == v.header.wr_idx_pub && w.pending
                == v.pending + 1
            &&& w.header.dropped == v.header.dropped
            &&& w.header.rd_idx == v.header.rd_idx
            &&& w.header.closed == v.header.closed
            &&& w.header.capacity == v.header.capacity && w.header.magic == v.header.magic
        }),
{
}

/// The slot of a cursor stands at its remainder by the number of slots.
pub proof fn law_cursors_wrap_around(v: RingView, i: u64)
    requires
        is_capacity(v.header.capacity),
    ensures
        v.place(i) == i as int % v.header.capacity as int,
        0 <= v.place(i) < v.header.capacity,
        v.slot(i) == v.slots[i as int % v.header.capacity as int],
{
    let k = lemma_capacity(v.header.capacity);
    lemma_pow2_pos(k);
    lemma_mod_bound(i as int, v.header.capacity as int);
}

/// A ring that is full loses a record, and says so by one.
pub proof fn law_lost_records_are_counted(v: RingView, s: SlotView)
    requires
        ahead(v.wr, v.rd_seen) >= v.header.capacity,
        ahead(v.wr, v.header.rd_idx.value) >= v.header.capacity,
        v.header.dropped.value < u64::MAX,
    ensures
        v.pushed(s).header.dropped.value == v.header.dropped.value + 1,
        v.pushed(s).wr == v.wr,
        v.pushed(s).slots == v.slots,
        v.pushed(s).pending == v.pending,
        v.pushed(s).rd_seen == v.header.rd_idx.value,
{
}

} // verus!
