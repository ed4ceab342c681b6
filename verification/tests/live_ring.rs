use comma::live_ring::{
    is_ring_capacity, pack_str, ring_file_size, unpack_str, RingSlot, RingWriter, SlotKind, CLOSED_OFFSET,
    DROPPED_OFFSET, RD_IDX_OFFSET, RING_BLOCK, RING_HEADER_SIZE, RING_LAYOUT_VERSION, RING_MAGIC,
    RING_SLOT_SIZE, WR_IDX_OFFSET, WR_IDX_PUB_OFFSET,
};
use comma::ring_layout::ring_slot_offset;
use std::mem::size_of;

#[test]
fn slot_size_is_stable() {
    assert!(size_of::<RingSlot>() <= 512);
    assert_eq!(size_of::<RingSlot>() % 8, 0);
    assert_eq!(RingSlot::zeroed().to_bytes().len(), RING_SLOT_SIZE);
    assert_eq!(RING_SLOT_SIZE % 8, 0);
}

#[test]
fn header_layout_is_128_aligned() {
    assert_eq!(RING_BLOCK, 128);
    let cells = [RD_IDX_OFFSET, WR_IDX_OFFSET, WR_IDX_PUB_OFFSET, DROPPED_OFFSET, CLOSED_OFFSET];
    for cell in cells {
        assert_eq!(cell % 128, 0);
    }
    assert_eq!(RING_HEADER_SIZE % 128, 0);
    let header = RingWriter::create(4, 42).header().to_bytes();
    assert_eq!(header.len(), RING_HEADER_SIZE);
}

#[test]
fn pack_and_unpack_str_roundtrip() {
    let mut buf = [0u8; 8];
    pack_str(&mut buf, "hello");
    assert_eq!(&buf[..6], b"hello\0");
    assert_eq!(unpack_str(&buf), "hello");

    pack_str(&mut buf, "this_is_way_too_long");
    assert_eq!(buf[7], 0, "trailing NUL preserved on truncation");
    assert_eq!(unpack_str(&buf).len(), 7);
}

#[test]
fn push_returns_err_on_full_and_bumps_dropped() {
    let mut w = RingWriter::create(4, 42);
    let slot = RingSlot::zeroed();
    for _ in 0..4 {
        w.push(&slot).unwrap();
    }
    assert!(w.push(&slot).is_err());
    assert_eq!(w.dropped(), 1);
}

#[test]
fn packing_clears_what_was_there() {
    let mut buf = [7u8; 6];
    pack_str(&mut buf, "ab");
    assert_eq!(buf, [b'a', b'b', 0, 0, 0, 0]);
    let mut empty: [u8; 0] = [];
    pack_str(&mut empty, "ab");
    assert_eq!(unpack_str(&empty), "");
}

#[test]
fn unpacking_stops_at_the_first_nul() {
    assert_eq!(unpack_str(b"ab\0cd"), "ab");
    assert_eq!(unpack_str(b"abcd"), "abcd");
}

#[test]
fn unpacking_replaces_what_is_no_text() {
    assert_eq!(unpack_str(&[b'a', 0xff, b'b', 0]), "a\u{fffd}b");
}

#[test]
fn truncated_text_ends_inside_a_character() {
    let mut buf = [0u8; 3];
    pack_str(&mut buf, "a\u{e9}");
    assert_eq!(buf, [b'a', 0xc3, 0]);
    assert_eq!(unpack_str(&buf), "a\u{fffd}");
}

#[test]
fn kinds_and_codes_agree() {
    for code in 0..=10u8 {
        assert_eq!(SlotKind::from_u8(code).unwrap().code(), code);
    }
    assert_eq!(SlotKind::from_u8(10), Some(SlotKind::KernelCopy));
    assert_eq!(SlotKind::from_u8(11), None);
    assert_eq!(SlotKind::from_u8(255), None);
}

#[test]
fn fresh_slots_hold_sentinels() {
    let s = RingSlot::zeroed();
    assert_eq!((s.kind, s.rank, s.peer, s.step, s.size), (0, -1, -1, -1, 0));
}

#[test]
fn file_has_a_header_and_slots() {
    assert_eq!(ring_file_size(0), 768);
    assert_eq!(ring_file_size(4), 768 + 4 * 272);
    assert_eq!(ring_slot_offset(4, 0), 768);
    assert_eq!(ring_slot_offset(4, 5), 768 + 272);
    assert_eq!(ring_slot_offset(4, u64::MAX), 768 + 3 * 272);
}

#[test]
fn header_bytes_are_little_endian() {
    let mut w = RingWriter::create(8, 0x01020304);
    w.push(&RingSlot::zeroed()).unwrap();
    let b = w.header().to_bytes();
    assert_eq!(&b[0..8], &RING_MAGIC.to_le_bytes());
    assert_eq!(&b[8..12], &RING_LAYOUT_VERSION.to_le_bytes());
    assert_eq!(&b[12..16], &272u32.to_le_bytes());
    assert_eq!(&b[16..20], &8u32.to_le_bytes());
    assert_eq!(&b[20..24], &[4, 3, 2, 1]);
    assert_eq!(b[WR_IDX_OFFSET], 1);
    assert_eq!(b[WR_IDX_PUB_OFFSET], 0);
}

#[test]
fn slot_bytes_stand_at_their_offsets() {
    let mut s = RingSlot::zeroed();
    s.kind = 9;
    s.rank = -2;
    s.ts = 0x0102030405060708;
    s.comm_hash = 0xa1;
    s.peer = 3;
    s.member_host_hash = 0xb2;
    pack_str(&mut s.name, "n");
    pack_str(&mut s.ip, "i");
    let b = s.to_bytes();
    assert_eq!(b[0], 9);
    assert_eq!(&b[8..12], &(-2i32).to_le_bytes());
    assert_eq!(&b[16..24], &0x0102030405060708i64.to_le_bytes());
    assert_eq!(b[40], 0xa1);
    assert_eq!(b[80], 3);
    assert_eq!(b[120], 0xb2);
    assert_eq!(b[152], b'n');
    assert_eq!(b[256], b'i');
}

#[test]
fn reader_makes_room() {
    let mut w = RingWriter::create(2, 1);
    let mut s = RingSlot::zeroed();
    s.ts = 1;
    w.push(&s).unwrap();
    s.ts = 2;
    w.push(&s).unwrap();
    s.ts = 3;
    assert!(w.push(&s).is_err());
    w.observe_reader(1);
    w.push(&s).unwrap();
    assert_eq!(w.slot_at(1).ts, 2);
    assert_eq!(w.slot_at(2).ts, 3);
    assert_eq!(w.dropped(), 1);
    assert_eq!(w.write_cursor(), 3);
    assert_eq!(w.capacity(), 2);
}

#[test]
fn batches_are_published_together() {
    let mut w = RingWriter::create(64, 1);
    let s = RingSlot::zeroed();
    for _ in 0..31 {
        w.push(&s).unwrap();
    }
    assert_eq!(w.header().wr_idx.value, 31);
    assert_eq!(w.header().wr_idx_pub.value, 0);
    w.push(&s).unwrap();
    assert_eq!(w.header().wr_idx_pub.value, 32);
    w.push(&s).unwrap();
    assert_eq!(w.header().wr_idx_pub.value, 32);
    w.flush();
    assert_eq!(w.header().wr_idx_pub.value, 33);
}

#[test]
fn closing_publishes_and_marks_the_end() {
    let mut w = RingWriter::create(4, 1);
    w.push(&RingSlot::zeroed()).unwrap();
    assert_eq!(w.header().closed.value, 0);
    w.close();
    assert_eq!(w.header().wr_idx_pub.value, 1);
    assert_eq!(w.header().closed.value, 1);
}

#[test]
fn capacities_are_powers_of_two() {
    for k in 0..32 {
        assert!(is_ring_capacity(1 << k));
    }
    for n in [0, 3, 6, 12, 8191, u32::MAX] {
        assert!(!is_ring_capacity(n));
    }
}

#[test]
fn slots_of_a_new_ring_are_zeros() {
    let ring = RingWriter::create(2, 42);
    for i in 0..2 {
        assert!(ring.slot_at(i).to_bytes().iter().all(|b| *b == 0));
    }
    assert_eq!(RingSlot::zeroed().to_bytes()[8..16], [0xff; 8]);
}
