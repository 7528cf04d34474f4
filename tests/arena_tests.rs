use kmers_core::chunked_arena::{ArenaPointer, ChunkedArena};
use kmers_core::debug_functions::{debug_increase, DebugCounter};
use kmers_core::record::{encode_varint, encode_varint_flags};

#[test]
fn arena_reads_back_records_across_chunks() {
    let mut arena = ChunkedArena::new(4);
    let at_first = arena.ensure_reserve(3);
    assert_eq!(at_first, ArenaPointer { chunk: 0, offset: 0 });
    arena.push_contiguous_slice(b"abc");
    let at_second = arena.ensure_reserve(2);
    assert_eq!(at_second, ArenaPointer { chunk: 1, offset: 0 });
    arena.push_contiguous_slice(b"de");
    let at_third = arena.ensure_reserve(2);
    assert_eq!(at_third, ArenaPointer { chunk: 1, offset: 2 });
    arena.push_contiguous_slice(b"fg");
    let at_fourth = arena.ensure_reserve(10);
    assert_eq!(at_fourth, ArenaPointer { chunk: 2, offset: 0 });
    arena.push_contiguous_slice(b"0123456789");
    assert_eq!(arena.size(), 17);
    assert_eq!(arena.read(at_first, 3), b"abc".to_vec());
    assert_eq!(arena.read(at_second, 2), b"de".to_vec());
    assert_eq!(arena.read(at_third, 2), b"fg".to_vec());
    assert_eq!(arena.read(at_fourth, 10), b"0123456789".to_vec());
    let chunks = arena.into_chunks();
    assert_eq!(chunks.len(), 3);
}

#[test]
fn arena_reserve_of_zero_on_empty_arena_opens_a_chunk() {
    let mut arena = ChunkedArena::new(8);
    assert_eq!(arena.size(), 0);
    let p = arena.ensure_reserve(0);
    assert_eq!(p, ArenaPointer { chunk: 0, offset: 0 });
    assert_eq!(arena.size(), 0);
}

#[test]
fn varint_encodes_base_128() {
    let mut out = Vec::new();
    encode_varint(300, &mut out);
    assert_eq!(out, vec![0xAC, 0x02]);
    let mut small = Vec::new();
    encode_varint(127, &mut small);
    assert_eq!(small, vec![127]);
    let mut max = Vec::new();
    encode_varint(u64::MAX, &mut max);
    assert_eq!(max.len(), 10);
    assert_eq!(max[9], 1);
}

#[test]
fn header_packs_length_and_flags() {
    let mut out = Vec::new();
    assert!(encode_varint_flags(&mut out, 5, 2, 1));
    assert_eq!(out, vec![21]);
    let mut out2 = Vec::new();
    assert!(encode_varint_flags(&mut out2, 40, 2, 3));
    assert_eq!(out2, vec![0xA3, 0x01]);
}

#[test]
fn header_refuses_what_does_not_fit() {
    let mut out = vec![9u8];
    assert!(!encode_varint_flags(&mut out, 5, 2, 4));
    assert!(!encode_varint_flags(&mut out, 5, 64, 0));
    assert!(!encode_varint_flags(&mut out, u64::MAX, 1, 0));
    assert_eq!(out, vec![9u8]);
}

#[test]
fn debug_counter_counts_and_wraps() {
    let mut c = DebugCounter::new();
    debug_increase(&mut c);
    debug_increase(&mut c);
    assert_eq!(c.value(), 2);
}
