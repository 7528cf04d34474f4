use kmers_core::packet::{Packet, PacketTrait, PacketsPool, PoolObjectTrait};
use kmers_core::queue_data::{AnyPacketData, FastaSequence, MinimizerBucketingQueueData};

type Batch = MinimizerBucketingQueueData<u32>;

fn fasta(ident: &[u8], seq: &[u8], qual: Option<&[u8]>) -> FastaSequence {
    FastaSequence { ident: ident.to_vec(), seq: seq.to_vec(), qual: qual.map(|q| q.to_vec()) }
}

#[test]
fn strict_pool_never_exceeds_capacity() {
    let mut pool: PacketsPool<Vec<u8>> = PacketsPool::new(2, true, 16);
    let a = pool.alloc_packet().expect("first object");
    let b = pool.alloc_packet().expect("second object");
    assert!(pool.alloc_packet().is_none());
    assert_eq!(pool.live_objects(), 2);
    pool.release_packet(a);
    assert_eq!(pool.live_objects(), 1);
    let c = pool.alloc_packet().expect("reused object");
    assert_eq!(pool.live_objects(), 2);
    assert!(pool.alloc_packet().is_none());
    pool.release_packet(b);
    pool.release_packet(c);
    assert_eq!(pool.live_objects(), 0);
    assert_eq!(pool.idle_objects(), 2);
}

#[test]
fn loose_pool_grows_past_capacity() {
    let mut pool: PacketsPool<Vec<u8>> = PacketsPool::new(1, false, 4);
    let a = pool.alloc_packet().expect("first");
    let b = pool.alloc_packet().expect("beyond capacity");
    assert_eq!(pool.live_objects(), 2);
    pool.release_packet(a);
    pool.release_packet(b);
    assert_eq!(pool.idle_objects(), 2);
}

#[test]
fn release_resets_and_returns_once() {
    let mut pool: PacketsPool<Vec<u8>> = PacketsPool::new_with_id(7, 1, true, 8);
    let mut p = pool.alloc_packet().expect("object");
    assert!(p.is_pooled());
    p.get_mut().extend_from_slice(b"abc");
    assert_eq!(p.get().as_slice(), b"abc");
    assert_eq!(pool.idle_objects(), 0);
    pool.release_packet(p);
    assert_eq!(pool.idle_objects(), 1);
    assert_eq!(pool.live_objects(), 0);
    let again = pool.alloc_packet().expect("reused");
    assert!(again.get().is_empty());
    assert_eq!(pool.idle_objects(), 0);
}

#[test]
fn standalone_packet_owns_its_value() {
    let p = Packet::new_simple(vec![1u8, 2, 3]);
    assert!(!p.is_pooled());
    assert_eq!(p.into_inner(), vec![1u8, 2, 3]);
}

#[test]
fn erase_then_downcast_gives_back_the_payload() {
    let mut batch: Batch = MinimizerBucketingQueueData::new(64, 5);
    assert!(batch.push_sequences(&fasta(b">r1", b"ACGT", None)));
    let p = Packet::new_simple(batch);
    let erased = p.upcast::<AnyPacketData<u32>>();
    let back = match erased.downcast::<Batch>() {
        Ok(p) => p,
        Err(_) => panic!("same type must downcast"),
    };
    assert!(!back.is_pooled());
    let seqs = back.get().iter_sequences();
    assert_eq!(seqs.len(), 1);
    assert_eq!(seqs[0].seq, b"ACGT".to_vec());
    assert_eq!(*back.get().file_info(), 5);
}

#[test]
fn downcast_to_another_type_is_refused() {
    let p = Packet::new_simple(vec![9u8]);
    let erased = p.upcast::<AnyPacketData<u32>>();
    let refused = match erased.downcast::<Batch>() {
        Ok(_) => panic!("a byte buffer is no batch"),
        Err(q) => q,
    };
    let bytes = match refused.downcast::<Vec<u8>>() {
        Ok(p) => p,
        Err(_) => panic!("the payload is still there"),
    };
    assert_eq!(bytes.into_inner(), vec![9u8]);
}

#[test]
fn batch_refuses_sequence_past_capacity() {
    let mut batch: Batch = MinimizerBucketingQueueData::new(10, 0);
    assert!(batch.push_sequences(&fasta(b"id", b"ACGT", Some(b"IIII"))));
    assert!(!batch.push_sequences(&fasta(b"x", b"A", None)));
    assert_eq!(batch.iter_sequences().len(), 1);
}

#[test]
fn empty_batch_takes_oversized_sequence() {
    let mut batch: Batch = MinimizerBucketingQueueData::new(2, 0);
    assert!(batch.push_sequences(&fasta(b"long", b"ACGTACGT", None)));
    let seqs = batch.iter_sequences();
    assert_eq!(seqs[0].ident, b"long".to_vec());
    assert_eq!(seqs[0].seq, b"ACGTACGT".to_vec());
    assert!(seqs[0].qual.is_none());
}

#[test]
fn batch_round_trips_sequences_in_order() {
    let mut batch: Batch = MinimizerBucketingQueueData::new(100, 0);
    assert!(batch.push_sequences(&fasta(b"a", b"AC", Some(b"!!"))));
    assert!(batch.push_sequences(&fasta(b"bb", b"GGT", None)));
    let seqs = batch.iter_sequences();
    assert_eq!(seqs.len(), 2);
    assert_eq!(seqs[0].qual, Some(b"!!".to_vec()));
    assert_eq!(seqs[1].ident, b"bb".to_vec());
    assert_eq!(seqs[1].seq, b"GGT".to_vec());
    assert_eq!(batch.get_size(), 10 + 2 * 32);
    assert_eq!(PacketTrait::get_size(&batch), 10 + 2 * 32);
    PoolObjectTrait::reset(&mut batch);
    assert_eq!(batch.iter_sequences().len(), 0);
    assert_eq!(batch.get_size(), 0);
}

#[test]
fn batch_pool_allocates_with_init_capacity() {
    let mut pool: PacketsPool<Batch> = PacketsPool::new(1, true, 8);
    let mut p = pool.alloc_packet().expect("batch");
    assert!(p.get_mut().push_sequences(&fasta(b"i", b"ACG", None)));
    assert!(!p.get_mut().push_sequences(&fasta(b"j", b"ACGTACGT", None)));
    pool.release_packet(p);
    let q = pool.alloc_packet().expect("reused batch");
    assert_eq!(q.get().iter_sequences().len(), 0);
}

#[test]
fn pool_of_pools_builds_inner_pools() {
    let mut outer: PacketsPool<PacketsPool<Vec<u8>>> = PacketsPool::new(1, true, (2, true, 8));
    let mut inner = outer.alloc_packet().expect("inner pool");
    let a = inner.get_mut().alloc_packet().expect("first");
    let b = inner.get_mut().alloc_packet().expect("second");
    assert!(inner.get_mut().alloc_packet().is_none());
    inner.get_mut().release_packet(a);
    inner.get_mut().release_packet(b);
    assert_eq!(inner.get().idle_objects(), 2);
    outer.release_packet(inner);
    assert_eq!(outer.idle_objects(), 1);
}
