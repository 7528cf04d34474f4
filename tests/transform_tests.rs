use kmers_core::bucket_coordinator::{Advance, BucketCoordinator};
use kmers_core::chunked_arena::ChunkedArena;
use kmers_core::kmers_transform::{
    dispatch_read, dispatch_reads, new_destination_buckets, transform_bucket, worker_step,
    CompletedGroup, CompressedRead, KmersTransform, KmersTransformExecutor, ReadDispatchInfo, ReadRef,
    TransformError, WorkerState,
};

struct ModExecutor {
    seen: usize,
}

impl KmersTransformExecutor<u32> for ModExecutor {
    fn preprocess_bucket(&mut self, global_data: &u32, read: &CompressedRead) -> ReadDispatchInfo {
        let idx = u32::from_le_bytes([read.packed[0], read.packed[1], read.packed[2], read.packed[3]]);
        ReadDispatchInfo { bucket: idx % *global_data, hash: idx as u64, flags: 0, extra_data: Vec::new() }
    }

    fn maybe_swap_bucket(&mut self, _global_data: &u32) {}

    fn process_group(&mut self, _global_data: &u32, reads: &Vec<ReadRef>, _buckets: &Vec<ChunkedArena>) {
        self.seen += reads.len();
    }

    fn finalize(self, _global_data: &u32) {}
}

fn read_of(idx: u32) -> CompressedRead {
    CompressedRead { bases_count: 4, packed: idx.to_le_bytes().to_vec(), extra_data: Vec::new() }
}

fn info(bucket: u32, flags: u8, extra: Vec<u8>) -> ReadDispatchInfo {
    ReadDispatchInfo { bucket, hash: 99, flags, extra_data: extra }
}

#[test]
fn dispatch_writes_header_payload_and_metadata() {
    let mut buckets = new_destination_buckets(2);
    let mut refs = Vec::new();
    let read = CompressedRead { bases_count: 4, packed: vec![0xAB], extra_data: Vec::new() };
    assert_eq!(dispatch_read(&mut buckets, &mut refs, &read, &info(1, 1, vec![7]), 2), Ok(()));
    assert_eq!(refs.len(), 1);
    assert_eq!(refs[0].bucket, 1);
    assert_eq!(refs[0].hash, 99);
    assert_eq!(buckets[1].read(refs[0].read_start, 3), vec![17, 0xAB, 7]);
    assert_eq!(buckets[1].size(), 3);
    assert_eq!(buckets[0].size(), 0);
}

#[test]
fn dispatch_refuses_bucket_out_of_range() {
    let mut buckets = new_destination_buckets(4);
    let mut refs = Vec::new();
    let r = dispatch_read(&mut buckets, &mut refs, &read_of(1), &info(4, 0, Vec::new()), 2);
    assert_eq!(r, Err(TransformError::InvalidBucket));
    assert!(refs.is_empty());
}

#[test]
fn dispatch_refuses_flags_past_their_bits() {
    let mut buckets = new_destination_buckets(4);
    let mut refs = Vec::new();
    let r = dispatch_read(&mut buckets, &mut refs, &read_of(1), &info(0, 4, Vec::new()), 2);
    assert_eq!(r, Err(TransformError::HeaderOverflow));
    assert_eq!(buckets[0].size(), 0);
}

#[test]
fn dispatch_reads_stops_at_first_error() {
    let mut buckets = new_destination_buckets(2);
    let mut refs = Vec::new();
    let reads = vec![read_of(0), read_of(1), read_of(2)];
    let infos = vec![info(0, 0, Vec::new()), info(5, 0, Vec::new()), info(1, 0, Vec::new())];
    let r = dispatch_reads(&mut buckets, &mut refs, &reads, &infos, 0);
    assert_eq!(r, Err((1, TransformError::InvalidBucket)));
    assert_eq!(refs.len(), 1);
}

#[test]
fn every_record_lands_once_where_preprocess_sends_it() {
    let mut exec = ModExecutor { seen: 0 };
    let reads: Vec<CompressedRead> = (0..10).map(read_of).collect();
    let group = match transform_bucket(&mut exec, &4, &reads, 4, 2) {
        Ok(g) => g,
        Err(_) => panic!("all records fit"),
    };
    assert_eq!(group.refs.len(), 10);
    for (i, r) in group.refs.iter().enumerate() {
        assert_eq!(r.bucket as usize, i % 4);
        let bytes = group.buckets[r.bucket as usize].read(r.read_start, 5);
        assert_eq!(bytes[0], 16);
        assert_eq!(bytes[1..5].to_vec(), (i as u32).to_le_bytes().to_vec());
    }
    let total: usize = group.buckets.iter().map(|b| b.size()).sum();
    assert_eq!(total, 10 * 5);
}

#[test]
fn coordinator_opens_buckets_in_order_then_finishes() {
    let mut c = BucketCoordinator::new(vec!["a".to_string(), "b".to_string()]);
    assert_eq!(c.try_take_active(), Some(0));
    assert_eq!(c.advance_if_exhausted(false), Advance::Unchanged);
    assert_eq!(c.advance_if_exhausted(true), Advance::Opened(1));
    assert_eq!(c.path(1), "b");
    assert_eq!(c.opened_count(), 2);
    assert_eq!(c.advance_if_exhausted(true), Advance::Finished);
    assert_eq!(c.try_take_active(), None);
    assert!(c.is_reading_finished());
    assert_eq!(c.advance_if_exhausted(true), Advance::Unchanged);
}

#[test]
fn coordinator_without_input_is_finished() {
    let c = BucketCoordinator::new(Vec::new());
    assert!(c.is_reading_finished());
    assert_eq!(c.try_take_active(), None);
    assert_eq!(c.buckets_count(), 0);
}

#[test]
fn worker_steps_through_its_states() {
    let s = worker_step(WorkerState::AwaitingBucket, false, None, false, false);
    assert_eq!(s, WorkerState::AwaitingBucket);
    let s = worker_step(s, false, Some(3), false, false);
    assert_eq!(s, WorkerState::ReadingBucket(3));
    let s = worker_step(s, false, Some(3), false, true);
    assert_eq!(s, WorkerState::AwaitingBucket);
    let s = worker_step(s, true, None, true, false);
    assert_eq!(s, WorkerState::DrainingPending);
    let s = worker_step(s, true, None, true, false);
    assert_eq!(s, WorkerState::DrainingPending);
    let s = worker_step(s, true, None, false, false);
    assert_eq!(s, WorkerState::Finalized);
}

/// Three input buckets, four destinations, two workers taking turns: the
/// records of destination 2 are exactly those whose index is 2 modulo 4.
#[test]
fn three_buckets_four_destinations_two_workers() {
    let inputs: Vec<Vec<CompressedRead>> =
        vec![(0..5).map(read_of).collect(), (5..12).map(read_of).collect(), (12..20).map(read_of).collect()];
    let mut taken = vec![false; 3];
    let mut coord = BucketCoordinator::new(vec!["b0".to_string(), "b1".to_string(), "b2".to_string()]);
    let mut queue: Vec<CompletedGroup> = Vec::new();
    let mut workers = vec![
        (WorkerState::AwaitingBucket, ModExecutor { seen: 0 }),
        (WorkerState::AwaitingBucket, ModExecutor { seen: 0 }),
    ];
    let mut dest2: Vec<u32> = Vec::new();
    let mut steps = 0;
    while workers.iter().any(|w| w.0 != WorkerState::Finalized) {
        steps += 1;
        assert!(steps < 1000, "workers must finish");
        for w in workers.iter_mut() {
            let exhausted = match w.0 {
                WorkerState::ReadingBucket(i) => {
                    let reads: Vec<CompressedRead> = if taken[i] {
                        Vec::new()
                    } else {
                        taken[i] = true;
                        inputs[i].iter().map(|r| read_of(u32::from_le_bytes([r.packed[0], r.packed[1], r.packed[2], r.packed[3]]))).collect()
                    };
                    match transform_bucket(&mut w.1, &4, &reads, 4, 2) {
                        Ok(g) => queue.push(g),
                        Err(_) => panic!("records fit"),
                    }
                    let active_exhausted = coord.try_take_active().map(|a| taken[a]).unwrap_or(false);
                    coord.advance_if_exhausted(active_exhausted);
                    true
                }
                _ => false,
            };
            if w.0 == WorkerState::DrainingPending {
                while let Some(g) = queue.pop() {
                    w.1.maybe_swap_bucket(&4);
                    w.1.process_group(&4, &g.refs, &g.buckets);
                    for r in g.refs.iter().filter(|r| r.bucket == 2) {
                        let b = g.buckets[2].read(r.read_start, 5);
                        dest2.push(u32::from_le_bytes([b[1], b[2], b[3], b[4]]));
                    }
                }
            }
            w.0 = worker_step(w.0, coord.is_reading_finished(), coord.try_take_active(), !queue.is_empty(), exhausted);
        }
    }
    dest2.sort();
    assert_eq!(dest2, vec![2, 6, 10, 14, 18]);
    let seen: usize = workers.iter().map(|w| w.1.seen).sum();
    assert_eq!(seen, 20);
}

#[test]
fn thread_count_is_bounded_by_buckets() {
    assert_eq!(KmersTransform::threads_for(3, 8), 3);
    assert_eq!(KmersTransform::threads_for(10, 4), 4);
    assert_eq!(KmersTransform::threads_for(0, 4), 0);
}
