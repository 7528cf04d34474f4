use crate::chunked_arena::{
    bytes_at, extends, holds, lemma_extends_transitive, lemma_reads_stable, total_len, ArenaPointer,
    ChunkedArena,
};
use crate::queue_data::append_bytes;
use crate::record::{encode_varint_flags, header_fits, header_value, varint};
use vstd::prelude::*;

verus! {

/// Number of destination buckets of one bucket pass.
pub const MERGE_BUCKETS_COUNT: usize = 256;

/// Size of the chunks that the destination arenas are made of.
pub const BUFFER_CHUNK_SIZE: usize = 16384;

/// A record read from an input bucket: its length in bases, its packed
/// payload, and the metadata stored with it in the input bucket.
pub struct CompressedRead {
    pub bases_count: u64,
    pub packed: Vec<u8>,
    pub extra_data: Vec<u8>,
}

/// Where a record goes, as the executor decides: the destination bucket,
/// a hash, flags for the header, and the encoded metadata to store with it.
pub struct ReadDispatchInfo {
    pub bucket: u32,
    pub hash: u64,
    pub flags: u8,
    pub extra_data: Vec<u8>,
}

/// The routing entry of one record: its destination, where its bytes
/// start in that destination's arena, and its hash.
#[derive(Clone, Copy, PartialEq, Eq, Structural, Debug)]
pub struct ReadRef {
    pub bucket: u32,
    pub read_start: ArenaPointer,
    pub hash: u64,
}

/// Why a record could not be dispatched.
#[derive(Clone, Copy, PartialEq, Eq, Structural, Debug)]
pub enum TransformError {
    /// The executor named a destination past the last bucket.
    InvalidBucket,
    /// The flags do not fit their bits, or the header does not fit 64 bits.
    HeaderOverflow,
    /// The destination arena would hold more bytes than an index can count.
    ArenaOverflow,
}

/// The bytes stored for one record: its header, its payload, then the
/// metadata that the executor returned.
pub open spec fn encoded_read(read: CompressedRead, info: ReadDispatchInfo, flags_count: nat) -> Seq<u8> {
    varint(header_value(read.bases_count as nat, flags_count, info.flags as nat)) + read.packed@
        + info.extra_data@
}

pub open spec fn arena_views(buckets: Seq<ChunkedArena>) -> Seq<Seq<Seq<u8>>> {
    buckets.map_values(|a: ChunkedArena| a@)
}

pub open spec fn all_wf(buckets: Seq<ChunkedArena>) -> bool {
    forall|i: int| 0 <= i < buckets.len() ==> (#[trigger] buckets[i]).wf()
}

/// The error that dispatching `read` as `info` meets, if any.
pub open spec fn dispatch_error(
    buckets: Seq<ChunkedArena>,
    read: CompressedRead,
    info: ReadDispatchInfo,
    flags_count: nat,
) -> Option<TransformError> {
    if info.bucket >= buckets.len() {
        Some(TransformError::InvalidBucket)
    } else if !header_fits(read.bases_count as nat, flags_count, info.flags as nat) {
        Some(TransformError::HeaderOverflow)
    } else if total_len(buckets[info.bucket as int]@) + encoded_read(read, info, flags_count).len() > usize::MAX {
        Some(TransformError::ArenaOverflow)
    } else {
        None
    }
}

/// Writes one record into its destination's arena, in one contiguous
/// region, and records its routing entry. On an error nothing changes.
pub fn dispatch_read(
    buckets: &mut Vec<ChunkedArena>,
    refs: &mut Vec<ReadRef>,
    read: &CompressedRead,
    info: &ReadDispatchInfo,
    flags_count: usize,
) -> (r: Result<(), TransformError>)
    requires
        all_wf(old(buckets)@),
    ensures
        all_wf(final(buckets)@),
        final(buckets)@.len() == old(buckets)@.len(),
        forall|i: int| 0 <= i < old(buckets)@.len() ==>
            (#[trigger] final(buckets)@[i]).chunk_size_spec() == old(buckets)@[i].chunk_size_spec(),
        match dispatch_error(old(buckets)@, *read, *info, flags_count as nat) {
            Some(e) => r == Err::<(), TransformError>(e) && final(buckets)@ == old(buckets)@
                && final(refs)@ == old(refs)@,
            None => {
                let b = info.bucket as int;
                let enc = encoded_read(*read, *info, flags_count as nat);
                let p = final(refs)@.last().read_start;
                &&& r is Ok
                &&& final(refs)@.len() == old(refs)@.len() + 1
                &&& final(refs)@.drop_last() == old(refs)@
                &&& final(refs)@.last().bucket == info.bucket
                &&& final(refs)@.last().hash == info.hash
                &&& extends(old(buckets)@[b]@, final(buckets)@[b]@)
                &&& holds(final(buckets)@[b]@, p, enc.len())
                &&& bytes_at(final(buckets)@[b]@, p, enc.len()) == enc
                &&& total_len(final(buckets)@[b]@) == total_len(old(buckets)@[b]@) + enc.len()
                &&& forall|i: int| 0 <= i < old(buckets)@.len() && i != b ==>
                    (#[trigger] final(buckets)@[i]) == old(buckets)@[i]
            },
        },
{
    let b = info.bucket as usize;
    if b >= buckets.len() {
        return Err(TransformError::InvalidBucket);
    }
    let mut enc: Vec<u8> = Vec::new();
    if !encode_varint_flags(&mut enc, read.bases_count, flags_count, info.flags) {
        return Err(TransformError::HeaderOverflow);
    }
    assert(enc@ == varint(header_value(read.bases_count as nat, flags_count as nat, info.flags as nat)));
    append_bytes(&mut enc, &read.packed);
    append_bytes(&mut enc, &info.extra_data);
    assert(enc@ =~= encoded_read(*read, *info, flags_count as nat));
    assert(buckets@[b as int].wf());
    let size = buckets[b].size();
    if enc.len() > usize::MAX - size {
        return Err(TransformError::ArenaOverflow);
    }
    let ghost before = buckets@;
    let mut arena = ChunkedArena::new(BUFFER_CHUNK_SIZE);
    std::mem::swap(&mut arena, &mut buckets[b]);
    assert(arena == before[b as int]);
    let ghost a0 = arena@;
    let p = arena.ensure_reserve(enc.len());
    let ghost a1 = arena@;
    arena.push_contiguous_slice(enc.as_slice());
    proof {
        lemma_extends_transitive(a0, a1, arena@);
        let last = (arena@.len() - 1) as int;
        assert(arena@[last] == a1[last] + enc@);
        assert(bytes_at(arena@, p, enc@.len()) =~= enc@);
    }
    buckets.set(b, arena);
    refs.push(ReadRef { bucket: info.bucket, read_start: p, hash: info.hash });
    proof {
        assert(refs@.drop_last() =~= old(refs)@);
        assert forall|i: int| 0 <= i < buckets@.len() implies (#[trigger] buckets@[i]).wf() by {
            if i != b {
                assert(buckets@[i] == before[i]);
            }
        }
    }
    Ok(())
}

/// Record `j` of a pass stands, as `dispatch_read` wrote it, in the arenas
/// `views`, under the routing entry `entry`.
pub open spec fn dispatched(
    views: Seq<Seq<Seq<u8>>>,
    entry: ReadRef,
    read: CompressedRead,
    info: ReadDispatchInfo,
    flags_count: nat,
) -> bool {
    let enc = encoded_read(read, info, flags_count);
    &&& entry.bucket == info.bucket
    &&& entry.hash == info.hash
    &&& info.bucket < views.len()
    &&& holds(views[info.bucket as int], entry.read_start, enc.len())
    &&& bytes_at(views[info.bucket as int], entry.read_start, enc.len()) == enc
}

/// Bytes that the first `n` records of a pass put into destination `b`:
/// the encodings of those that `infos` sends there.
pub open spec fn pass_bytes(
    reads: Seq<CompressedRead>,
    infos: Seq<ReadDispatchInfo>,
    flags_count: nat,
    b: int,
    n: nat,
) -> nat
    decreases n,
{
    if n == 0 {
        0
    } else {
        let j = n - 1;
        pass_bytes(reads, infos, flags_count, b, j as nat) + if infos[j].bucket == b {
            encoded_read(reads[j], infos[j], flags_count).len()
        } else {
            0
        }
    }
}

pub open spec fn all_extend(a: Seq<Seq<Seq<u8>>>, b: Seq<Seq<Seq<u8>>>) -> bool {
    &&& a.len() == b.len()
    &&& forall|i: int| 0 <= i < a.len() ==> extends(#[trigger] a[i], b[i])
}

/// Dispatches the records of one bucket pass, each as its entry of `infos`
/// says, stopping at the first that meets an error. Each record dispatched
/// has exactly one routing entry, the one at its own position, and its bytes
/// stand in the destination that `infos` named for it.
pub fn dispatch_reads(
    buckets: &mut Vec<ChunkedArena>,
    refs: &mut Vec<ReadRef>,
    reads: &Vec<CompressedRead>,
    infos: &Vec<ReadDispatchInfo>,
    flags_count: usize,
) -> (r: Result<(), (usize, TransformError)>)
    requires
        all_wf(old(buckets)@),
        reads@.len() == infos@.len(),
    ensures
        all_wf(final(buckets)@),
        all_extend(arena_views(old(buckets)@), arena_views(final(buckets)@)),
        forall|i: int| 0 <= i < old(buckets)@.len() ==>
            (#[trigger] final(buckets)@[i]).chunk_size_spec() == old(buckets)@[i].chunk_size_spec(),
        final(refs)@.subrange(0, old(refs)@.len() as int) == old(refs)@,
        ({
            let done = match r {
                Ok(_) => reads@.len() as int,
                Err((k, _)) => k as int,
            };
            &&& 0 <= done <= reads@.len()
            &&& final(refs)@.len() == old(refs)@.len() + done
            &&& forall|b: int| 0 <= b < old(buckets)@.len() ==>
                total_len(#[trigger] final(buckets)@[b]@) == total_len(old(buckets)@[b]@)
                    + pass_bytes(reads@, infos@, flags_count as nat, b, done as nat)
            &&& forall|j: int| 0 <= j < done ==> dispatched(
                arena_views(final(buckets)@),
                #[trigger] final(refs)@[old(refs)@.len() + j],
                reads@[j],
                infos@[j],
                flags_count as nat,
            )
        }),
        match r {
            Ok(_) => true,
            Err((k, e)) => k < reads@.len()
                && dispatch_error(final(buckets)@, reads@[k as int], infos@[k as int], flags_count as nat) == Some(e),
        },
{
    let ghost base = old(refs)@.len();
    let mut j: usize = 0;
    proof {
        assert(refs@.subrange(0, base as int) =~= old(refs)@);
        assert forall|i: int| 0 <= i < arena_views(buckets@).len() implies
            extends(#[trigger] arena_views(old(buckets)@)[i], arena_views(buckets@)[i]) by {
            let v = arena_views(buckets@)[i];
            assert forall|c: int| 0 <= c < v.len() implies
                #[trigger] v[c].subrange(0, v[c].len() as int) == v[c] && v[c].len() <= v[c].len() by {
                assert(v[c].subrange(0, v[c].len() as int) =~= v[c]);
            }
        }
    }
    while j < reads.len()
        invariant
            j <= reads@.len() == infos@.len(),
            all_wf(buckets@),
            all_extend(arena_views(old(buckets)@), arena_views(buckets@)),
            forall|i: int| 0 <= i < old(buckets)@.len() ==>
                (#[trigger] buckets@[i]).chunk_size_spec() == old(buckets)@[i].chunk_size_spec(),
            base == old(refs)@.len(),
            refs@.len() == base + j,
            refs@.subrange(0, base as int) == old(refs)@,
            buckets@.len() == old(buckets)@.len(),
            forall|b: int| 0 <= b < old(buckets)@.len() ==>
                total_len(#[trigger] buckets@[b]@) == total_len(old(buckets)@[b]@)
                    + pass_bytes(reads@, infos@, flags_count as nat, b, j as nat),
            forall|k: int| 0 <= k < j ==> dispatched(
                arena_views(buckets@),
                #[trigger] refs@[base + k],
                reads@[k],
                infos@[k],
                flags_count as nat,
            ),
        decreases reads@.len() - j,
    {
        let ghost prev_b = buckets@;
        let ghost prev_r = refs@;
        match dispatch_read(buckets, refs, &reads[j], &infos[j], flags_count) {
            Err(e) => {
                return Err((j, e));
            },
            Ok(_) => {},
        }
        proof {
            let b = infos@[j as int].bucket as int;
            let vb = arena_views(buckets@);
            let vp = arena_views(prev_b);
            assert(refs@.subrange(0, base as int) =~= prev_r.subrange(0, base as int));
            assert forall|c: int| 0 <= c < old(buckets)@.len() implies
                total_len(#[trigger] buckets@[c]@) == total_len(old(buckets)@[c]@)
                    + pass_bytes(reads@, infos@, flags_count as nat, c, (j + 1) as nat) by {
                assert(total_len(prev_b[c]@) == total_len(old(buckets)@[c]@)
                    + pass_bytes(reads@, infos@, flags_count as nat, c, j as nat));
                if c != b {
                    assert(buckets@[c] == prev_b[c]);
                }
            }
            assert forall|i: int| 0 <= i < vp.len() implies extends(#[trigger] vp[i], vb[i]) by {
                if i != b {
                    assert(buckets@[i] == prev_b[i]);
                    let v = vb[i];
                    assert forall|c: int| 0 <= c < v.len() implies
                        #[trigger] v[c].subrange(0, v[c].len() as int) == v[c] && v[c].len() <= v[c].len() by {
                        assert(v[c].subrange(0, v[c].len() as int) =~= v[c]);
                    }
                }
            }
            assert forall|i: int| 0 <= i < vp.len() implies
                extends(#[trigger] arena_views(old(buckets)@)[i], vb[i]) by {
                lemma_extends_transitive(arena_views(old(buckets)@)[i], vp[i], vb[i]);
            }
            assert forall|k: int| 0 <= k < j + 1 implies dispatched(
                vb,
                #[trigger] refs@[base + k],
                reads@[k],
                infos@[k],
                flags_count as nat,
            ) by {
                if k < j {
                    assert(refs@[base + k] == prev_r[base + k]);
                    let d = infos@[k].bucket as int;
                    let enc = encoded_read(reads@[k], infos@[k], flags_count as nat);
                    lemma_reads_stable(vp[d], vb[d], refs@[base + k].read_start, enc.len());
                } else {
                    assert(refs@[base + k] == refs@.last());
                }
            }
        }
        j = j + 1;
    }
    Ok(())
}

/// Builds one executor per worker thread from the data shared by all.
pub trait KmersTransformExecutorFactory: Sized {
    type GlobalExtraData;
    type ExecutorType: KmersTransformExecutor<Self::GlobalExtraData>;

    /// Number of flag bits stored in each record header.
    fn flags_count() -> usize;

    fn new(global_data: &Self::GlobalExtraData) -> Self::ExecutorType;
}

/// The domain logic of a transform: classifies records and processes the
/// groups of records that a bucket pass produced.
pub trait KmersTransformExecutor<G> {
    fn preprocess_bucket(&mut self, global_data: &G, read: &CompressedRead) -> ReadDispatchInfo;

    fn maybe_swap_bucket(&mut self, global_data: &G);

    fn process_group(&mut self, global_data: &G, reads: &Vec<ReadRef>, buckets: &Vec<ChunkedArena>);

    fn finalize(self, global_data: &G);
}

/// Asks the executor where each record goes, in order: one answer per
/// record.
pub fn classify_reads<G, X: KmersTransformExecutor<G>>(
    executor: &mut X,
    global_data: &G,
    reads: &Vec<CompressedRead>,
) -> (r: Vec<ReadDispatchInfo>)
    ensures
        r@.len() == reads@.len(),
{
    let mut infos: Vec<ReadDispatchInfo> = Vec::new();
    let mut i: usize = 0;
    while i < reads.len()
        invariant
            i <= reads@.len(),
            infos@.len() == i,
        decreases reads@.len() - i,
    {
        let info = executor.preprocess_bucket(global_data, &reads[i]);
        infos.push(info);
        i = i + 1;
    }
    infos
}

/// Fresh, empty destination arenas for one bucket pass.
pub fn new_destination_buckets(count: usize) -> (r: Vec<ChunkedArena>)
    ensures
        r@.len() == count,
        all_wf(r@),
        forall|i: int| 0 <= i < count ==> (#[trigger] r@[i])@ == Seq::<Seq<u8>>::empty(),
{
    let mut r: Vec<ChunkedArena> = Vec::new();
    let mut i: usize = 0;
    while i < count
        invariant
            i <= count,
            r@.len() == i,
            all_wf(r@),
            forall|k: int| 0 <= k < i ==> (#[trigger] r@[k])@ == Seq::<Seq<u8>>::empty(),
        decreases count - i,
    {
        r.push(ChunkedArena::new(BUFFER_CHUNK_SIZE));
        i = i + 1;
    }
    r
}

/// A finished bucket pass: the destination arenas and the routing entries
/// of every record dispatched into them.
pub struct CompletedGroup {
    pub buckets: Vec<ChunkedArena>,
    pub refs: Vec<ReadRef>,
}

/// Runs one bucket pass over `reads` with `executor`: classifies each
/// record, then writes it to its destination among `buckets_count` fresh
/// arenas. Every record gets exactly one routing entry, at its position,
/// pointing at its bytes in the destination the executor named.
pub fn transform_bucket<G, X: KmersTransformExecutor<G>>(
    executor: &mut X,
    global_data: &G,
    reads: &Vec<CompressedRead>,
    buckets_count: usize,
    flags_count: usize,
) -> (r: Result<CompletedGroup, (usize, TransformError)>)
    ensures
        r matches Ok(g) ==> g.buckets@.len() == buckets_count && all_wf(g.buckets@)
            && g.refs@.len() == reads@.len()
            && forall|j: int| 0 <= j < reads@.len() ==>
                #[trigger] g.refs@[j].bucket < buckets_count
                && exists|info: ReadDispatchInfo| dispatched(
                    arena_views(g.buckets@),
                    g.refs@[j],
                    reads@[j],
                    info,
                    flags_count as nat,
                ),
        r matches Err((k, _)) ==> k < reads@.len(),
{
    let infos = classify_reads(executor, global_data, reads);
    let mut buckets = new_destination_buckets(buckets_count);
    let mut refs: Vec<ReadRef> = Vec::new();
    match dispatch_reads(&mut buckets, &mut refs, reads, &infos, flags_count) {
        Ok(_) => {
            assert forall|j: int| 0 <= j < reads@.len() implies #[trigger] refs@[j].bucket < buckets_count
                && exists|info: ReadDispatchInfo| dispatched(
                    arena_views(buckets@),
                    refs@[j],
                    reads@[j],
                    info,
                    flags_count as nat,
                ) by {
                assert(refs@[0 + j] == refs@[j]);
                assert(dispatched(arena_views(buckets@), refs@[j], reads@[j], infos@[j], flags_count as nat));
            }
            Ok(CompletedGroup { buckets, refs })
        },
        Err(e) => Err(e),
    }
}

/// The parallel transform over a set of input buckets.
pub struct KmersTransform;

impl KmersTransform {
    /// Number of worker threads to run: no more than there are input
    /// buckets, nor than the threads configured.
    pub fn threads_for(buckets_count: usize, threads_count: usize) -> (r: usize)
        ensures
            r == if buckets_count < threads_count { buckets_count } else { threads_count },
    {
        if buckets_count < threads_count {
            buckets_count
        } else {
            threads_count
        }
    }
}

/// Where a worker thread stands.
#[derive(Clone, Copy, PartialEq, Eq, Structural, Debug)]
pub enum WorkerState {
    AwaitingBucket,
    ReadingBucket(usize),
    DrainingPending,
    Finalized,
}

/// The worker's next state, from what it observed: whether reading is
/// over, the active bucket, whether completed groups wait in the shared
/// queue, and whether the bucket it reads is exhausted.
pub open spec fn worker_step_model(
    state: WorkerState,
    reading_finished: bool,
    active: Option<usize>,
    pending_groups: bool,
    exhausted: bool,
) -> WorkerState {
    match state {
        WorkerState::AwaitingBucket => if reading_finished {
            WorkerState::DrainingPending
        } else {
            match active {
                Some(i) => WorkerState::ReadingBucket(i),
                None => WorkerState::AwaitingBucket,
            }
        },
        WorkerState::ReadingBucket(i) => if exhausted {
            WorkerState::AwaitingBucket
        } else {
            WorkerState::ReadingBucket(i)
        },
        WorkerState::DrainingPending => if pending_groups {
            WorkerState::DrainingPending
        } else {
            WorkerState::Finalized
        },
        WorkerState::Finalized => WorkerState::Finalized,
    }
}

/// One decision of a worker thread.
pub fn worker_step(
    state: WorkerState,
    reading_finished: bool,
    active: Option<usize>,
    pending_groups: bool,
    exhausted: bool,
) -> (r: WorkerState)
    ensures
        r == worker_step_model(state, reading_finished, active, pending_groups, exhausted),
{
    match state {
        WorkerState::AwaitingBucket => if reading_finished {
            WorkerState::DrainingPending
        } else {
            match active {
                Some(i) => WorkerState::ReadingBucket(i),
                None => WorkerState::AwaitingBucket,
            }
        },
        WorkerState::ReadingBucket(i) => if exhausted {
            WorkerState::AwaitingBucket
        } else {
            WorkerState::ReadingBucket(i)
        },
        WorkerState::DrainingPending => if pending_groups {
            WorkerState::DrainingPending
        } else {
            WorkerState::Finalized
        },
        WorkerState::Finalized => WorkerState::Finalized,
    }
}

/// Once reading is over and the shared queue is empty, a worker that is
/// not reading reaches `Finalized` within two steps, and stays there.
pub proof fn lemma_worker_finalizes(state: WorkerState, active: Option<usize>, exhausted: bool)
    requires
        !(state is ReadingBucket),
    ensures
        ({
            let s1 = worker_step_model(state, true, active, false, exhausted);
            let s2 = worker_step_model(s1, true, active, false, exhausted);
            &&& s2 == WorkerState::Finalized
            &&& worker_step_model(s2, true, active, false, exhausted) == WorkerState::Finalized
        }),
{
}

} // verus!
