use crate::packet::{Erasable, PacketTrait, PoolObjectTrait};
use vstd::prelude::*;

verus! {

/// A sequence record: identifier, bases and, for FASTQ input, qualities.
pub struct FastaSequence {
    pub ident: Vec<u8>,
    pub seq: Vec<u8>,
    pub qual: Option<Vec<u8>>,
}

impl FastaSequence {
    pub open spec fn qual_view(&self) -> Seq<u8> {
        match self.qual {
            Some(q) => q@,
            None => Seq::empty(),
        }
    }

    /// Identifier, bases and qualities (empty when there are none).
    pub open spec fn view(&self) -> (Seq<u8>, Seq<u8>, Seq<u8>) {
        (self.ident@, self.seq@, self.qual_view())
    }
}

/// Where a stored sequence's parts lie in the shared byte buffer: start,
/// identifier length, bases length, qualities length.
pub type SequencesType = (usize, usize, usize, usize);

/// A batch of sequences packed into one byte buffer of bounded capacity,
/// with the file information of the input they came from.
pub struct MinimizerBucketingQueueData<F> {
    data: Vec<u8>,
    capacity: usize,
    sequences: Vec<SequencesType>,
    contents: Ghost<Seq<(Seq<u8>, Seq<u8>, Seq<u8>)>>,
    file_info: F,
    start_read_index: u64,
}

/// The payloads that travel through the pipeline's shared queues, with
/// their types forgotten.
pub enum AnyPacketData<F> {
    Sequences(MinimizerBucketingQueueData<F>),
    Bytes(Vec<u8>),
}

impl<F> MinimizerBucketingQueueData<F> {
    /// The sequences stored, in the order they were pushed.
    pub closed spec fn view(&self) -> Seq<(Seq<u8>, Seq<u8>, Seq<u8>)> {
        self.contents@
    }

    pub closed spec fn file_info_spec(&self) -> F {
        self.file_info
    }

    pub closed spec fn start_read_index_spec(&self) -> u64 {
        self.start_read_index
    }

    /// Information on the input file the sequences came from.
    pub fn file_info(&self) -> (r: &F)
        ensures
            *r == self.file_info_spec(),
    {
        &self.file_info
    }

    /// Index, in its input, of the first sequence of the batch.
    pub fn start_read_index(&self) -> (r: u64)
        ensures
            r == self.start_read_index_spec(),
    {
        self.start_read_index
    }

    pub fn set_start_read_index(&mut self, index: u64)
        ensures
            final(self).start_read_index_spec() == index,
            final(self)@ == old(self)@,
            final(self).data_len() == old(self).data_len(),
            final(self).capacity_spec() == old(self).capacity_spec(),
            final(self).file_info_spec() == old(self).file_info_spec(),
            old(self).wf() ==> final(self).wf(),
    {
        self.start_read_index = index;
    }

    /// Bytes used in the buffer.
    pub closed spec fn data_len(&self) -> nat {
        self.data@.len()
    }

    /// The buffer's capacity: what it was made with, or what its largest
    /// content needed.
    pub closed spec fn capacity_spec(&self) -> nat {
        self.capacity as nat
    }

    pub closed spec fn wf(&self) -> bool {
        &&& self.sequences@.len() == self.contents@.len()
        &&& self.data@.len() <= self.capacity
        &&& forall|k: int| 0 <= k < self.sequences@.len() ==> {
            let (start, il, sl, ql) = #[trigger] self.sequences@[k];
            let (ident, seq, qual) = self.contents@[k];
            &&& start + il + sl + ql <= self.data@.len()
            &&& ident == self.data@.subrange(start as int, start + il)
            &&& seq == self.data@.subrange(start + il, start + il + sl)
            &&& qual == self.data@.subrange(start + il + sl, start + il + sl + ql)
        }
    }

    pub fn new(capacity: usize, file_info: F) -> (r: Self)
        ensures
            r.wf(),
            r@ == Seq::<(Seq<u8>, Seq<u8>, Seq<u8>)>::empty(),
            r.data_len() == 0,
            r.capacity_spec() == capacity,
            r.file_info_spec() == file_info,
            r.start_read_index_spec() == 0,
    {
        MinimizerBucketingQueueData {
            data: Vec::with_capacity(capacity),
            capacity,
            sequences: Vec::with_capacity(capacity / 512),
            contents: Ghost(Seq::empty()),
            file_info,
            start_read_index: 0,
        }
    }

    /// Appends a sequence. It is refused, leaving the batch as it is, when
    /// the batch is not empty and the room left is less than the
    /// sequence's total length; an empty batch takes any sequence.
    pub fn push_sequences(&mut self, seq: &FastaSequence) -> (r: bool)
        requires
            old(self).wf(),
            old(self).data_len() + seq.ident@.len() + seq.seq@.len() + seq.qual_view().len()
                <= usize::MAX,
        ensures
            final(self).wf(),
            final(self).file_info_spec() == old(self).file_info_spec(),
            final(self).start_read_index_spec() == old(self).start_read_index_spec(),
            ({
                let tot = seq.ident@.len() + seq.seq@.len() + seq.qual_view().len();
                r == (old(self).data_len() == 0 || old(self).capacity_spec() - old(self).data_len() >= tot)
            }),
            r ==> final(self)@ == old(self)@.push(seq.view()),
            !r ==> final(self)@ == old(self)@ && final(self).data_len() == old(self).data_len()
                && final(self).capacity_spec() == old(self).capacity_spec(),
    {
        let qual_len: usize = match &seq.qual {
            Some(q) => q.len(),
            None => 0,
        };
        let ident_len = seq.ident.len();
        let seq_len = seq.seq.len();
        let tot_len = qual_len + ident_len + seq_len;
        if self.data.len() != 0 && self.capacity - self.data.len() < tot_len {
            return false;
        }
        let ghost old_data = self.data@;
        let start = self.data.len();
        append_bytes(&mut self.data, &seq.ident);
        append_bytes(&mut self.data, &seq.seq);
        match &seq.qual {
            Some(q) => append_bytes(&mut self.data, q),
            None => {},
        }
        assert(self.data@ =~= old_data + seq.ident@ + seq.seq@ + seq.qual_view());
        if self.data.len() > self.capacity {
            self.capacity = self.data.len();
        }
        self.sequences.push((start, ident_len, seq_len, qual_len));
        self.contents = Ghost(self.contents@.push(seq.view()));
        proof {
            let d = self.data@;
            assert forall|k: int| 0 <= k < self.sequences@.len() implies {
                let (st, il, sl, ql) = #[trigger] self.sequences@[k];
                let (ident, sq, qual) = self.contents@[k];
                &&& st + il + sl + ql <= d.len()
                &&& ident == d.subrange(st as int, st + il)
                &&& sq == d.subrange(st + il, st + il + sl)
                &&& qual == d.subrange(st + il + sl, st + il + sl + ql)
            } by {
                let (st, il, sl, ql) = self.sequences@[k];
                if k < self.sequences@.len() - 1 {
                    assert(self.sequences@[k] == old(self).sequences@[k]);
                    assert(d.subrange(st as int, st + il) =~= old_data.subrange(st as int, st + il));
                    assert(d.subrange(st + il, st + il + sl) =~= old_data.subrange(st + il, st + il + sl));
                    assert(d.subrange(st + il + sl, st + il + sl + ql)
                        =~= old_data.subrange(st + il + sl, st + il + sl + ql));
                } else {
                    assert(d.subrange(st as int, st + il) =~= seq.ident@);
                    assert(d.subrange(st + il, st + il + sl) =~= seq.seq@);
                    assert(d.subrange(st + il + sl, st + il + sl + ql) =~= seq.qual_view());
                }
            }
        }
        true
    }

    /// Copies out the sequences in the order they were pushed; a sequence
    /// stored with no qualities (or empty ones) comes back with none.
    pub fn iter_sequences(&self) -> (r: Vec<FastaSequence>)
        requires
            self.wf(),
        ensures
            r@.len() == self@.len(),
            forall|k: int| 0 <= k < r@.len() ==> {
                &&& (#[trigger] r@[k]).view() == self@[k]
                &&& (r@[k].qual is None <==> self@[k].2.len() == 0)
            },
    {
        let mut r: Vec<FastaSequence> = Vec::new();
        let mut k: usize = 0;
        while k < self.sequences.len()
            invariant
                self.wf(),
                k <= self.sequences@.len(),
                r@.len() == k,
                forall|j: int| 0 <= j < k ==> {
                    &&& (#[trigger] r@[j]).view() == self@[j]
                    &&& (r@[j].qual is None <==> self@[j].2.len() == 0)
                },
            decreases self.sequences@.len() - k,
        {
            let (start, id_len, seq_len, qual_len) = self.sequences[k];
            assert(self.sequences@[k as int] == (start, id_len, seq_len, qual_len));
            let ident = copy_range(&self.data, start, id_len);
            let seq = copy_range(&self.data, start + id_len, seq_len);
            let qual = if qual_len == 0 {
                None
            } else {
                Some(copy_range(&self.data, start + id_len + seq_len, qual_len))
            };
            let s = FastaSequence { ident, seq, qual };
            assert(s.view() =~= self@[k as int]);
            r.push(s);
            k = k + 1;
        }
        r
    }

    /// Empties the batch for reuse; its capacity is kept.
    pub fn clear(&mut self)
        ensures
            final(self).wf(),
            final(self)@ == Seq::<(Seq<u8>, Seq<u8>, Seq<u8>)>::empty(),
            final(self).data_len() == 0,
            final(self).capacity_spec() == old(self).capacity_spec(),
            final(self).file_info_spec() == old(self).file_info_spec(),
            final(self).start_read_index_spec() == old(self).start_read_index_spec(),
    {
        self.data.clear();
        self.sequences.clear();
        self.contents = Ghost(Seq::empty());
    }

    /// Bytes in the buffer plus the room taken by the sequence index,
    /// saturating at the largest `usize`.
    pub fn get_size(&self) -> (r: usize)
        requires
            self.wf(),
        ensures
            r == if self.data_len() + self@.len() * 32 <= usize::MAX {
                (self.data_len() + self@.len() * 32) as usize
            } else {
                usize::MAX
            },
    {
        let n = self.sequences.len();
        let d = self.data.len();
        if n > (usize::MAX - d) / 32 {
            assert(n * 32 > usize::MAX - d) by (nonlinear_arith)
                requires n > (usize::MAX - d) / 32;
            usize::MAX
        } else {
            assert(n * 32 <= usize::MAX - d) by (nonlinear_arith)
                requires n <= (usize::MAX - d) / 32;
            d + n * 32
        }
    }
}

impl<F: Default> PoolObjectTrait for MinimizerBucketingQueueData<F> {
    type InitData = usize;

    fn allocate_new(init_data: &usize) -> Self {
        Self::new(*init_data, F::default())
    }

    fn reset(&mut self) {
        self.clear();
    }
}

impl<F: Default> PacketTrait for MinimizerBucketingQueueData<F> {
    fn get_size(&self) -> usize {
        let n = self.sequences.len();
        let d = self.data.len();
        if n > (usize::MAX - d) / 32 {
            usize::MAX
        } else {
            assert(n * 32 <= usize::MAX - d) by (nonlinear_arith)
                requires n <= (usize::MAX - d) / 32;
            d + n * 32
        }
    }
}

impl<F> Erasable<AnyPacketData<F>> for MinimizerBucketingQueueData<F> {
    open spec fn erase_spec(self) -> AnyPacketData<F> {
        AnyPacketData::Sequences(self)
    }

    open spec fn recover_spec(u: AnyPacketData<F>) -> Option<Self> {
        match u {
            AnyPacketData::Sequences(x) => Some(x),
            _ => None,
        }
    }

    proof fn lemma_recover_erase(x: Self) {
    }

    fn erase(self) -> AnyPacketData<F> {
        AnyPacketData::Sequences(self)
    }

    fn recover(u: AnyPacketData<F>) -> Result<Self, AnyPacketData<F>> {
        match u {
            AnyPacketData::Sequences(x) => Ok(x),
            other => Err(other),
        }
    }
}

impl<F> Erasable<AnyPacketData<F>> for Vec<u8> {
    open spec fn erase_spec(self) -> AnyPacketData<F> {
        AnyPacketData::Bytes(self)
    }

    open spec fn recover_spec(u: AnyPacketData<F>) -> Option<Self> {
        match u {
            AnyPacketData::Bytes(x) => Some(x),
            _ => None,
        }
    }

    proof fn lemma_recover_erase(x: Self) {
    }

    fn erase(self) -> AnyPacketData<F> {
        AnyPacketData::Bytes(self)
    }

    fn recover(u: AnyPacketData<F>) -> Result<Self, AnyPacketData<F>> {
        match u {
            AnyPacketData::Bytes(x) => Ok(x),
            other => Err(other),
        }
    }
}

/// Byte buffers, made with the capacity given as their initialisation
/// data and emptied on return.
impl PoolObjectTrait for Vec<u8> {
    type InitData = usize;

    fn allocate_new(init_data: &usize) -> Self {
        Vec::with_capacity(*init_data)
    }

    fn reset(&mut self) {
        self.clear();
    }
}

/// Appends `src` to `dst`.
pub(crate) fn append_bytes(dst: &mut Vec<u8>, src: &Vec<u8>)
    ensures
        final(dst)@ == old(dst)@ + src@,
{
    let mut i: usize = 0;
    while i < src.len()
        invariant
            i <= src@.len(),
            dst@ == old(dst)@ + src@.subrange(0, i as int),
        decreases src@.len() - i,
    {
        dst.push(src[i]);
        i = i + 1;
        assert(dst@ =~= old(dst)@ + src@.subrange(0, i as int));
    }
    assert(src@.subrange(0, src@.len() as int) =~= src@);
}

/// A copy of `len` bytes of `src` from `start` on.
fn copy_range(src: &Vec<u8>, start: usize, len: usize) -> (r: Vec<u8>)
    requires
        start + len <= src@.len(),
    ensures
        r@ == src@.subrange(start as int, start + len),
{
    let mut r: Vec<u8> = Vec::new();
    let n: usize = src.len();
    let mut i: usize = 0;
    while i < len
        invariant
            i <= len,
            n == src@.len(),
            start + len <= src@.len(),
            r@ == src@.subrange(start as int, start + i),
        decreases len - i,
    {
        r.push(src[start + i]);
        i = i + 1;
        assert(r@ =~= src@.subrange(start as int, start + i));
    }
    r
}

} // verus!
