use vstd::prelude::*;

verus! {

/// Total number of bytes held by a sequence of chunks.
pub open spec fn total_len(chunks: Seq<Seq<u8>>) -> nat
    decreases chunks.len(),
{
    if chunks.len() == 0 {
        0
    } else {
        total_len(chunks.drop_last()) + chunks.last().len()
    }
}

/// Where a reserved region starts: a chunk and an offset inside it.
#[derive(Clone, Copy, PartialEq, Eq, Structural, Debug)]
pub struct ArenaPointer {
    pub chunk: usize,
    pub offset: usize,
}

/// Append-only byte buffer made of fixed-size chunks. Bytes once written
/// are never moved: new data goes to the last chunk, or to a fresh one.
pub struct ChunkedArena {
    chunks: Vec<Vec<u8>>,
    caps: Vec<usize>,
    chunk_size: usize,
    total: usize,
}

/// `later` keeps every byte of `earlier` where it was.
pub open spec fn extends(earlier: Seq<Seq<u8>>, later: Seq<Seq<u8>>) -> bool {
    &&& earlier.len() <= later.len()
    &&& forall|i: int| 0 <= i < earlier.len() ==>
        #[trigger] later[i].subrange(0, earlier[i].len() as int) == earlier[i]
        && earlier[i].len() <= later[i].len()
}

/// The `len` bytes stored from `p` on, where they exist.
pub open spec fn bytes_at(chunks: Seq<Seq<u8>>, p: ArenaPointer, len: nat) -> Seq<u8> {
    chunks[p.chunk as int].subrange(p.offset as int, p.offset + len)
}

pub open spec fn holds(chunks: Seq<Seq<u8>>, p: ArenaPointer, len: nat) -> bool {
    &&& p.chunk < chunks.len()
    &&& p.offset + len <= chunks[p.chunk as int].len()
}

/// Bytes read back from an arena are those found there at any earlier
/// time: appending never moves or changes what was written.
pub proof fn lemma_reads_stable(earlier: Seq<Seq<u8>>, later: Seq<Seq<u8>>, p: ArenaPointer, len: nat)
    requires
        extends(earlier, later),
        holds(earlier, p, len),
    ensures
        holds(later, p, len),
        bytes_at(later, p, len) == bytes_at(earlier, p, len),
{
    let c = p.chunk as int;
    assert(later[c].subrange(0, earlier[c].len() as int) == earlier[c]);
    assert(bytes_at(later, p, len) =~= bytes_at(earlier, p, len));
}

/// Extension of an arena's contents is transitive.
pub proof fn lemma_extends_transitive(a: Seq<Seq<u8>>, b: Seq<Seq<u8>>, c: Seq<Seq<u8>>)
    requires
        extends(a, b),
        extends(b, c),
    ensures
        extends(a, c),
{
    assert forall|i: int| 0 <= i < a.len() implies
        #[trigger] c[i].subrange(0, a[i].len() as int) == a[i] && a[i].len() <= c[i].len() by {
        assert(b[i].subrange(0, a[i].len() as int) == a[i]);
        assert(c[i].subrange(0, b[i].len() as int) == b[i]);
        assert(c[i].subrange(0, a[i].len() as int) =~= b[i].subrange(0, a[i].len() as int));
    }
}

proof fn lemma_total_len_update_last(s: Seq<Seq<u8>>, x: Seq<u8>)
    requires
        s.len() > 0,
    ensures
        total_len(s.update(s.len() - 1, x)) == total_len(s) - s.last().len() + x.len(),
{
    assert(s.update(s.len() - 1, x).drop_last() =~= s.drop_last());
}

proof fn lemma_total_len_push(s: Seq<Seq<u8>>, x: Seq<u8>)
    ensures
        total_len(s.push(x)) == total_len(s) + x.len(),
{
    assert(s.push(x).drop_last() =~= s);
}

impl ChunkedArena {
    pub closed spec fn view(&self) -> Seq<Seq<u8>> {
        self.chunks@.map_values(|c: Vec<u8>| c@)
    }

    /// The size given to fresh chunks.
    pub closed spec fn chunk_size_spec(&self) -> nat {
        self.chunk_size as nat
    }

    /// Bytes that the last chunk can still take without a new chunk.
    pub closed spec fn room(&self) -> nat {
        if self.chunks@.len() == 0 {
            0
        } else {
            (self.caps@.last() - self.chunks@.last()@.len()) as nat
        }
    }

    pub closed spec fn wf(&self) -> bool {
        &&& self.chunks@.len() == self.caps@.len()
        &&& self.chunk_size > 0
        &&& forall|i: int| 0 <= i < self.chunks@.len() ==> #[trigger] self.chunks@[i]@.len() <= self.caps@[i]
        &&& self.total == total_len(self.view())
    }

    pub fn new(chunk_size: usize) -> (r: Self)
        requires
            chunk_size > 0,
        ensures
            r.wf(),
            r@ == Seq::<Seq<u8>>::empty(),
            r.chunk_size_spec() == chunk_size,
            r.room() == 0,
    {
        let r = ChunkedArena { chunks: Vec::new(), caps: Vec::new(), chunk_size, total: 0 };
        assert(r@ =~= Seq::<Seq<u8>>::empty());
        r
    }

    /// Total bytes appended across all chunks.
    pub fn size(&self) -> (r: usize)
        requires
            self.wf(),
        ensures
            r == total_len(self@),
    {
        self.total
    }

    /// Makes sure that the next `n` bytes fit in the last chunk, opening a
    /// new chunk (of the chunk size, or of `n` bytes if that is larger)
    /// when they do not. Returns where those bytes will start.
    pub fn ensure_reserve(&mut self, n: usize) -> (p: ArenaPointer)
        requires
            old(self).wf(),
        ensures
            final(self).wf(),
            final(self).chunk_size_spec() == old(self).chunk_size_spec(),
            extends(old(self)@, final(self)@),
            total_len(final(self)@) == total_len(old(self)@),
            final(self).room() >= n,
            final(self)@.len() > 0,
            p.chunk == final(self)@.len() - 1,
            p.offset == final(self)@.last().len(),
            old(self)@.len() > 0 && old(self).room() >= n ==> final(self)@ == old(self)@,
            !(old(self)@.len() > 0 && old(self).room() >= n) ==> final(self)@ == old(self)@.push(Seq::empty()),
    {
        let k = self.chunks.len();
        if k > 0 && self.caps[k - 1] - self.chunks[k - 1].len() >= n {
            assert(self.chunks@[k - 1]@.len() <= self.caps@[k - 1]);
            proof {
                assert forall|i: int| 0 <= i < self@.len() implies
                    #[trigger] self@[i].subrange(0, self@[i].len() as int) == self@[i]
                    && self@[i].len() <= self@[i].len() by {
                    assert(self@[i].subrange(0, self@[i].len() as int) =~= self@[i]);
                }
            }
            return ArenaPointer { chunk: k - 1, offset: self.chunks[k - 1].len() };
        }
        let cap = if n > self.chunk_size { n } else { self.chunk_size };
        let ghost before = self@;
        self.chunks.push(Vec::new());
        self.caps.push(cap);
        proof {
            assert(self@ =~= before.push(Seq::empty()));
            lemma_total_len_push(before, Seq::empty());
            assert forall|i: int| 0 <= i < before.len() implies
                #[trigger] self@[i].subrange(0, before[i].len() as int) == before[i]
                && before[i].len() <= self@[i].len() by {
                assert(self@[i] == before[i]);
                assert(before[i].subrange(0, before[i].len() as int) =~= before[i]);
            }
            assert forall|i: int| 0 <= i < self.chunks@.len() implies
                #[trigger] self.chunks@[i]@.len() <= self.caps@[i] by {
                if i < k {
                    assert(old(self).chunks@[i]@.len() <= old(self).caps@[i]);
                }
            }
        }
        ArenaPointer { chunk: k, offset: 0 }
    }

    /// Appends `bytes` to the last chunk, inside the room that the last
    /// `ensure_reserve` made.
    pub fn push_contiguous_slice(&mut self, bytes: &[u8])
        requires
            old(self).wf(),
            old(self)@.len() > 0,
            bytes@.len() <= old(self).room(),
            total_len(old(self)@) + bytes@.len() <= usize::MAX,
        ensures
            final(self).wf(),
            final(self).chunk_size_spec() == old(self).chunk_size_spec(),
            extends(old(self)@, final(self)@),
            final(self)@ == old(self)@.update(old(self)@.len() - 1, old(self)@.last() + bytes@),
            final(self).room() == old(self).room() - bytes@.len(),
            total_len(final(self)@) == total_len(old(self)@) + bytes@.len(),
    {
        let k = self.chunks.len() - 1;
        let ghost before = self@;
        proof {
            assert(before.last() == self.chunks@[k as int]@);
            assert(self.chunks@[k as int]@.len() <= self.caps@[k as int]);
            lemma_total_len_update_last(before, before.last() + bytes@);
        }
        let mut last: Vec<u8> = Vec::new();
        std::mem::swap(&mut last, &mut self.chunks[k]);
        let ghost head = last@;
        let mut i: usize = 0;
        while i < bytes.len()
            invariant
                i <= bytes@.len(),
                last@ == head + bytes@.subrange(0, i as int),
            decreases bytes@.len() - i,
        {
            last.push(bytes[i]);
            i = i + 1;
            assert(last@ =~= head + bytes@.subrange(0, i as int));
        }
        assert(bytes@.subrange(0, bytes@.len() as int) =~= bytes@);
        self.chunks.set(k, last);
        self.total = self.total + bytes.len();
        proof {
            assert(self@ =~= before.update(k as int, head + bytes@));
            assert forall|i: int| 0 <= i < self.chunks@.len() implies
                #[trigger] self.chunks@[i]@.len() <= self.caps@[i] by {
                if i != k {
                    assert(old(self).chunks@[i]@.len() <= old(self).caps@[i]);
                }
            }
            assert forall|i: int| 0 <= i < before.len() implies
                #[trigger] self@[i].subrange(0, before[i].len() as int) == before[i]
                && before[i].len() <= self@[i].len() by {
                if i == k {
                    assert((head + bytes@).subrange(0, head.len() as int) =~= head);
                } else {
                    assert(before[i].subrange(0, before[i].len() as int) =~= before[i]);
                }
            }
        }
    }

    /// Copies out the `len` bytes stored from `p` on.
    pub fn read(&self, p: ArenaPointer, len: usize) -> (r: Vec<u8>)
        requires
            self.wf(),
            holds(self@, p, len as nat),
        ensures
            r@ == bytes_at(self@, p, len as nat),
    {
        let chunk = &self.chunks[p.chunk];
        assert(chunk@ == self@[p.chunk as int]);
        let n: usize = chunk.len();
        let mut r: Vec<u8> = Vec::new();
        let mut i: usize = 0;
        while i < len
            invariant
                i <= len,
                p.offset + len <= chunk@.len(),
                n == chunk@.len(),
                r@ == chunk@.subrange(p.offset as int, p.offset + i),
            decreases len - i,
        {
            r.push(chunk[p.offset + i]);
            i = i + 1;
            assert(r@ =~= chunk@.subrange(p.offset as int, p.offset + i));
        }
        r
    }

    /// Hands out the chunks, for their memory to be reused.
    pub fn into_chunks(self) -> (r: Vec<Vec<u8>>)
        ensures
            r@.map_values(|c: Vec<u8>| c@) == self@,
    {
        self.chunks
    }
}

} // verus!
