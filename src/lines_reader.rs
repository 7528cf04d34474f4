use bstr::ByteSlice;
use vstd::prelude::*;

verus! {

/// Byte that ends a line.
pub const NEWLINE: u8 = 10;

/// Carriage return, dropped when it stands just before a line end.
pub const CARRIAGE_RETURN: u8 = 13;

/// Index of the first occurrence of `b` in `s`.
pub open spec fn is_first_index_of(s: Seq<u8>, b: u8, i: int) -> bool {
    &&& 0 <= i < s.len()
    &&& s[i] == b
    &&& forall|j: int| 0 <= j < i ==> s[j] != b
}

pub open spec fn contains_byte(s: Seq<u8>, b: u8) -> bool {
    exists|i: int| is_first_index_of(s, b, i)
}

/// `s` without a single trailing carriage return.
pub open spec fn strip_cr(s: Seq<u8>) -> Seq<u8> {
    if s.len() > 0 && s.last() == CARRIAGE_RETURN {
        s.drop_last()
    } else {
        s
    }
}

/// The lines completed by feeding `chunk` to a reader holding the partial
/// line `pending`, and the partial line left afterwards.
pub open spec fn feed_lines(pending: Seq<u8>, chunk: Seq<u8>) -> (Seq<Seq<u8>>, Seq<u8>)
    decreases chunk.len(),
{
    if contains_byte(chunk, NEWLINE) {
        let pos = choose|i: int| is_first_index_of(chunk, NEWLINE, i);
        let line = pending + strip_cr(chunk.subrange(0, pos));
        let rest = feed_lines(Seq::empty(), chunk.subrange(pos + 1, chunk.len() as int));
        (seq![line] + rest.0, rest.1)
    } else {
        (Seq::empty(), pending + strip_cr(chunk))
    }
}

/// What a reader delivers on one chunk: an empty chunk ends the stream
/// with a single end mark; any other completes the lines of `feed_lines`.
pub open spec fn feed_events(pending: Seq<u8>, chunk: Seq<u8>) -> (Seq<(Seq<u8>, bool)>, Seq<u8>) {
    if chunk.len() == 0 {
        (seq![(Seq::empty(), true)], pending)
    } else {
        let (lines, rest) = feed_lines(pending, chunk);
        (lines.map_values(|l: Seq<u8>| (l, false)), rest)
    }
}

/// What a reader delivers on a stream given as its chunks, in order.
pub open spec fn stream_events(pending: Seq<u8>, chunks: Seq<Seq<u8>>) -> (Seq<(Seq<u8>, bool)>, Seq<u8>)
    decreases chunks.len(),
{
    if chunks.len() == 0 {
        (Seq::empty(), pending)
    } else {
        let (events, rest) = stream_events(pending, chunks.drop_last());
        let (more, last_rest) = feed_events(rest, chunks.last());
        (events + more, last_rest)
    }
}

/// Relies on bstr's `ByteSlice::find_byte`: the index of the first
/// occurrence of the byte, or `None` when it does not occur.
#[verifier::external_body]
fn find_byte(s: &[u8], b: u8) -> (r: Option<usize>)
    ensures
        match r {
            Some(i) => is_first_index_of(s@, b, i as int),
            None => forall|i: int| 0 <= i < s@.len() ==> s@[i] != b,
        },
{
    s.find_byte(b)
}

proof fn lemma_first_index_unique(s: Seq<u8>, b: u8, i: int, k: int)
    requires
        is_first_index_of(s, b, i),
        is_first_index_of(s, b, k),
    ensures
        i == k,
{
}

/// Guard that callers hold while they share a reader's buffers; it holds
/// no data of its own.
pub struct LinesReaderBufferLock {}

/// Splits a stream of byte chunks into lines, carrying the unfinished
/// line from one chunk to the next.
pub struct LinesReader {
    tmp_line: Vec<u8>,
}

/// One delivery of the reader: a line, or the end-of-stream mark with an
/// empty line.
pub struct LineEvent {
    pub line: Vec<u8>,
    pub finished: bool,
}

impl LineEvent {
    pub open spec fn view(self) -> (Seq<u8>, bool) {
        (self.line@, self.finished)
    }
}

impl LinesReader {
    pub closed spec fn pending(&self) -> Seq<u8> {
        self.tmp_line@
    }

    pub fn new() -> (r: Self)
        ensures
            r.pending() == Seq::<u8>::empty(),
    {
        LinesReader { tmp_line: Vec::new() }
    }

    /// Splits off the first line of `buffer`: whether a line end was found,
    /// the line without its line end and trailing carriage return, and the
    /// index where the rest of the buffer starts.
    pub fn split_line(buffer: &[u8]) -> (r: (bool, Vec<u8>, usize))
        ensures
            r.0 == contains_byte(buffer@, NEWLINE),
            r.0 ==> is_first_index_of(buffer@, NEWLINE, r.2 - 1)
                && r.1@ == strip_cr(buffer@.subrange(0, r.2 - 1)),
            !r.0 ==> r.2 == buffer@.len() && r.1@ == strip_cr(buffer@),
    {
        let n: usize = buffer.len();
        let (full, end, next) = match find_byte(buffer, NEWLINE) {
            None => (false, n, n),
            Some(pos) => {
                assert(is_first_index_of(buffer@, NEWLINE, pos as int));
                (true, pos, pos + 1)
            },
        };
        let cut: usize = if end > 0 && buffer[end - 1] == CARRIAGE_RETURN {
            end - 1
        } else {
            end
        };
        let mut line: Vec<u8> = Vec::new();
        let mut i: usize = 0;
        while i < cut
            invariant
                cut <= end <= buffer@.len(),
                i <= cut,
                line@ == buffer@.subrange(0, i as int),
            decreases cut - i,
        {
            line.push(buffer[i]);
            i = i + 1;
            assert(line@ =~= buffer@.subrange(0, i as int));
        }
        assert(strip_cr(buffer@.subrange(0, end as int)) =~= buffer@.subrange(0, cut as int));
        if !full {
            assert(buffer@.subrange(0, end as int) =~= buffer@);
        }
        (full, line, next)
    }

    /// Feeds one chunk of the stream. An empty chunk marks the end of the
    /// stream: it delivers the end mark and nothing else. Otherwise every
    /// line completed by the chunk is delivered, the unfinished one kept.
    pub fn feed(&mut self, chunk: &[u8], out: &mut Vec<LineEvent>)
        ensures
            ({
                let (events, rest) = feed_events(old(self).pending(), chunk@);
                &&& final(self).pending() == rest
                &&& final(out)@.map_values(|e: LineEvent| e.view()) == old(out)@.map_values(|e: LineEvent| e.view()) + events
            }),
    {
        let ghost before = out@;
        self.feed_chunk(chunk, out);
        proof {
            let (events, rest) = feed_events(old(self).pending(), chunk@);
            let lhs = out@.map_values(|e: LineEvent| e.view());
            let rhs = before.map_values(|e: LineEvent| e.view()) + events;
            if chunk@.len() == 0 {
                assert(out@[out@.len() - 1] == out@.last());
                assert forall|k: int| 0 <= k < before.len() implies out@[k] == before[k] by {
                    assert(out@.drop_last()[k] == before[k]);
                }
            } else {
                assert forall|k: int| 0 <= k < before.len() implies out@[k] == before[k] by {
                    assert(out@.subrange(0, before.len() as int)[k] == before[k]);
                }
                assert forall|k: int| before.len() <= k < out@.len() implies lhs[k] == rhs[k] by {
                    let j = k - before.len();
                    assert(out@[before.len() + j] == out@[k]);
                }
            }
            assert(lhs =~= rhs);
        }
    }

    fn feed_chunk(&mut self, chunk: &[u8], out: &mut Vec<LineEvent>)
        ensures
            chunk@.len() == 0 ==> final(self).pending() == old(self).pending()
                && final(out)@.len() == old(out)@.len() + 1
                && final(out)@.last().line@ == Seq::<u8>::empty()
                && final(out)@.last().finished
                && final(out)@.drop_last() == old(out)@,
            chunk@.len() > 0 ==> ({
                let (lines, rest) = feed_lines(old(self).pending(), chunk@);
                &&& final(self).pending() == rest
                &&& final(out)@.len() == old(out)@.len() + lines.len()
                &&& final(out)@.subrange(0, old(out)@.len() as int) == old(out)@
                &&& forall|k: int| 0 <= k < lines.len() ==>
                    (#[trigger] final(out)@[old(out)@.len() + k]).line@ == lines[k]
                    && !final(out)@[old(out)@.len() + k].finished
            }),
    {
        if chunk.len() == 0 {
            out.push(LineEvent { line: Vec::new(), finished: true });
            assert(out@.drop_last() =~= old(out)@);
            return;
        }
        let ghost all = feed_lines(old(self).pending(), chunk@);
        let ghost base = old(out)@.len();
        let mut start: usize = 0;
        assert(chunk@.subrange(0, chunk@.len() as int) =~= chunk@);
        assert(out@.subrange(0, base as int) =~= old(out)@);
        loop
            invariant
                chunk@.len() > 0,
                start <= chunk@.len(),
                base == old(out)@.len(),
                all == feed_lines(old(self).pending(), chunk@),
                out@.len() >= base,
                out@.subrange(0, base as int) == old(out)@,
                ({
                    let now = feed_lines(self.pending(), chunk@.subrange(start as int, chunk@.len() as int));
                    &&& all.1 == now.1
                    &&& all.0.len() == out@.len() - base + now.0.len()
                    &&& forall|k: int| 0 <= k < out@.len() - base ==>
                        (#[trigger] out@[base + k]).line@ == all.0[k] && !out@[base + k].finished
                    &&& forall|k: int| 0 <= k < now.0.len() ==>
                        #[trigger] now.0[k] == all.0[out@.len() - base + k]
                }),
            decreases chunk@.len() - start,
        {
            let ghost rest_view = chunk@.subrange(start as int, chunk@.len() as int);
            let ghost pend = self.pending();
            let rest = vstd::slice::slice_subrange(chunk, start, chunk.len());
            assert(rest@ == rest_view);
            let (full, line, next) = Self::split_line(rest);
            if full {
                proof {
                    let pos = choose|i: int| is_first_index_of(rest_view, NEWLINE, i);
                    lemma_first_index_unique(rest_view, NEWLINE, pos, next - 1);
                    assert(rest_view.subrange(next as int, rest_view.len() as int)
                        =~= chunk@.subrange(start + next, chunk@.len() as int));
                }
                let mut whole: Vec<u8> = Vec::new();
                std::mem::swap(&mut whole, &mut self.tmp_line);
                let mut j: usize = 0;
                let ghost head = whole@;
                while j < line.len()
                    invariant
                        j <= line@.len(),
                        whole@ == head + line@.subrange(0, j as int),
                    decreases line@.len() - j,
                {
                    whole.push(line[j]);
                    j = j + 1;
                    assert(whole@ =~= head + line@.subrange(0, j as int));
                }
                assert(line@.subrange(0, line@.len() as int) =~= line@);
                assert(self.tmp_line@ =~= Seq::<u8>::empty());
                let ghost out_before = out@;
                out.push(LineEvent { line: whole, finished: false });
                start = start + next;
                proof {
                    let now = feed_lines(self.pending(), chunk@.subrange(start as int, chunk@.len() as int));
                    assert(out@.subrange(0, base as int) =~= out_before.subrange(0, base as int));
                    assert forall|k: int| 0 <= k < out@.len() - base implies
                        (#[trigger] out@[base + k]).line@ == all.0[k] && !out@[base + k].finished by {
                        if k < out@.len() - base - 1 {
                            assert(out@[base + k] == out_before[base + k]);
                        } else {
                            let prev = feed_lines(pend, rest_view);
                            assert(prev.0[0] == pend + line@);
                            assert(whole@ =~= pend + line@);
                        }
                    }
                    assert forall|k: int| 0 <= k < now.0.len() implies
                        #[trigger] now.0[k] == all.0[out@.len() - base + k] by {
                        let prev = feed_lines(pend, rest_view);
                        assert(prev.0[k + 1] == now.0[k]);
                    }
                }
            } else {
                let ghost head = self.tmp_line@;
                let mut j: usize = 0;
                while j < line.len()
                    invariant
                        j <= line@.len(),
                        self.tmp_line@ == head + line@.subrange(0, j as int),
                    decreases line@.len() - j,
                {
                    self.tmp_line.push(line[j]);
                    j = j + 1;
                    assert(self.tmp_line@ =~= head + line@.subrange(0, j as int));
                }
                assert(line@.subrange(0, line@.len() as int) =~= line@);
                return;
            }
        }
    }
}

pub open spec fn chunk_views(chunks: Seq<Vec<u8>>) -> Seq<Seq<u8>> {
    chunks.map_values(|c: Vec<u8>| c@)
}

impl LinesReader {
    /// Splits a whole stream, given as the chunks read from it, into the
    /// lines delivered in order; the end of the stream comes last, as one
    /// end mark. A partial line that no line end closes is not delivered.
    pub fn process_lines(chunks: &Vec<Vec<u8>>) -> (r: Vec<LineEvent>)
        ensures
            r@.map_values(|e: LineEvent| e.view())
                == stream_events(Seq::empty(), chunk_views(chunks@).push(Seq::empty())).0,
    {
        let mut reader = LinesReader::new();
        let mut out: Vec<LineEvent> = Vec::new();
        let mut i: usize = 0;
        while i < chunks.len()
            invariant
                i <= chunks@.len(),
                ({
                    let (events, rest) = stream_events(Seq::empty(), chunk_views(chunks@.subrange(0, i as int)));
                    &&& out@.map_values(|e: LineEvent| e.view()) == events
                    &&& reader.pending() == rest
                }),
            decreases chunks@.len() - i,
        {
            reader.feed(chunks[i].as_slice(), &mut out);
            proof {
                let cs = chunk_views(chunks@.subrange(0, i + 1));
                assert(cs.drop_last() =~= chunk_views(chunks@.subrange(0, i as int)));
                assert(cs.last() == chunks@[i as int]@);
            }
            i = i + 1;
        }
        let empty: Vec<u8> = Vec::new();
        reader.feed(empty.as_slice(), &mut out);
        proof {
            let cs = chunk_views(chunks@).push(Seq::empty());
            assert(chunks@.subrange(0, chunks@.len() as int) =~= chunks@);
            assert(cs.drop_last() =~= chunk_views(chunks@));
        }
        out
    }
}

} // verus!
