//! The chunking engine: turns a sequential byte source into owned,
//! line-aligned chunks bounded in both directions.

use vstd::prelude::*;
use vstd::slice::slice_subrange;

use crate::lines::NL;
use crate::search::find_last;
use crate::source::ByteSource;
use crate::source::ReadError;

verus! {

/// Why the chunk sequence ended in failure. Both failures are terminal:
/// once one is yielded, the sequence yields nothing further.
#[derive(Clone, Copy, Debug, PartialEq, Eq, Structural)]
pub enum ChunkError {
    /// The accumulated unterminated run outgrew the maximum line bound;
    /// `len` is the length the accumulator had reached. The accumulated
    /// bytes are discarded, not surfaced.
    LineTooLong { len: usize },
    /// The byte source reported a failure, carried here unchanged. The
    /// accumulated bytes are discarded.
    SourceFailure { err: ReadError },
}

/// Reads a byte source into chunks with a guaranteed minimum size.
///
/// The chunks are always line-aligned: each ends with a terminator byte,
/// except possibly the single terminal chunk emitted at end of source.
/// Chunks may grow past `chunksize` to encompass an entire line, bounded
/// by the maximum line setting (default 32 x `chunksize`); the minimum
/// chunk size defaults to 75% of `chunksize`.
pub struct LineChunks<R> {
    src: R,
    pending: Vec<u8>,
    pos: usize,
    finished: bool,
    accum: Vec<u8>,
    max_line: usize,
    min_chunk: usize,
    chunksize: usize,
    emitted: Ghost<Seq<u8>>,
    input: Ghost<Seq<u8>>,
}

impl<R: ByteSource> LineChunks<R> {
    /// The bytes of the input not yet folded into the accumulator or a
    /// chunk: read-ahead bytes not yet consumed, then the source's rest.
    pub closed spec fn unread(&self) -> Seq<u8> {
        self.pending@.skip(self.pos as int) + self.src.remaining()
    }

    /// Concatenation of every chunk emitted so far.
    pub closed spec fn emitted_bytes(&self) -> Seq<u8> {
        self.emitted@
    }

    /// The whole input: what the source held when the engine was built.
    pub closed spec fn input_bytes(&self) -> Seq<u8> {
        self.input@
    }

    /// The carry-over bytes read since the last emission.
    pub closed spec fn accum_bytes(&self) -> Seq<u8> {
        self.accum@
    }

    /// Whether the sequence has ended; no further items follow.
    pub closed spec fn is_finished(&self) -> bool {
        self.finished
    }

    /// The configured minimum chunk size.
    pub closed spec fn min_chunk_spec(&self) -> int {
        self.min_chunk as int
    }

    /// The configured maximum accumulated unterminated-run size.
    pub closed spec fn max_line_spec(&self) -> int {
        self.max_line as int
    }

    /// The configured read-ahead size.
    pub closed spec fn chunk_size(&self) -> int {
        self.chunksize as int
    }

    /// Whether the underlying source is known never to fail.
    pub closed spec fn source_never_fails(&self) -> bool {
        self.src.never_fails()
    }

    /// The engine's invariant: while the sequence is live, the emitted
    /// chunks, the accumulator and the unread rest partition the input.
    pub closed spec fn wf(&self) -> bool {
        &&& self.pos <= self.pending@.len()
        &&& self.chunksize >= 1
        &&& (!self.finished ==> self.emitted@ + self.accum@ + self.unread() == self.input@)
    }

    /// Build an engine over `read`. `chunksize` fixes the read-ahead size
    /// and the defaults derived from it: minimum chunk size 75% of it,
    /// maximum line size 32 times it.
    pub fn new(chunksize: usize, read: R) -> (r: LineChunks<R>)
        requires
            1 <= chunksize,
            chunksize * 32 <= usize::MAX,
        ensures
            r.wf(),
            !r.is_finished(),
            r.emitted_bytes() == Seq::<u8>::empty(),
            r.accum_bytes() == Seq::<u8>::empty(),
            r.input_bytes() == read.remaining(),
            r.unread() == read.remaining(),
            r.min_chunk_spec() == chunksize as int * 3 / 4,
            r.max_line_spec() == chunksize as int * 32,
            r.chunk_size() == chunksize as int,
            r.source_never_fails() == read.never_fails(),
    {
        let r = LineChunks {
            input: Ghost(read.remaining()),
            src: read,
            pending: Vec::new(),
            pos: 0,
            finished: false,
            accum: Vec::new(),
            max_line: chunksize * 32,
            min_chunk: chunksize * 3 / 4,
            chunksize,
            emitted: Ghost(Seq::empty()),
        };
        proof {
            assert(r.unread() =~= r.src.remaining());
            assert(r.emitted@ + r.accum@ + r.unread() =~= r.input@);
        }
        r
    }

    /// Set the maximum line length: the bound on the distance between
    /// terminators, and so on the accumulator the engine will hold.
    pub fn max_line(&mut self, size: usize)
        ensures
            final(self).max_line_spec() == size as int,
            old(self).wf() ==> final(self).wf(),
            final(self).min_chunk_spec() == old(self).min_chunk_spec(),
            final(self).chunk_size() == old(self).chunk_size(),
            final(self).is_finished() == old(self).is_finished(),
            final(self).emitted_bytes() == old(self).emitted_bytes(),
            final(self).accum_bytes() == old(self).accum_bytes(),
            final(self).input_bytes() == old(self).input_bytes(),
            final(self).unread() == old(self).unread(),
            final(self).source_never_fails() == old(self).source_never_fails(),
    {
        self.max_line = size;
    }

    /// Set the minimum acceptable chunk size. A shorter line-aligned run
    /// is kept and grown rather than emitted; only the terminal chunk may
    /// fall short.
    pub fn min_chunk(&mut self, size: usize)
        ensures
            final(self).min_chunk_spec() == size as int,
            old(self).wf() ==> final(self).wf(),
            final(self).max_line_spec() == old(self).max_line_spec(),
            final(self).chunk_size() == old(self).chunk_size(),
            final(self).is_finished() == old(self).is_finished(),
            final(self).emitted_bytes() == old(self).emitted_bytes(),
            final(self).accum_bytes() == old(self).accum_bytes(),
            final(self).input_bytes() == old(self).input_bytes(),
            final(self).unread() == old(self).unread(),
            final(self).source_never_fails() == old(self).source_never_fails(),
    {
        self.min_chunk = size;
    }

    /// Produce the next item of the sequence: a chunk, a terminal error,
    /// or `None` for the end of the sequence.
    ///
    /// Every chunk is non-empty and extends the emitted bytes in input
    /// order. A chunk emitted while the sequence stays live ends with a
    /// terminator and meets the minimum size; the terminal chunk completes
    /// the input exactly. An error permanently ends the sequence, and a
    /// source that never fails only ever reports an overlong line.
    #[verifier::loop_isolation(false)]
    #[verifier::rlimit(30)]
    pub fn next(&mut self) -> (r: Option<Result<Vec<u8>, ChunkError>>)
        requires
            old(self).wf(),
        ensures
            final(self).wf(),
            final(self).input_bytes() == old(self).input_bytes(),
            final(self).min_chunk_spec() == old(self).min_chunk_spec(),
            final(self).max_line_spec() == old(self).max_line_spec(),
            final(self).chunk_size() == old(self).chunk_size(),
            final(self).source_never_fails() == old(self).source_never_fails(),
            old(self).is_finished() ==> r is None && *final(self) == *old(self),
            match r {
                None => {
                    &&& final(self).is_finished()
                    &&& final(self).emitted_bytes() == old(self).emitted_bytes()
                    &&& !old(self).is_finished() ==> {
                        &&& old(self).accum_bytes().len() == 0
                        &&& old(self).unread().len() == 0
                        &&& final(self).emitted_bytes() == old(self).input_bytes()
                    }
                },
                Some(Ok(c)) => {
                    &&& !old(self).is_finished()
                    &&& c@.len() > 0
                    &&& final(self).emitted_bytes() == old(self).emitted_bytes() + c@
                    &&& final(self).is_finished() ==> {
                        &&& final(self).emitted_bytes() == old(self).input_bytes()
                        &&& c@.len() <= old(self).max_line_spec()
                    }
                    &&& !final(self).is_finished() ==> {
                        &&& c@.len() >= old(self).min_chunk_spec()
                        &&& c@.last() == NL
                    }
                },
                Some(Err(e)) => {
                    &&& !old(self).is_finished()
                    &&& final(self).is_finished()
                    &&& final(self).emitted_bytes() == old(self).emitted_bytes()
                    &&& final(self).accum_bytes().len() == 0
                    &&& old(self).source_never_fails() ==> e is LineTooLong
                    &&& (e matches ChunkError::LineTooLong { len } ==> len > old(
                        self,
                    ).max_line_spec() && len <= old(self).accum_bytes().len() + old(
                        self,
                    ).unread().len())
                },
            },
            !old(self).is_finished() && old(self).accum_bytes().len() == 0 && old(
                self,
            ).unread().len() == 0 && old(self).source_never_fails() ==> r is None,
    {
        if self.finished {
            return None;
        }
        proof {
            assert(self.accum@ =~= self.accum@.subrange(0, self.accum@.len() as int));
        }
        loop
            invariant
                !self.finished,
                self.pos <= self.pending@.len(),
                self.chunksize == old(self).chunksize,
                self.min_chunk == old(self).min_chunk,
                self.max_line == old(self).max_line,
                self.src.never_fails() == old(self).src.never_fails(),
                self.emitted@ == old(self).emitted@,
                self.input@ == old(self).input@,
                self.emitted@ + self.accum@ + self.unread() == self.input@,
                old(self).accum@.is_prefix_of(self.accum@),
            decreases self.unread().len(),
        {
            let ghost loop_accum = self.accum@;
            let ghost loop_unread = self.unread();

            // An accumulator past the maximum line bound means no further
            // terminator is worth waiting for: fail once, discarding it.
            if self.accum.len() > self.max_line {
                let n = self.accum.len();
                self.finished = true;
                self.accum = Vec::new();
                return Some(Err(ChunkError::LineTooLong { len: n }));
            }
            // Refill the read-ahead buffer once it is fully consumed.
            if self.pos == self.pending.len() {
                let ghost rem0 = self.src.remaining();
                match self.src.read(self.chunksize) {
                    Ok(v) => {
                        proof {
                            assert(self.pending@.skip(self.pos as int) + rem0 =~= rem0);
                            assert(v@ + rem0.skip(v@.len() as int) =~= rem0);
                        }
                        self.pending = v;
                        self.pos = 0;
                        proof {
                            assert(self.pending@.skip(0) =~= self.pending@);
                            assert(self.unread() =~= loop_unread);
                        }
                    },
                    Err(err) => {
                        self.finished = true;
                        self.accum = Vec::new();
                        return Some(Err(ChunkError::SourceFailure { err }));
                    },
                }
            }
            if self.pos == self.pending.len() {
                // The source is exhausted: emit what the accumulator holds
                // as the terminal chunk, or end the sequence outright.
                self.finished = true;
                assert(self.unread().len() == 0);
                if self.accum.len() == 0 {
                    proof {
                        assert(loop_accum.len() == 0 && loop_unread.len() == 0);
                        assert(self.emitted@ + self.accum@ + self.unread() =~= self.emitted@);
                        assert(old(self).accum@.len() == 0);
                        assert(old(self).unread().len() == 0) by {
                            assert((self.emitted@ + old(self).accum@ + old(self).unread()).len()
                                == (self.emitted@ + self.accum@ + self.unread()).len());
                        }
                    }
                    return None;
                }
                let mut out: Vec<u8> = Vec::new();
                core::mem::swap(&mut out, &mut self.accum);
                proof {
                    assert(self.emitted@ + out@ =~= self.emitted@ + out@ + self.unread());
                    assert(out@.len() <= self.max_line as int);
                }
                self.emitted = Ghost(self.emitted@ + out@);
                return Some(Ok(out));
            }
            // Scan the unconsumed read-ahead region for its last
            // terminator.
            let pending_len = self.pending.len();
            let region = slice_subrange(self.pending.as_slice(), self.pos, pending_len);
            match find_last(NL, region) {
                Some(rel) => {
                    // Fold everything up to and including that terminator
                    // into the accumulator; emit it if it is big enough.
                    let eol = self.pos + rel + 1;
                    let ghost acc0 = self.accum@;
                    append_range(&mut self.accum, &self.pending, self.pos, eol);
                    let ghost consumed = self.pending@.subrange(self.pos as int, eol as int);
                    proof {
                        assert(self.accum@.last() == NL);
                        assert(consumed + self.pending@.skip(eol as int) =~= self.pending@.skip(
                            self.pos as int,
                        ));
                        assert(self.emitted@ + (acc0 + consumed) + (self.pending@.skip(eol as int)
                            + self.src.remaining()) =~= self.emitted@ + acc0 + (self.pending@.skip(
                            self.pos as int,
                        ) + self.src.remaining()));
                    }
                    self.pos = eol;
                    assert(self.emitted@ + self.accum@ + self.unread() == self.input@);
                    if self.accum.len() >= self.min_chunk {
                        let mut out: Vec<u8> = Vec::new();
                        core::mem::swap(&mut out, &mut self.accum);
                        proof {
                            assert(self.emitted@ + out@ + self.accum@ + self.unread()
                                =~= self.emitted@ + out@ + self.unread());
                        }
                        self.emitted = Ghost(self.emitted@ + out@);
                        assert(self.emitted@ + self.accum@ + self.unread() == self.input@);
                        return Some(Ok(out));
                    }
                    proof {
                        lemma_prefix_extends(old(self).accum@, acc0, consumed);
                    }
                },
                None => {
                    // No terminator in sight: fold the whole region into
                    // the accumulator and keep reading.
                    let ghost acc0 = self.accum@;
                    append_range(&mut self.accum, &self.pending, self.pos, pending_len);
                    let ghost consumed = self.pending@.subrange(self.pos as int, pending_len as int);
                    proof {
                        assert(consumed + self.pending@.skip(pending_len as int)
                            =~= self.pending@.skip(self.pos as int));
                        assert(self.emitted@ + (acc0 + consumed) + (self.pending@.skip(
                            pending_len as int,
                        ) + self.src.remaining()) =~= self.emitted@ + acc0 + (self.pending@.skip(
                            self.pos as int,
                        ) + self.src.remaining()));
                    }
                    self.pos = pending_len;
                    proof {
                        lemma_prefix_extends(old(self).accum@, acc0, consumed);
                    }
                },
            }
        }
    }
}

/// Law: while the sequence is live, the bytes already emitted, the
/// accumulator and the unread rest partition the input, so what has been
/// emitted concatenates to a prefix of the input. `next` extends that
/// prefix by exactly one chunk per item and completes it at a clean end of
/// the sequence: reassembly is lossless.
pub proof fn lemma_live_engine_partitions_input<R: ByteSource>(c: &LineChunks<R>)
    requires
        c.wf(),
        !c.is_finished(),
    ensures
        c.emitted_bytes() + c.accum_bytes() + c.unread() == c.input_bytes(),
        c.emitted_bytes().is_prefix_of(c.input_bytes()),
{
    assert(c.emitted_bytes() =~= c.input_bytes().subrange(0, c.emitted_bytes().len() as int));
}

/// A prefix of `b` is also a prefix of `b + c`.
proof fn lemma_prefix_extends(a: Seq<u8>, b: Seq<u8>, c: Seq<u8>)
    requires
        a.is_prefix_of(b),
    ensures
        a.is_prefix_of(b + c),
{
    assert(a =~= (b + c).subrange(0, a.len() as int));
}

/// Append `src[from..to]` onto the end of `dst`.
fn append_range(dst: &mut Vec<u8>, src: &Vec<u8>, from: usize, to: usize)
    requires
        from <= to <= src@.len(),
    ensures
        final(dst)@ == old(dst)@ + src@.subrange(from as int, to as int),
{
    let mut i = from;
    while i < to
        invariant
            from <= i <= to <= src@.len(),
            dst@ == old(dst)@ + src@.subrange(from as int, i as int),
        decreases to - i,
    {
        let b: u8 = src[i];
        dst.push(b);
        i = i + 1;
        assert(dst@ =~= old(dst)@ + src@.subrange(from as int, i as int));
    }
}

} // verus!

