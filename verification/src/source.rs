//! The byte-source capability the chunking engine consumes, and two
//! in-memory implementations of it.

use vstd::prelude::*;

verus! {

/// A failure reported by a byte source. The `code` carries whatever
/// classification the concrete source assigns to the failure.
#[derive(Clone, Copy, Debug, PartialEq, Eq, Structural)]
pub struct ReadError {
    pub code: u32,
}

/// A sequential, non-seekable supply of bytes, consumed exactly once.
///
/// `remaining()` is the ghost view: the bytes the source has yet to hand
/// out. A read returns a prefix of them, in order, empty only once they are
/// exhausted; a source whose `never_fails()` holds reports no failures.
pub trait ByteSource: Sized {
    /// The bytes this source has not yet handed out.
    spec fn remaining(&self) -> Seq<u8>;

    /// Whether this source is known never to report a failure.
    spec fn never_fails(&self) -> bool;

    /// Hand out the next bytes, at most `max` of them. An empty result
    /// means the source is exhausted.
    fn read(&mut self, max: usize) -> (r: Result<Vec<u8>, ReadError>)
        requires
            max >= 1,
        ensures
            final(self).never_fails() == old(self).never_fails(),
            old(self).never_fails() ==> r is Ok,
            match r {
                Ok(v) => v@.len() <= max && v@.len() <= old(self).remaining().len() && v@ == old(
                self,
                ).remaining().take(v@.len() as int)
                    && final(self).remaining() == old(self).remaining().skip(v@.len() as int) && (
                v@.len() == 0 ==> old(self).remaining().len() == 0),
                Err(_) => true,
            },
    ;
}

/// A source that reads from an owned byte vector held in memory.
pub struct SliceSource {
    data: Vec<u8>,
    pos: usize,
}

impl SliceSource {
    /// Wrap an owned byte vector as a source that hands its bytes out
    /// front to back.
    pub fn new(data: Vec<u8>) -> (r: SliceSource)
        ensures
            r.remaining() == data@,
            r.never_fails(),
    {
        SliceSource { data, pos: 0 }
    }
}

impl ByteSource for SliceSource {
    closed spec fn remaining(&self) -> Seq<u8> {
        if self.pos <= self.data@.len() {
            self.data@.skip(self.pos as int)
        } else {
            Seq::empty()
        }
    }

    closed spec fn never_fails(&self) -> bool {
        true
    }

    fn read(&mut self, max: usize) -> (r: Result<Vec<u8>, ReadError>) {
        let ghost before = self.remaining();
        let v = copy_out(&self.data, &mut self.pos, max);
        proof {
            assert(self.remaining() =~= before.skip(v@.len() as int));
        }
        Ok(v)
    }
}

/// A source that hands out an owned byte vector and then, instead of
/// reporting exhaustion, fails every further read.
pub struct FailingSource {
    data: Vec<u8>,
    pos: usize,
    code: u32,
}

impl FailingSource {
    /// A source that yields the bytes of `data` and then fails with
    /// `code`.
    pub fn new(data: Vec<u8>, code: u32) -> (r: FailingSource)
        ensures
            r.remaining() == data@,
    {
        FailingSource { data, pos: 0, code }
    }
}

impl ByteSource for FailingSource {
    closed spec fn remaining(&self) -> Seq<u8> {
        if self.pos <= self.data@.len() {
            self.data@.skip(self.pos as int)
        } else {
            Seq::empty()
        }
    }

    closed spec fn never_fails(&self) -> bool {
        false
    }

    fn read(&mut self, max: usize) -> (r: Result<Vec<u8>, ReadError>) {
        if self.pos >= self.data.len() {
            Err(ReadError { code: self.code })
        } else {
            let ghost before = self.remaining();
            let v = copy_out(&self.data, &mut self.pos, max);
            proof {
                assert(self.remaining() =~= before.skip(v@.len() as int));
            }
            Ok(v)
        }
    }
}

/// Copy out the next `max` (or fewer, at the end) bytes of `data` starting
/// at `*pos`, advancing `*pos` past them.
fn copy_out(data: &Vec<u8>, pos: &mut usize, max: usize) -> (v: Vec<u8>)
    requires
        max >= 1,
    ensures
        *old(pos) <= data@.len() ==> {
            let rest = data@.skip(*old(pos) as int);
            v@.len() <= max && v@.len() <= rest.len() && v@ == rest.take(v@.len() as int)
                && *final(pos) == *old(pos) + v@.len() && (v@.len() == 0 ==> rest.len() == 0) && (
            rest.len() > 0 && max > 0 ==> v@.len() > 0)
        },
        *old(pos) > data@.len() ==> v@.len() == 0 && *final(pos) == *old(pos),
{
    let mut v: Vec<u8> = Vec::new();
    if *pos > data.len() {
        return v;
    }
    let ghost rest = data@.skip(*old(pos) as int);
    while v.len() < max && *pos < data.len()
        invariant
            *old(pos) <= data@.len(),
            *pos <= data@.len(),
            v@.len() <= max,
            *pos == *old(pos) + v@.len(),
            v@ == rest.take(v@.len() as int),
            rest == data@.skip(*old(pos) as int),
        decreases data@.len() - *pos,
    {
        let b = data[*pos];
        v.push(b);
        *pos = *pos + 1;
        assert(v@ == rest.take(v@.len() as int));
    }
    v
}

} // verus!
