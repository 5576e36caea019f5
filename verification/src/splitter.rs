//! Splitting one already-emitted chunk into its non-empty lines through a
//! caller-supplied per-line transform.

use vstd::prelude::*;
use vstd::slice::slice_subrange;

use crate::lines::NL;
use crate::lines::first_nl;
use crate::lines::lemma_first_nl_unique;
use crate::lines::split_lines;
use crate::search::find_first;

verus! {

/// Splits one owned chunk into individual lines and applies a transform to
/// each. Empty segments — blank lines, and the empty tail after a chunk's
/// trailing terminator — are skipped without producing an item.
pub struct LineSplitParse<F> {
    buf: Vec<u8>,
    lim: usize,
    parser: F,
}

impl<F> LineSplitParse<F> {
    /// The cursor never runs past the chunk's end.
    pub closed spec fn wf(&self) -> bool {
        self.lim <= self.buf@.len()
    }

    /// The chunk bytes the cursor has not yet scanned.
    pub closed spec fn rest(&self) -> Seq<u8> {
        self.buf@.skip(self.lim as int)
    }

    /// The non-empty lines not yet yielded, terminators stripped.
    pub open spec fn lines(&self) -> Seq<Seq<u8>> {
        split_lines(self.rest())
    }

    /// The transform the lines are fed through.
    pub closed spec fn transform(&self) -> F {
        self.parser
    }

    /// Take ownership of one chunk, to be split into lines and fed through
    /// `parser` one line at a time.
    pub fn new(buf: Vec<u8>, parser: F) -> (r: LineSplitParse<F>)
        ensures
            r.wf(),
            r.rest() == buf@,
            r.lines() == split_lines(buf@),
            r.transform() == parser,
    {
        let r = LineSplitParse { buf, parser, lim: 0 };
        proof {
            assert(r.rest() =~= r.buf@);
        }
        r
    }
}

impl<F, T> LineSplitParse<F> where F: Fn(&[u8]) -> T {
    /// Yield the transform's result on the next non-empty line, or `None`
    /// once no non-empty line is left.
    #[verifier::loop_isolation(false)]
    pub fn next(&mut self) -> (r: Option<T>)
        requires
            old(self).wf(),
            forall|s: &[u8]| old(self).lines().contains(s@) ==> call_requires(
                old(self).transform(),
                (s,),
            ),
        ensures
            final(self).wf(),
            final(self).transform() == old(self).transform(),
            match r {
                None => {
                    &&& old(self).lines().len() == 0
                    &&& final(self).lines().len() == 0
                    &&& final(self).rest().len() == 0
                },
                Some(t) => {
                    &&& old(self).lines().len() > 0
                    &&& final(self).lines() == old(self).lines().skip(1)
                    &&& exists|s: &[u8]|
                        s@ == old(self).lines()[0] && call_ensures(old(self).transform(), (s,), t)
                },
            },
    {
        loop
            invariant
                self.lim <= self.buf@.len(),
                self.buf@ == old(self).buf@,
                self.parser == old(self).parser,
                split_lines(self.rest()) == split_lines(old(self).rest()),
            decreases self.buf@.len() - self.lim,
        {
            if self.lim == self.buf.len() {
                return None;
            }
            let buf_len = self.buf.len();
            let region = slice_subrange(self.buf.as_slice(), self.lim, buf_len);
            let ghost rest0 = self.rest();
            proof {
                assert(region@ =~= rest0);
            }
            let (eol, new_lim) = match find_first(NL, region) {
                Some(i) => {
                    proof {
                        lemma_first_nl_unique(rest0, i as int);
                    }
                    (self.lim + i, self.lim + i + 1)
                },
                None => {
                    proof {
                        lemma_first_nl_unique(rest0, rest0.len() as int);
                    }
                    (buf_len, buf_len)
                },
            };
            assert(first_nl(rest0) == eol - self.lim);
            if eol == self.lim {
                // A terminator sits right at the cursor: an empty segment,
                // skipped without an item.
                self.lim = new_lim;
                proof {
                    assert(self.rest() =~= rest0.skip(1));
                }
                continue;
            }
            let line = slice_subrange(self.buf.as_slice(), self.lim, eol);
            proof {
                assert(line@ =~= rest0.take(first_nl(rest0)));
                assert(split_lines(rest0) == seq![line@] + (if first_nl(rest0) < rest0.len() {
                    split_lines(rest0.skip(first_nl(rest0) + 1))
                } else {
                    Seq::<Seq<u8>>::empty()
                }));
                assert(split_lines(rest0)[0] == line@);
                assert(old(self).lines().contains(line@));
            }
            let t = (self.parser)(line);
            self.lim = new_lim;
            proof {
                if first_nl(rest0) < rest0.len() {
                    assert(self.rest() =~= rest0.skip(first_nl(rest0) + 1));
                } else {
                    assert(self.rest() =~= rest0.skip(first_nl(rest0)));
                    assert(self.rest().len() == 0);
                }
                assert(split_lines(self.rest()) =~= split_lines(old(self).rest()).skip(1));
            }
            return Some(t);
        }
    }
}

} // verus!

