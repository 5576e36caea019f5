//! Specification-level model of line structure: where the first terminator
//! of a byte sequence sits, and how a sequence splits into non-empty lines.

use vstd::prelude::*;

verus! {

/// The line terminator byte (`\n`).
pub const NL: u8 = 10;

/// Index of the first line terminator in `s`, or `s.len()` if `s` holds none.
pub open spec fn first_nl(s: Seq<u8>) -> int
    decreases s.len(),
{
    if s.len() == 0 {
        0
    } else if s[0] == NL {
        0
    } else {
        1 + first_nl(s.skip(1))
    }
}

/// `first_nl` points at the first terminator: nothing before it is a
/// terminator, and it is in range exactly when a terminator exists.
pub proof fn lemma_first_nl(s: Seq<u8>)
    ensures
        0 <= first_nl(s) <= s.len(),
        forall|j: int| 0 <= j < first_nl(s) ==> s[j] != NL,
        first_nl(s) < s.len() ==> s[first_nl(s)] == NL,
    decreases s.len(),
{
    if s.len() != 0 && s[0] != NL {
        lemma_first_nl(s.skip(1));
        assert forall|j: int| 0 <= j < first_nl(s) implies s[j] != NL by {
            if j > 0 {
                assert(s.skip(1)[j - 1] != NL);
            }
        }
    }
}

/// Any index with the "first occurrence" shape is `first_nl(s)`.
pub proof fn lemma_first_nl_unique(s: Seq<u8>, i: int)
    requires
        0 <= i <= s.len(),
        forall|j: int| 0 <= j < i ==> s[j] != NL,
        i < s.len() ==> s[i] == NL,
    ensures
        first_nl(s) == i,
    decreases s.len(),
{
    if s.len() != 0 && s[0] != NL {
        assert forall|j: int| 0 <= j < i - 1 implies s.skip(1)[j] != NL by {
            assert(s[j + 1] != NL);
        }
        lemma_first_nl_unique(s.skip(1), i - 1);
    }
}

#[via_fn]
proof fn split_lines_decreases(s: Seq<u8>) {
    lemma_first_nl(s);
}

/// The non-empty lines of `s`: the segments between terminators, the
/// terminators themselves stripped, empty segments dropped. The final
/// segment needs no terminator of its own.
pub open spec fn split_lines(s: Seq<u8>) -> Seq<Seq<u8>>
    decreases s.len(),
    via split_lines_decreases
{
    if s.len() == 0 {
        Seq::empty()
    } else {
        let e = first_nl(s);
        let line = s.take(e);
        let rest = if e < s.len() {
            split_lines(s.skip(e + 1))
        } else {
            Seq::<Seq<u8>>::empty()
        };
        if line.len() == 0 {
            rest
        } else {
            seq![line] + rest
        }
    }
}

/// Law: every line the split produces is non-empty and holds no
/// terminator byte.
pub proof fn lemma_split_lines_clean(s: Seq<u8>)
    ensures
        forall|i: int|
            0 <= i < split_lines(s).len() ==> #[trigger] split_lines(s)[i].len() > 0 && !split_lines(
                s,
            )[i].contains(NL),
    decreases s.len(),
{
    if s.len() != 0 {
        lemma_first_nl(s);
        let e = first_nl(s);
        let line = s.take(e);
        if e < s.len() {
            lemma_split_lines_clean(s.skip(e + 1));
        }
        if line.len() > 0 {
            assert(!line.contains(NL)) by {
                assert(forall|k: int| 0 <= k < line.len() ==> line[k] != NL);
            }
            assert(forall|i: int|
                1 <= i < split_lines(s).len() ==> split_lines(s)[i] == split_lines(
                    if e < s.len() {
                        s.skip(e + 1)
                    } else {
                        Seq::<u8>::empty()
                    },
                )[i - 1]);
        }
    }
}

} // verus!
