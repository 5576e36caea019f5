//! Byte-search primitives: the only place the crate reaches into the
//! `memchr` crate.

use vstd::prelude::*;

verus! {

/// Relies on `memchr::memchr`: index of the first occurrence of `needle` in
/// `hay`, or `None` when `hay` holds no such byte.
#[verifier::external_body]
pub(crate) fn find_first(needle: u8, hay: &[u8]) -> (r: Option<usize>)
    ensures
        match r {
            Some(i) => i < hay@.len() && hay@[i as int] == needle && (forall|j: int|
                0 <= j < i ==> hay@[j] != needle),
            None => forall|j: int| 0 <= j < hay@.len() ==> hay@[j] != needle,
        },
{
    memchr::memchr(needle, hay)
}

/// Relies on `memchr::memrchr`: index of the last occurrence of `needle` in
/// `hay`, or `None` when `hay` holds no such byte.
#[verifier::external_body]
pub(crate) fn find_last(needle: u8, hay: &[u8]) -> (r: Option<usize>)
    ensures
        match r {
            Some(i) => i < hay@.len() && hay@[i as int] == needle && (forall|j: int|
                i < j < hay@.len() ==> hay@[j] != needle),
            None => forall|j: int| 0 <= j < hay@.len() ==> hay@[j] != needle,
        },
{
    memchr::memrchr(needle, hay)
}

} // verus!
