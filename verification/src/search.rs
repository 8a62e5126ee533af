//! Fast byte and substring search on a tape, through the `memchr` crate.
use vstd::prelude::*;

use crate::tape::{matches_at, slice_range, Tape};

verus! {

/// `needle` occurs in `haystack` starting at index `i`.
pub open spec fn occurs_at(haystack: Seq<u8>, i: int, needle: Seq<u8>) -> bool {
    &&& 0 <= i
    &&& i + needle.len() <= haystack.len()
    &&& haystack.subrange(i, i + needle.len()) == needle
}

/// Calls `memchr::memchr`, which returns the index of the first
/// occurrence of `needle` in `haystack`, or `None` when there is none.
#[verifier::external_body]
fn find_byte(needle: u8, haystack: &[u8]) -> (r: Option<usize>)
    ensures
        match r {
            Some(i) => {
                &&& i < haystack@.len()
                &&& haystack@[i as int] == needle
                &&& forall|j: int| 0 <= j < i ==> haystack@[j] != needle
            },
            None => forall|j: int| 0 <= j < haystack@.len() ==> haystack@[j] != needle,
        },
{
    memchr::memchr(needle, haystack)
}

/// Calls `memchr::memmem::find`, which returns the index of the first
/// occurrence of `needle` in `haystack` (0 for an empty needle), or `None`
/// when there is none.
#[verifier::external_body]
fn find_substring(haystack: &[u8], needle: &[u8]) -> (r: Option<usize>)
    ensures
        match r {
            Some(i) => {
                &&& occurs_at(haystack@, i as int, needle@)
                &&& forall|j: int| 0 <= j < i ==> !occurs_at(haystack@, j, needle@)
            },
            None => forall|j: int| 0 <= j ==> !occurs_at(haystack@, j, needle@),
        },
{
    memchr::memmem::find(haystack, needle)
}

/// For bytes, occurring at an index is matching there.
pub(crate) proof fn lemma_occurs_is_match(data: Seq<u8>, i: int, q: Seq<u8>)
    ensures
        occurs_at(data, i, q) == matches_at(data, i, q),
{
    if 0 <= i && i + q.len() <= data.len() {
        if occurs_at(data, i, q) {
            assert forall|m: int| 0 <= m < q.len() implies data[i + m] == q[m] by {
                assert(data.subrange(i, i + q.len())[m] == data[i + m]);
            }
        }
        if matches_at(data, i, q) {
            assert(data.subrange(i, i + q.len()) =~= q);
        }
    }
}

/// An occurrence in the data from `start` on is an occurrence in the whole
/// data, shifted by `start`.
proof fn lemma_shifted_occurrence(data: Seq<u8>, start: int, i: int, q: Seq<u8>)
    requires
        0 <= start <= data.len(),
        0 <= i,
    ensures
        occurs_at(data.subrange(start, data.len() as int), i, q) == occurs_at(data, start + i, q),
{
    let rest = data.subrange(start, data.len() as int);
    if i + q.len() <= rest.len() {
        assert(rest.subrange(i, i + q.len()) =~= data.subrange(start + i, start + i + q.len()));
    }
}

impl<'a> Tape<'a, u8> {
    /// Advances `pos` to the first occurrence of the byte `query` at or
    /// after it.
    ///
    /// Returns `true` if found, with `pos` left at the match, or `false`
    /// with `pos` unchanged.
    #[inline]
    pub fn seek_ch(&mut self, query: u8) -> (found: bool)
        requires
            old(self).cursor() <= old(self).data().len(),
        ensures
            final(self).data() == old(self).data(),
            found ==> {
                &&& old(self).cursor() <= final(self).cursor() < old(self).data().len()
                &&& final(self).elem_at(final(self).cursor() as int) == Some(query)
                &&& forall|j: int|
                    old(self).cursor() <= j < final(self).cursor() ==> old(self).data()[j]
                        != query
            },
            !found ==> {
                &&& final(self).cursor() == old(self).cursor()
                &&& forall|j: int|
                    old(self).cursor() <= j < old(self).data().len() ==> old(self).data()[j]
                        != query
            },
    {
        let rest = slice_range(self.raw, self.pos, self.raw.len());
        if let Some(offset) = find_byte(query, rest) {
            self.pos = self.pos + offset;
            proof {
                assert(rest@[offset as int] == old(self).data()[self.pos as int]);
                assert forall|j: int| old(self).cursor() <= j < self.cursor() implies old(
                    self,
                ).data()[j] != query by {
                    assert(rest@[j - old(self).cursor()] == old(self).data()[j]);
                }
            }
            return true;
        }
        proof {
            assert forall|j: int| old(self).cursor() <= j < old(self).data().len() implies old(
                self,
            ).data()[j] != query by {
                assert(rest@[j - old(self).cursor()] == old(self).data()[j]);
            }
        }
        false
    }

    /// Advances `pos` to the first occurrence of the two-byte string
    /// `[ch0, ch1]` at or after it.
    ///
    /// Returns `true` if found, with `pos` left at the match, or `false`
    /// with `pos` unchanged.
    #[inline]
    pub fn seek_ch2(&mut self, ch0: u8, ch1: u8) -> (found: bool)
        requires
            old(self).cursor() <= old(self).data().len(),
        ensures
            final(self).data() == old(self).data(),
            found ==> {
                &&& old(self).cursor() <= final(self).cursor()
                &&& matches_at(old(self).data(), final(self).cursor() as int, seq![ch0, ch1])
                &&& forall|j: int|
                    old(self).cursor() <= j < final(self).cursor() ==> !matches_at(
                        old(self).data(),
                        j,
                        seq![ch0, ch1],
                    )
            },
            !found ==> {
                &&& final(self).cursor() == old(self).cursor()
                &&& forall|j: int|
                    old(self).cursor() <= j ==> !matches_at(old(self).data(), j, seq![ch0, ch1])
            },
    {
        let query: [u8; 2] = [ch0, ch1];
        assert(query@ =~= seq![ch0, ch1]);
        self.seek_bytes(query.as_slice())
    }

    /// Advances `pos` to the first occurrence of the three-byte string
    /// `[ch0, ch1, ch2]` at or after it.
    ///
    /// Returns `true` if found, with `pos` left at the match, or `false`
    /// with `pos` unchanged.
    #[inline]
    pub fn seek_ch3(&mut self, ch0: u8, ch1: u8, ch2: u8) -> (found: bool)
        requires
            old(self).cursor() <= old(self).data().len(),
        ensures
            final(self).data() == old(self).data(),
            found ==> {
                &&& old(self).cursor() <= final(self).cursor()
                &&& matches_at(
                    old(self).data(),
                    final(self).cursor() as int,
                    seq![ch0, ch1, ch2],
                )
                &&& forall|j: int|
                    old(self).cursor() <= j < final(self).cursor() ==> !matches_at(
                        old(self).data(),
                        j,
                        seq![ch0, ch1, ch2],
                    )
            },
            !found ==> {
                &&& final(self).cursor() == old(self).cursor()
                &&& forall|j: int|
                    old(self).cursor() <= j ==> !matches_at(
                        old(self).data(),
                        j,
                        seq![ch0, ch1, ch2],
                    )
            },
    {
        let query: [u8; 3] = [ch0, ch1, ch2];
        assert(query@ =~= seq![ch0, ch1, ch2]);
        self.seek_bytes(query.as_slice())
    }

    /// Advances `pos` to the first occurrence of `query` at or after it.
    ///
    /// Returns `true` if found, with `pos` left at the match (where `is_at`
    /// then holds for `query`), or `false` with `pos` unchanged.
    #[inline]
    pub fn seek_at(&mut self, query: &'a [u8]) -> (found: bool)
        requires
            old(self).cursor() <= old(self).data().len(),
        ensures
            final(self).data() == old(self).data(),
            found ==> {
                &&& old(self).cursor() <= final(self).cursor()
                &&& matches_at(old(self).data(), final(self).cursor() as int, query@)
                &&& forall|j: int|
                    old(self).cursor() <= j < final(self).cursor() ==> !matches_at(
                        old(self).data(),
                        j,
                        query@,
                    )
            },
            !found ==> {
                &&& final(self).cursor() == old(self).cursor()
                &&& forall|j: int|
                    old(self).cursor() <= j ==> !matches_at(old(self).data(), j, query@)
            },
    {
        self.seek_bytes(query)
    }

    /// Advances `pos` to the first occurrence of `query` at or after it.
    fn seek_bytes(&mut self, query: &[u8]) -> (found: bool)
        requires
            old(self).cursor() <= old(self).data().len(),
        ensures
            final(self).data() == old(self).data(),
            found ==> {
                &&& old(self).cursor() <= final(self).cursor()
                &&& matches_at(old(self).data(), final(self).cursor() as int, query@)
                &&& forall|j: int|
                    old(self).cursor() <= j < final(self).cursor() ==> !matches_at(
                        old(self).data(),
                        j,
                        query@,
                    )
            },
            !found ==> {
                &&& final(self).cursor() == old(self).cursor()
                &&& forall|j: int|
                    old(self).cursor() <= j ==> !matches_at(old(self).data(), j, query@)
            },
    {
        let ghost data = old(self).data();
        let ghost start = old(self).cursor() as int;
        let rest = slice_range(self.raw, self.pos, self.raw.len());
        if let Some(offset) = find_substring(rest, query) {
            self.pos = self.pos + offset;
            proof {
                lemma_shifted_occurrence(data, start, offset as int, query@);
                lemma_occurs_is_match(data, self.cursor() as int, query@);
                assert forall|j: int| start <= j < self.cursor() implies !matches_at(
                    data,
                    j,
                    query@,
                ) by {
                    lemma_shifted_occurrence(data, start, j - start, query@);
                    lemma_occurs_is_match(data, j, query@);
                }
            }
            return true;
        }
        proof {
            assert forall|j: int| start <= j implies !matches_at(data, j, query@) by {
                lemma_shifted_occurrence(data, start, j - start, query@);
                lemma_occurs_is_match(data, j, query@);
            }
        }
        false
    }
}

} // verus!
