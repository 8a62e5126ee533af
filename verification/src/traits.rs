//! Byte classification and slice helpers.
use vstd::prelude::*;

use crate::tape::{slice_range, Tape};

verus! {

/// A byte that counts as commonly typed whitespace: space, tab, newline
/// or carriage return.
pub open spec fn is_simple_ws_byte(b: u8) -> bool {
    b == 0x20u8 || b == 0x09u8 || b == 0x0Au8 || b == 0x0Du8
}

/// The width of a whitespace byte: a tab counts as four spaces, every
/// other simple whitespace byte as one, and any other byte as zero.
pub open spec fn simple_ws_width(b: u8) -> u8 {
    if b == 0x09u8 {
        4
    } else if is_simple_ws_byte(b) {
        1
    } else {
        0
    }
}

/// Flag bits of a byte class, with the whitespace width stored above them.
#[derive(Copy, Clone)]
struct CharType(u8);

/// The flag bit that marks simple whitespace.
const IS_SIMPLE_WS: u8 = 0b0001;

/// Number of flag bits below the stored width.
const FLAGS_LEN: u32 = 1;

impl CharType {
    #[inline]
    fn bits(self) -> (r: u8)
        ensures
            r == self.0,
    {
        self.0
    }

    /// The class byte that carries these flags and the width `len`.
    #[inline]
    fn with_len(self, len: u8) -> (r: u8)
        requires
            self.0 < 2,
            len < 128,
        ensures
            r & 1 == self.0,
            r >> 1 == len,
    {
        let flags = self.0;
        let r = flags | (len << FLAGS_LEN);
        assert(r & 1 == flags && r >> 1 == len) by (bit_vector)
            requires
                flags < 2,
                len < 128,
                r == flags | (len << 1u32),
        ;
        r
    }
}

/// The class byte of `b`: the whitespace flag in the low bit, the width above it.
fn char_class(b: u8) -> (r: u8)
    ensures
        (r & 1 != 0) == is_simple_ws_byte(b),
        r >> 1 == simple_ws_width(b),
{
    if b == 0x20u8 || b == 0x0Au8 || b == 0x0Du8 {
        CharType(IS_SIMPLE_WS).with_len(1)
    } else if b == 0x09u8 {
        CharType(IS_SIMPLE_WS).with_len(4)
    } else {
        assert(0u8 & 1 == 0 && 0u8 >> 1 == 0) by (bit_vector);
        0
    }
}

/// Whitespace classification of bytes.
pub trait CharExt {
    /// Returns true if this is a whitespace character that is commonly typed.
    /// Includes space, tab, newline, and carriage return.
    fn is_simple_ws(self) -> bool;

    /// Returns the length of the given whitespace character,
    /// where a tab counts as 4 spaces and all other simple whitespace count as 1.
    ///
    /// All other characters return a length of 0.
    fn simple_ws_len(self) -> u8;
}

impl CharExt for u8 {
    #[inline]
    fn is_simple_ws(self) -> (r: bool)
        ensures
            r == is_simple_ws_byte(self),
    {
        (char_class(self) & CharType(IS_SIMPLE_WS).bits()) != 0
    }

    #[inline]
    fn simple_ws_len(self) -> (r: u8)
        ensures
            r == simple_ws_width(self),
    {
        char_class(self) >> FLAGS_LEN
    }
}

/// `s` with its leading whitespace removed.
pub open spec fn trim_front(s: Seq<u8>) -> Seq<u8>
    decreases s.len(),
{
    if s.len() > 0 && is_simple_ws_byte(s[0]) {
        trim_front(s.drop_first())
    } else {
        s
    }
}

/// `s` with its trailing whitespace removed.
pub open spec fn trim_back(s: Seq<u8>) -> Seq<u8>
    decreases s.len(),
{
    if s.len() > 0 && is_simple_ws_byte(s.last()) {
        trim_back(s.drop_last())
    } else {
        s
    }
}

/// `s` with its leading and trailing whitespace removed.
pub open spec fn trimmed(s: Seq<u8>) -> Seq<u8> {
    trim_back(trim_front(s))
}

/// `trim_front` drops exactly the leading whitespace: it is the suffix of
/// `s` from the returned index on.
pub(crate) proof fn lemma_trim_front(s: Seq<u8>) -> (k: int)
    ensures
        0 <= k <= s.len(),
        trim_front(s) == s.subrange(k, s.len() as int),
        forall|j: int| 0 <= j < k ==> is_simple_ws_byte(s[j]),
        k < s.len() ==> !is_simple_ws_byte(s[k]),
    decreases s.len(),
{
    if s.len() > 0 && is_simple_ws_byte(s[0]) {
        let k1 = lemma_trim_front(s.drop_first());
        assert(s.drop_first().subrange(k1, s.len() - 1) =~= s.subrange(k1 + 1, s.len() as int));
        assert forall|j: int| 0 <= j < k1 + 1 implies is_simple_ws_byte(s[j]) by {
            if j > 0 {
                assert(s[j] == s.drop_first()[j - 1]);
            }
        }
        k1 + 1
    } else {
        assert(s.subrange(0, s.len() as int) =~= s);
        0
    }
}

/// `trim_back` drops exactly the trailing whitespace: it is the prefix of
/// `s` up to the returned index.
pub(crate) proof fn lemma_trim_back(s: Seq<u8>) -> (e: int)
    ensures
        0 <= e <= s.len(),
        trim_back(s) == s.subrange(0, e),
        forall|j: int| e <= j < s.len() ==> is_simple_ws_byte(s[j]),
        e > 0 ==> !is_simple_ws_byte(s[e - 1]),
    decreases s.len(),
{
    if s.len() > 0 && is_simple_ws_byte(s.last()) {
        let e1 = lemma_trim_back(s.drop_last());
        assert(s.drop_last().subrange(0, e1) =~= s.subrange(0, e1));
        assert forall|j: int| e1 <= j < s.len() implies is_simple_ws_byte(s[j]) by {
            if j < s.len() - 1 {
                assert(s[j] == s.drop_last()[j]);
            }
        }
        e1
    } else {
        assert(s.subrange(0, s.len() as int) =~= s);
        s.len() as int
    }
}

/// Trimming of slices.
pub trait SliceExt<'a, T> {
    /// Returns a subslice with leading and trailing flanking white space removed.
    fn trim_simple_ws(self) -> Self;
}

impl<'a> SliceExt<'a, u8> for &'a [u8] {
    fn trim_simple_ws(self) -> (r: Self)
        ensures
            r@ == trimmed(self@),
    {
        let ghost s = self@;
        let len = self.len();
        let mut start: usize = 0;
        assert(s.subrange(0, len as int) =~= s);
        while start < len && self[start].is_simple_ws()
            invariant
                s == self@,
                len == s.len(),
                start <= len,
                trim_front(s) == trim_front(s.subrange(start as int, len as int)),
            decreases len - start,
        {
            assert(s.subrange(start as int, len as int).drop_first() =~= s.subrange(
                start + 1,
                len as int,
            ));
            start = start + 1;
        }
        let mut end: usize = len;
        while end > start && self[end - 1].is_simple_ws()
            invariant
                s == self@,
                len == s.len(),
                start <= end <= len,
                trimmed(s) == trim_back(s.subrange(start as int, end as int)),
            decreases end,
        {
            assert(s.subrange(start as int, end as int).drop_last() =~= s.subrange(
                start as int,
                end - 1,
            ));
            end = end - 1;
        }
        slice_range(self, start, end)
    }
}

/// Conversion of a slice into a tape.
pub trait ToTape<'a, T> {
    /// An ergonomic alternative to `Tape::new()`.
    fn to_tape(self) -> Tape<'a, T>;
}

impl<'a, T> ToTape<'a, T> for &'a [T] {
    fn to_tape(self) -> (t: Tape<'a, T>)
        ensures
            t.data() == self@,
            t.cursor() == 0,
    {
        Tape::new(self)
    }
}

} // verus!
