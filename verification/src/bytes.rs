//! Operations of a tape over bytes: clearance, paragraphs and lines.
use vstd::prelude::*;

use crate::tape::{accepts, callable, matches_at, rejects, slice_range, Tape};
use crate::traits::{is_simple_ws_byte, trim_front, CharExt};

verus! {

/// The character before index `p` is whitespace, or there is none.
pub open spec fn left_clear(data: Seq<u8>, p: int) -> bool {
    p == 0 || p - 1 >= data.len() || is_simple_ws_byte(data[p - 1])
}

/// The character after index `p` is whitespace, or there is none.
pub open spec fn right_clear(data: Seq<u8>, p: int) -> bool {
    p + 1 >= data.len() || is_simple_ws_byte(data[p + 1])
}

/// The number of consecutive newlines that end at index `i`, counting no
/// newline before index `start`.
pub open spec fn nl_run(data: Seq<u8>, start: int, i: int) -> nat
    decreases i - start + 1,
{
    if i < start || i >= data.len() || data[i] != 0x0Au8 {
        0
    } else {
        1 + nl_run(data, start, i - 1)
    }
}

/// Index `i` holds the newline that completes a run of `spacing`
/// newlines, which ends a paragraph for a scan that began at `start`.
pub open spec fn pgraph_break(data: Seq<u8>, start: int, spacing: u8, i: int) -> bool {
    &&& start <= i < data.len()
    &&& data[i] == 0x0Au8
    &&& nl_run(data, start, i) >= spacing
}

/// The first paragraph break at or after `k`, or the length of the data.
pub open spec fn pgraph_end_from(data: Seq<u8>, start: int, spacing: u8, k: int) -> int
    decreases data.len() - k,
{
    if k >= data.len() {
        data.len() as int
    } else if pgraph_break(data, start, spacing, k) {
        k
    } else {
        pgraph_end_from(data, start, spacing, k + 1)
    }
}

/// Where the paragraph that a scan begun at `start` runs through ends:
/// the first paragraph break, or the end of the data.
pub open spec fn pgraph_end(data: Seq<u8>, start: int, spacing: u8) -> int {
    pgraph_end_from(data, start, spacing, start)
}

/// The outcome `(found, p)` of a paragraph-bounded forward search from
/// `start` with `pred`: `p` is the first index accepted before the
/// paragraph ends, with every index before it rejected, or nothing was
/// found and `p` is `start`, with every index of the paragraph rejected.
pub open spec fn pgraph_seek_by<F: FnMut(u8, usize) -> bool>(
    data: Seq<u8>,
    start: int,
    spacing: u8,
    pred: F,
    found: bool,
    p: int,
) -> bool {
    &&& found ==> {
        &&& start <= p < pgraph_end(data, start, spacing)
        &&& accepts(pred, data, p)
        &&& forall|j: int| start <= j < p ==> rejects(pred, data, j)
    }
    &&& !found ==> {
        &&& p == start
        &&& forall|j: int| start <= j < pgraph_end(data, start, spacing) ==> rejects(pred, data, j)
    }
}

/// The outcome `(found, p)` of a paragraph-bounded forward search from
/// `start` for the byte `q`: `p` is its first occurrence before the
/// paragraph ends, or nothing was found and `p` is `start`.
pub open spec fn pgraph_seek_byte(
    data: Seq<u8>,
    start: int,
    spacing: u8,
    q: u8,
    found: bool,
    p: int,
) -> bool {
    &&& found ==> {
        &&& start <= p < pgraph_end(data, start, spacing)
        &&& data[p] == q
        &&& forall|j: int| start <= j < p ==> data[j] != q
    }
    &&& !found ==> {
        &&& p == start
        &&& forall|j: int| start <= j < pgraph_end(data, start, spacing) ==> data[j] != q
    }
}

proof fn lemma_pgraph_end_from_bounds(data: Seq<u8>, start: int, spacing: u8, k: int)
    requires
        k <= data.len(),
    ensures
        k <= pgraph_end_from(data, start, spacing, k) <= data.len(),
        forall|j: int|
            k <= j < pgraph_end_from(data, start, spacing, k) ==> !pgraph_break(
                data,
                start,
                spacing,
                j,
            ),
    decreases data.len() - k,
{
    if k < data.len() && !pgraph_break(data, start, spacing, k) {
        lemma_pgraph_end_from_bounds(data, start, spacing, k + 1);
    }
}

/// Where the line holding index `p` begins: just after the last newline
/// before `p`, or at the start of the data.
pub open spec fn line_start(data: Seq<u8>, p: int) -> int
    decreases p,
{
    if p <= 0 {
        0
    } else if data[p - 1] == 0x0Au8 {
        p
    } else {
        line_start(data, p - 1)
    }
}

/// The character at index `p` is a newline, or every character between
/// the start of its line and index `p` is whitespace.
pub open spec fn line_prefix(data: Seq<u8>, p: int) -> bool {
    ||| 0 <= p < data.len() && data[p] == 0x0Au8
    ||| forall|j: int| line_start(data, p) <= j < p ==> is_simple_ws_byte(data[j])
}

/// The number of occurrences of `b` in `s`.
pub open spec fn count_byte(s: Seq<u8>, b: u8) -> nat
    decreases s.len(),
{
    if s.len() == 0 {
        0
    } else {
        count_byte(s.drop_last(), b) + if s.last() == b {
            1nat
        } else {
            0nat
        }
    }
}

/// The characters of the line holding index `p` that come before it.
pub open spec fn line_before(data: Seq<u8>, p: int) -> Seq<u8> {
    data.subrange(line_start(data, p), p)
}

/// The leading whitespace of the line holding index `p`, up to `p`.
pub open spec fn line_indent(data: Seq<u8>, p: int) -> Seq<u8> {
    let line = line_before(data, p);
    line.subrange(0, line.len() - trim_front(line).len())
}

/// Tabs in the leading whitespace of the line holding index `p`.
pub open spec fn line_tabs(data: Seq<u8>, p: int) -> nat {
    count_byte(line_indent(data, p), 0x09u8)
}

/// Spaces in the leading whitespace of the line holding index `p`.
pub open spec fn line_spaces(data: Seq<u8>, p: int) -> nat {
    count_byte(line_indent(data, p), 0x20u8)
}

/// The indentation of the line holding index `p`, counted in its leading
/// whitespace before `p`: one level per tab and one per four spaces.
pub open spec fn indent_level(data: Seq<u8>, p: int) -> nat {
    line_tabs(data, p) + line_spaces(data, p) / 4
}

proof fn lemma_line_start_bounds(data: Seq<u8>, p: int)
    requires
        0 <= p,
    ensures
        0 <= line_start(data, p) <= p,
    decreases p,
{
    if p > 0 && data[p - 1] != 0x0Au8 {
        lemma_line_start_bounds(data, p - 1);
    }
}

/// The paragraph that a scan begun at `start` runs through ends within
/// the data, and no paragraph break lies before its end.
pub(crate) proof fn lemma_pgraph_end_bounds(data: Seq<u8>, start: int, spacing: u8)
    requires
        0 <= start <= data.len(),
    ensures
        start <= pgraph_end(data, start, spacing) <= data.len(),
{
    lemma_pgraph_end_from_bounds(data, start, spacing, start);
}

impl<'a> Tape<'a, u8> {
    /// Returns true if the character at the given position has clearance on its left side.
    #[inline]
    pub fn is_left_clear(self, pos: usize) -> (r: bool)
        ensures
            r == left_clear(self.data(), pos as int),
    {
        pos == 0 || pos - 1 >= self.raw.len() || self.raw[pos - 1].is_simple_ws()
    }

    /// Returns true if the character at the given position has clearance on its right side.
    #[inline]
    pub fn is_right_clear(self, pos: usize) -> (r: bool)
        requires
            pos < usize::MAX,
        ensures
            r == right_clear(self.data(), pos as int),
    {
        pos + 1 >= self.raw.len() || self.raw[pos + 1].is_simple_ws()
    }

    /// Returns true if the character cluster from `start` to the current
    /// position has clearance on either side: on the left of `start` or on
    /// the right of the current position.
    #[inline]
    pub fn is_any_clear(self, start: usize) -> (r: bool)
        requires
            self.cursor() < usize::MAX,
        ensures
            r == (left_clear(self.data(), start as int) || right_clear(
                self.data(),
                self.cursor() as int,
            )),
    {
        self.is_left_clear(start) || self.is_right_clear(self.pos)
    }

    /// Returns the position of the first character in `pos..len` for which
    /// `pred` returns true, provided it comes before the end of the current
    /// paragraph, or `None`.
    ///
    /// The paragraph ends at the newline that completes a run of `spacing`
    /// consecutive newlines.
    #[inline]
    pub fn poll_in_pgraph<F>(self, spacing: u8, pred: F) -> (r: Option<usize>)
        where
            F: FnMut(u8, usize) -> bool,
        requires
            callable(pred, self.data()),
        ensures
            match r {
                Some(i) => {
                    &&& self.cursor() <= i < pgraph_end(self.data(), self.cursor() as int, spacing)
                    &&& accepts(pred, self.data(), i as int)
                    &&& forall|j: int| self.cursor() <= j < i ==> rejects(pred, self.data(), j)
                },
                None => forall|j: int|
                    self.cursor() <= j < pgraph_end(self.data(), self.cursor() as int, spacing)
                        ==> rejects(pred, self.data(), j),
            },
    {
        broadcast use vstd::function::group_function_axioms;
        let ghost data = self.data();
        let ghost start = self.cursor() as int;
        assert(data == self.raw@ && start == self.pos);
        let mut f = pred;
        let len = self.raw.len();
        let mut nl_count: u8 = 0;
        let mut i = self.pos;
        while i < len
            invariant
                len == data.len(),
                data == self.raw@,
                start == self.pos,
                start <= i,
                f == pred,
                callable(pred, self.data()),
                pgraph_end(data, start, spacing) == pgraph_end_from(data, start, spacing, i as int),
                nl_count == nl_run(data, start, i - 1),
                nl_count == 0 || nl_count < spacing,
                forall|j: int| start <= j < i ==> rejects(pred, data, j),
            decreases len - i,
        {
            let c = self.raw[i];
            if c == 0x0Au8 {
                nl_count = nl_count + 1;
                if nl_count >= spacing {
                    assert(pgraph_break(data, start, spacing, i as int));
                    return None;
                }
            } else {
                nl_count = 0;
            }
            assert(!pgraph_break(data, start, spacing, i as int));
            if f(c, i) {
                proof {
                    lemma_pgraph_end_from_bounds(data, start, spacing, i + 1);
                    assert(pgraph_end_from(data, start, spacing, i as int) == pgraph_end_from(
                        data,
                        start,
                        spacing,
                        i + 1,
                    ));
                    assert(i < pgraph_end(self.data(), self.cursor() as int, spacing));
                }
                return Some(i);
            }
            i = i + 1;
        }
        None
    }


    /// Where the line holding index `pos` begins.
    fn line_start_of(self, pos: usize) -> (r: usize)
        requires
            pos <= self.data().len(),
        ensures
            r == line_start(self.data(), pos as int),
    {
        let mut i = pos;
        while i > 0
            invariant
                i <= pos <= self.data().len(),
                line_start(self.data(), pos as int) == line_start(self.data(), i as int),
            decreases i,
        {
            if self.raw[i - 1] == 0x0Au8 {
                return i;
            }
            i = i - 1;
        }
        0
    }

    /// Returns true if the current character belongs to a line prefix.
    ///
    /// A character is part of a line prefix if there are no non-whitespace characters between
    /// the current character and the previous newline, the beginning of the input, or
    /// itself if it is a newline.
    #[inline]
    pub fn is_cur_prefix(self) -> (r: bool)
        requires
            self.cursor() <= self.data().len(),
        ensures
            r == line_prefix(self.data(), self.cursor() as int),
    {
        self.is_prefix(self.pos)
    }

    /// Returns true if there are no non-whitespace characters between
    /// the given character and the previous newline, the beginning of the input, or
    /// itself if it is a newline.
    #[inline]
    pub fn is_prefix(self, pos: usize) -> (r: bool)
        requires
            pos <= self.data().len(),
        ensures
            r == line_prefix(self.data(), pos as int),
    {
        let ghost data = self.data();
        if pos < self.raw.len() && self.raw[pos] == 0x0Au8 {
            return true;
        }
        let mut i = pos;
        while i > 0
            invariant
                data == self.data(),
                !(pos < data.len() && data[pos as int] == 0x0Au8),
                i <= pos <= data.len(),
                line_start(data, pos as int) == line_start(data, i as int),
                forall|j: int| i <= j < pos ==> is_simple_ws_byte(data[j]),
            decreases i,
        {
            let c = self.raw[i - 1];
            if c == 0x0Au8 {
                return true;
            }
            if !c.is_simple_ws() {
                proof {
                    lemma_line_start_bounds(data, i - 1);
                }
                assert(!is_simple_ws_byte(data[i - 1]));
                return false;
            }
            i = i - 1;
        }
        true
    }

    /// Returns the number of times the current line is indented: in the
    /// whitespace that begins the line (up to the current position), one
    /// level per tab plus one per four spaces (floored).
    ///
    /// Used to determine separation between table cells and indentation of list items.
    #[inline]
    pub fn count_indent(self) -> (r: u8)
        requires
            self.cursor() <= self.data().len(),
            line_tabs(self.data(), self.cursor() as int) <= 255,
            line_spaces(self.data(), self.cursor() as int) <= 255,
            indent_level(self.data(), self.cursor() as int) <= 255,
        ensures
            r == indent_level(self.data(), self.cursor() as int),
    {
        let ghost data = self.data();
        let pos = self.pos;
        let start = self.line_start_of(pos);
        proof {
            lemma_line_start_bounds(data, pos as int);
        }
        let mut tabs: usize = 0;
        let mut spaces: usize = 0;
        let mut k = start;
        assert(data.subrange(start as int, pos as int) == line_before(data, pos as int));
        while k < pos && self.raw[k].is_simple_ws()
            invariant
                data == self.data(),
                start <= k <= pos <= data.len(),
                start == line_start(data, pos as int),
                trim_front(line_before(data, pos as int)) == trim_front(
                    data.subrange(k as int, pos as int),
                ),
                tabs == count_byte(data.subrange(start as int, k as int), 0x09u8),
                spaces == count_byte(data.subrange(start as int, k as int), 0x20u8),
                tabs <= k - start,
                spaces <= k - start,
            decreases pos - k,
        {
            assert(data.subrange(start as int, k + 1).drop_last() =~= data.subrange(
                start as int,
                k as int,
            ));
            assert(data.subrange(k as int, pos as int).drop_first() =~= data.subrange(
                k + 1,
                pos as int,
            ));
            let c = self.raw[k];
            if c == 0x09u8 {
                tabs = tabs + 1;
            } else if c == 0x20u8 {
                spaces = spaces + 1;
            }
            k = k + 1;
        }
        assert(trim_front(data.subrange(k as int, pos as int)) == data.subrange(k as int, pos as int));
        assert(line_indent(data, pos as int) =~= data.subrange(start as int, k as int));
        (tabs + spaces / 4) as u8
    }

    /// Advances `pos` while `pred` returns true for the character at the
    /// current position, within the current paragraph.
    ///
    /// Leaves `pos` at the first character for which `pred` returned false,
    /// or at `raw.len()` when every character up to the end of the data
    /// satisfied it, and returns the subslice stepped over.  When the
    /// paragraph ends before any character fails `pred`, `pos` is left
    /// where it was and the returned slice is empty; so it is for a cursor
    /// already past the end.
    #[inline]
    pub fn consume_in_pgraph<F>(&mut self, spacing: u8, pred: F) -> (r: &'a [u8])
        where
            F: FnMut(u8, usize) -> bool,
        requires
            callable(pred, old(self).data()),
        ensures
            final(self).data() == old(self).data(),
            old(self).cursor() > old(self).data().len() ==> {
                &&& r@.len() == 0
                &&& final(self).cursor() == old(self).cursor()
            },
            old(self).cursor() <= old(self).data().len() ==> {
                let data = old(self).data();
                let start = old(self).cursor() as int;
                let end = pgraph_end(data, start, spacing);
                ||| {
                    &&& start <= final(self).cursor() < end
                    &&& r@ == data.subrange(start, final(self).cursor() as int)
                    &&& forall|j: int| start <= j < final(self).cursor() ==> accepts(pred, data, j)
                    &&& rejects(pred, data, final(self).cursor() as int)
                }
                ||| {
                    &&& end < data.len()
                    &&& forall|j: int| start <= j < end ==> accepts(pred, data, j)
                    &&& final(self).cursor() == start
                    &&& r@.len() == 0
                }
                ||| {
                    &&& end == data.len()
                    &&& forall|j: int| start <= j < end ==> accepts(pred, data, j)
                    &&& final(self).cursor() == data.len()
                    &&& r@ == data.subrange(start, data.len() as int)
                }
            },
    {
        broadcast use vstd::function::group_function_axioms;
        let ghost data = self.data();
        let ghost start = self.cursor() as int;
        let mut f = pred;
        let len = self.raw.len();
        let begin = self.pos;
        if begin > len {
            return slice_range(self.raw, 0, 0);
        }
        proof {
            lemma_pgraph_end_from_bounds(data, start, spacing, start);
        }
        let mut nl_count: u8 = 0;
        let mut at_break = false;
        let mut i = begin;
        while i < len
            invariant_except_break
                len == data.len(),
                data == self.raw@,
                start == begin,
                begin <= i <= len,
                !at_break,
                f == pred,
                callable(pred, self.data()),
                pgraph_end(data, start, spacing) == pgraph_end_from(data, start, spacing, i as int),
                nl_count == nl_run(data, start, i - 1),
                nl_count == 0 || nl_count < spacing,
                forall|j: int| start <= j < i ==> accepts(pred, data, j),
            ensures
                data == self.raw@,
                begin <= i <= pgraph_end(data, start, spacing) <= len,
                forall|j: int| start <= j < i ==> accepts(pred, data, j),
                at_break ==> i == pgraph_end(data, start, spacing) && i < len,
                !at_break ==> (i < pgraph_end(data, start, spacing) ==> rejects(
                    pred,
                    data,
                    i as int,
                )),
                !at_break && i >= pgraph_end(data, start, spacing) ==> i == len,
            decreases len - i,
        {
            proof {
                lemma_pgraph_end_from_bounds(data, start, spacing, i as int);
            }
            let c = self.raw[i];
            if c == 0x0Au8 {
                nl_count = nl_count + 1;
                if nl_count >= spacing {
                    assert(pgraph_break(data, start, spacing, i as int));
                    at_break = true;
                    break;
                }
            } else {
                nl_count = 0;
            }
            assert(!pgraph_break(data, start, spacing, i as int));
            assert(pgraph_end_from(data, start, spacing, i as int) == pgraph_end_from(
                data,
                start,
                spacing,
                i + 1,
            ));
            if !f(c, i) {
                proof {
                    lemma_pgraph_end_from_bounds(data, start, spacing, i + 1);
                }
                break;
            }
            i = i + 1;
        }
        if at_break {
            return slice_range(self.raw, begin, begin);
        }
        let res = slice_range(self.raw, begin, i);
        self.pos = i;
        res
    }

    /// Advances `pos` to the first index in `pos..len` where `pred` is true,
    /// provided it comes before the end of the current paragraph.
    ///
    /// Returns `true` if found, with `pos` left at the match, or `false`
    /// with `pos` unchanged.
    #[inline]
    pub fn seek_in_pgraph<F>(&mut self, spacing: u8, pred: F) -> (found: bool)
        where
            F: FnMut(u8, usize) -> bool,
        requires
            callable(pred, old(self).data()),
        ensures
            final(self).data() == old(self).data(),
            pgraph_seek_by(
                old(self).data(),
                old(self).cursor() as int,
                spacing,
                pred,
                found,
                final(self).cursor() as int,
            ),
    {
        match self.poll_in_pgraph(spacing, pred) {
            None => false,
            Some(pos) => {
                self.pos = pos;
                true
            },
        }
    }

    /// Advances `pos` to the first occurrence of the byte `query` within the
    /// current paragraph.
    ///
    /// Returns `true` if found, with `pos` left at the match, or `false`
    /// with `pos` unchanged.
    #[inline]
    pub fn seek_ch_in_pgraph(&mut self, spacing: u8, query: u8) -> (found: bool)
        ensures
            final(self).data() == old(self).data(),
            pgraph_seek_byte(
                old(self).data(),
                old(self).cursor() as int,
                spacing,
                query,
                found,
                final(self).cursor() as int,
            ),
    {
        let is_query = move |c: u8, _i: usize| -> (b: bool)
            ensures
                b == (c == query),
            { c == query };
        let found = self.seek_in_pgraph(spacing, is_query);
        proof {
            let data = old(self).data();
            let start = old(self).cursor() as int;
            if start <= data.len() {
                lemma_pgraph_end_from_bounds(data, start, spacing, start);
            }
            if found {
                assert(accepts(is_query, data, self.cursor() as int));
                assert forall|j: int| start <= j < self.cursor() implies data[j] != query by {
                    assert(rejects(is_query, data, j));
                }
            } else {
                assert forall|j: int| start <= j < pgraph_end(data, start, spacing) implies data[j]
                    != query by {
                    assert(rejects(is_query, data, j));
                }
            }
        }
        found
    }

    /// Advances `pos` to the first occurrence of `query` that starts within
    /// the current paragraph.
    ///
    /// Returns `true` if found, with `pos` left at the match, or `false`
    /// with `pos` unchanged.
    #[inline]
    pub fn seek_at_in_pgraph(&mut self, spacing: u8, query: &'a [u8]) -> (found: bool)
        ensures
            final(self).data() == old(self).data(),
            found ==> {
                &&& old(self).cursor() <= final(self).cursor() < pgraph_end(
                    old(self).data(),
                    old(self).cursor() as int,
                    spacing,
                )
                &&& matches_at(old(self).data(), final(self).cursor() as int, query@)
                &&& forall|j: int|
                    old(self).cursor() <= j < final(self).cursor() ==> !matches_at(
                        old(self).data(),
                        j,
                        query@,
                    )
            },
            !found ==> {
                &&& final(self).cursor() == old(self).cursor()
                &&& forall|j: int|
                    old(self).cursor() <= j < pgraph_end(
                        old(self).data(),
                        old(self).cursor() as int,
                        spacing,
                    ) ==> !matches_at(old(self).data(), j, query@)
            },
    {
        let raw = self.raw;
        let len = raw.len();
        let starts_here = move |_c: u8, i: usize| -> (b: bool)
            ensures
                b == matches_at(raw@, i as int, query@),
            { i <= raw.len() && (Tape { raw, pos: i }).is_at(query) };
        let found = self.seek_in_pgraph(spacing, starts_here);
        proof {
            let data = old(self).data();
            let start = old(self).cursor() as int;
            if start <= data.len() {
                lemma_pgraph_end_from_bounds(data, start, spacing, start);
            }
            if found {
                assert(accepts(starts_here, data, self.cursor() as int));
                assert forall|j: int| start <= j < self.cursor() implies !matches_at(
                    data,
                    j,
                    query@,
                ) by {
                    assert(rejects(starts_here, data, j));
                }
            } else {
                assert forall|j: int| start <= j < pgraph_end(data, start, spacing) implies !matches_at(
                    data,
                    j,
                    query@,
                ) by {
                    assert(raw@ == data && data.len() == len);
                    assert(rejects(starts_here, data, j));
                }
            }
        }
        found
    }
}

} // verus!
