//! The cursor itself.
use vstd::prelude::*;
use vstd::std_specs::cmp::PartialEqSpec;

verus! {

/// A lightweight, zero-copy cursor over a slice.
///
/// The cursor position `pos` is not guaranteed to lie within the slice;
/// each operation states in its contract what it does for positions past
/// the end.  A `Tape` is `Copy`, so a snapshot taken before trying a
/// parsing branch restores the position when the branch is abandoned.
#[derive(Debug, Clone, Copy, PartialEq, Eq)]
pub struct Tape<'a, T> {
    /// The slice the tape runs over.  No operation of the tape replaces it.
    pub raw: &'a [T],
    /// The cursor position, which callers may also set directly.
    pub pos: usize,
}

/// A tape dereferences to the slice it runs over, which gives global
/// indexing and iteration.
impl<'a, T> core::ops::Deref for Tape<'a, T> {
    type Target = &'a [T];

    fn deref(&self) -> (r: &&'a [T])
        ensures
            (*r)@ == self.data(),
    {
        &self.raw
    }
}

impl<'a, T> Tape<'a, T> {
    /// The elements the tape runs over.
    pub open spec fn data(self) -> Seq<T> {
        self.raw@
    }

    /// The element at index `i`, or `None` when `i` lies outside the data.
    pub open spec fn elem_at(self, i: int) -> Option<T> {
        if 0 <= i < self.data().len() {
            Some(self.data()[i])
        } else {
            None
        }
    }

    /// The cursor position.
    pub open spec fn cursor(self) -> usize {
        self.pos
    }

    /// The first index a backward search examines: the cursor, or the last
    /// element when the cursor is past the end (-1 for empty data).
    pub open spec fn back_start(self) -> int {
        if self.cursor() < self.data().len() {
            self.cursor() as int
        } else {
            self.data().len() - 1
        }
    }

    /// Whether the cursor stands at or past the end of the data.
    pub open spec fn exhausted(self) -> bool {
        self.cursor() >= self.data().len()
    }

    /// A tape over `raw` whose cursor is at the first element.
    #[inline]
    pub fn new(raw: &'a [T]) -> (t: Self)
        ensures
            t.data() == raw@,
            t.cursor() == 0,
    {
        Self { raw, pos: 0 }
    }

    /// Returns a subslice over the original slice from the current position.
    #[inline]
    pub fn rest(self) -> (r: &'a [T])
        requires
            self.cursor() <= self.data().len(),
        ensures
            r@ == self.data().subrange(self.cursor() as int, self.data().len() as int),
    {
        slice_range(self.raw, self.pos, self.raw.len())
    }

    /// Advances the current position by 1 element.
    #[inline]
    pub fn adv(&mut self)
        requires
            old(self).cursor() < usize::MAX,
        ensures
            final(self).data() == old(self).data(),
            final(self).cursor() == old(self).cursor() + 1,
    {
        self.pos = self.pos + 1;
    }

    /// Decrements the current position by 1 element.
    ///
    /// Decrementing from the first element wraps the cursor to `usize::MAX`,
    /// before the first element, where the tape is exhausted.
    #[inline]
    pub fn dec(&mut self)
        ensures
            final(self).data() == old(self).data(),
            old(self).cursor() > 0 ==> final(self).cursor() == old(self).cursor() - 1,
            old(self).cursor() == 0 ==> final(self).cursor() == usize::MAX,
            old(self).cursor() == 0 ==> final(self).exhausted(),
    {
        let len = self.raw.len();
        if self.pos == 0 {
            self.pos = usize::MAX;
        } else {
            self.pos = self.pos - 1;
        }
        assert(self.data().len() == len);
    }

    /// Returns true if the cursor is past the last element.
    pub fn is_exhausted(&mut self) -> (r: bool)
        ensures
            *final(self) == *old(self),
            r == old(self).exhausted(),
    {
        self.pos >= self.raw.len()
    }
}

impl<'a, T: Copy + PartialEq> Tape<'a, T> {
    /// Returns the **current** element, if it exists, and advances the
    /// current position; the position advances also when the tape is exhausted.
    #[inline]
    pub fn next(&mut self) -> (r: Option<T>)
        requires
            old(self).cursor() < usize::MAX,
        ensures
            r == old(self).elem_at(old(self).cursor() as int),
            final(self).data() == old(self).data(),
            final(self).cursor() == old(self).cursor() + 1,
    {
        let elem = if self.pos < self.raw.len() {
            Some(self.raw[self.pos])
        } else {
            None
        };
        self.pos = self.pos + 1;
        elem
    }

    /// Returns the current element, or `None` if `pos` is out of bounds.
    #[inline]
    pub fn cur(self) -> (r: Option<T>)
        ensures
            r == self.elem_at(self.cursor() as int),
    {
        if self.pos < self.raw.len() {
            Some(self.raw[self.pos])
        } else {
            None
        }
    }

    /// Returns the element at `pos + 1`, or `None` if that position is out of bounds.
    #[inline]
    pub fn peek(self) -> (r: Option<T>)
        ensures
            r == self.elem_at(self.cursor() + 1),
    {
        if self.pos < self.raw.len() && self.pos + 1 < self.raw.len() {
            Some(self.raw[self.pos + 1])
        } else {
            None
        }
    }

    /// Returns the element at `pos - 1`, or `None` if that position is out of bounds.
    #[inline]
    pub fn peek_back(self) -> (r: Option<T>)
        ensures
            r == self.elem_at(self.cursor() - 1),
    {
        if self.pos > 0 && self.pos - 1 < self.raw.len() {
            Some(self.raw[self.pos - 1])
        } else {
            None
        }
    }

    /// Returns the position of the first element in `pos..len` for which
    /// `pred` returns true, or `None`.
    #[inline]
    pub fn poll<F>(self, pred: F) -> (r: Option<usize>)
        where
            F: FnMut(T, usize) -> bool,
        requires
            callable(pred, self.data()),
        ensures
            match r {
                Some(i) => {
                    &&& self.cursor() <= i < self.data().len()
                    &&& accepts(pred, self.data(), i as int)
                    &&& forall|j: int| self.cursor() <= j < i ==> rejects(pred, self.data(), j)
                },
                None => forall|j: int|
                    self.cursor() <= j < self.data().len() ==> rejects(pred, self.data(), j),
            },
    {
        broadcast use vstd::function::group_function_axioms;
        let mut f = pred;
        let len = self.raw.len();
        let mut i = self.pos;
        while i < len
            invariant
                len == self.data().len(),
                self.cursor() <= i,
                f == pred,
                callable(pred, self.data()),
                forall|j: int| self.cursor() <= j < i ==> rejects(pred, self.data(), j),
            decreases len - i,
        {
            if f(self.raw[i], i) {
                return Some(i);
            }
            i = i + 1;
        }
        None
    }

    /// Searches backward from the current position: returns the position
    /// of the last element at or before `pos` for which `pred` returns
    /// true, or `None`.  A cursor past the end searches from the last element.
    #[inline]
    pub fn poll_back<F>(self, pred: F) -> (r: Option<usize>)
        where
            F: FnMut(T, usize) -> bool,
        requires
            callable(pred, self.data()),
        ensures
            match r {
                Some(i) => {
                    &&& i <= self.back_start()
                    &&& accepts(pred, self.data(), i as int)
                    &&& forall|j: int| i < j <= self.back_start() ==> rejects(pred, self.data(), j)
                },
                None => forall|j: int| 0 <= j <= self.back_start() ==> rejects(pred, self.data(), j),
            },
    {
        broadcast use vstd::function::group_function_axioms;
        let mut f = pred;
        let len = self.raw.len();
        let mut i = if self.pos < len {
            self.pos + 1
        } else {
            len
        };
        while i > 0
            invariant
                len == self.data().len(),
                i <= len,
                i <= self.back_start() + 1,
                f == pred,
                callable(pred, self.data()),
                forall|j: int| i <= j <= self.back_start() ==> rejects(pred, self.data(), j),
            decreases i,
        {
            i = i - 1;
            if f(self.raw[i], i) {
                return Some(i);
            }
        }
        None
    }

    /// Advances `pos` while `pred` returns true for the element at the
    /// current position.
    ///
    /// Leaves `pos` at the first element for which `pred` returned false,
    /// or at `raw.len()` when every remaining element satisfied it, and
    /// returns the subslice stepped over.  A cursor already past the end is
    /// left where it is and the returned slice is empty.
    #[inline]
    pub fn consume<F>(&mut self, pred: F) -> (r: &'a [T])
        where
            F: FnMut(T, usize) -> bool,
        requires
            callable(pred, old(self).data()),
        ensures
            final(self).data() == old(self).data(),
            old(self).cursor() > old(self).data().len() ==> {
                &&& r@.len() == 0
                &&& final(self).cursor() == old(self).cursor()
            },
            old(self).cursor() <= old(self).data().len() ==> {
                &&& old(self).cursor() <= final(self).cursor() <= old(self).data().len()
                &&& r@ == old(self).data().subrange(
                    old(self).cursor() as int,
                    final(self).cursor() as int,
                )
                &&& forall|j: int|
                    old(self).cursor() <= j < final(self).cursor() ==> accepts(
                        pred,
                        old(self).data(),
                        j,
                    )
                &&& final(self).cursor() < old(self).data().len() ==> rejects(
                    pred,
                    old(self).data(),
                    final(self).cursor() as int,
                )
            },
    {
        broadcast use vstd::function::group_function_axioms;
        let mut f = pred;
        let len = self.raw.len();
        let start = self.pos;
        if start > len {
            return slice_range(self.raw, 0, 0);
        }
        let mut i = start;
        while i < len
            invariant_except_break
                len == self.data().len(),
                start <= i <= len,
                f == pred,
                callable(pred, self.data()),
                forall|j: int| start <= j < i ==> accepts(pred, self.data(), j),
            ensures
                start <= i <= len,
                forall|j: int| start <= j < i ==> accepts(pred, self.data(), j),
                i < len ==> rejects(pred, self.data(), i as int),
            decreases len - i,
        {
            if !f(self.raw[i], i) {
                break;
            }
            i = i + 1;
        }
        let res = slice_range(self.raw, start, i);
        self.pos = i;
        res
    }

    /// Decrements `pos` while `pred` returns true for the element at the
    /// current position.
    ///
    /// Leaves `pos` at the last element at or before it for which `pred`
    /// returned false, or at `raw.len()` when every element from there
    /// down to the first satisfied it, and returns the subslice stepped
    /// over: the elements after the new position up to and including the
    /// old one.  A cursor past the end starts from the last element.
    #[inline]
    pub fn put_back<F>(&mut self, pred: F) -> (r: &'a [T])
        where
            F: FnMut(T, usize) -> bool,
        requires
            callable(pred, old(self).data()),
        ensures
            final(self).data() == old(self).data(),
            final(self).cursor() < old(self).data().len() ==> {
                &&& final(self).cursor() <= old(self).back_start()
                &&& rejects(pred, old(self).data(), final(self).cursor() as int)
                &&& forall|j: int|
                    final(self).cursor() < j <= old(self).back_start() ==> accepts(
                        pred,
                        old(self).data(),
                        j,
                    )
                &&& r@ == old(self).data().subrange(
                    final(self).cursor() + 1,
                    old(self).back_start() + 1,
                )
            },
            final(self).cursor() >= old(self).data().len() ==> {
                &&& final(self).cursor() == old(self).data().len()
                &&& forall|j: int| 0 <= j <= old(self).back_start() ==> accepts(
                    pred,
                    old(self).data(),
                    j,
                )
                &&& r@ == old(self).data().subrange(0, old(self).back_start() + 1)
            },
    {
        broadcast use vstd::function::group_function_axioms;
        let mut f = pred;
        let len = self.raw.len();
        let top = if self.pos < len {
            self.pos + 1
        } else {
            len
        };
        let mut i = top;
        let mut found = len;
        while i > 0
            invariant_except_break
                len == self.data().len(),
                top == self.back_start() + 1,
                i <= top <= len,
                found == len,
                f == pred,
                callable(pred, self.data()),
                forall|j: int| i <= j < top ==> accepts(pred, self.data(), j),
            ensures
                top == self.back_start() + 1,
                top <= len,
                found < len ==> {
                    &&& found < top
                    &&& rejects(pred, self.data(), found as int)
                    &&& forall|j: int| found < j < top ==> accepts(pred, self.data(), j)
                },
                found >= len ==> {
                    &&& found == len
                    &&& forall|j: int| 0 <= j < top ==> accepts(pred, self.data(), j)
                },
            decreases i,
        {
            i = i - 1;
            if !f(self.raw[i], i) {
                found = i;
                break;
            }
        }
        let res = if found < len {
            slice_range(self.raw, found + 1, top)
        } else {
            slice_range(self.raw, 0, top)
        };
        self.pos = found;
        res
    }

    /// Advances `pos` to the first index in `pos..len` where `pred` is true.
    ///
    /// Returns `true` if found, with `pos` left at the match, or `false`
    /// with `pos` unchanged.
    #[inline]
    pub fn seek<F>(&mut self, pred: F) -> (found: bool)
        where
            F: FnMut(T, usize) -> bool,
        requires
            callable(pred, old(self).data()),
        ensures
            final(self).data() == old(self).data(),
            found ==> {
                &&& old(self).cursor() <= final(self).cursor() < old(self).data().len()
                &&& accepts(pred, old(self).data(), final(self).cursor() as int)
                &&& forall|j: int|
                    old(self).cursor() <= j < final(self).cursor() ==> rejects(
                        pred,
                        old(self).data(),
                        j,
                    )
            },
            !found ==> {
                &&& final(self).cursor() == old(self).cursor()
                &&& forall|j: int|
                    old(self).cursor() <= j < old(self).data().len() ==> rejects(
                        pred,
                        old(self).data(),
                        j,
                    )
            },
    {
        match self.poll(pred) {
            None => false,
            Some(pos) => {
                self.pos = pos;
                true
            },
        }
    }

    /// Decrements `pos` to the last index at or before it where `pred` is
    /// true (searching from the last element when the cursor is past the end).
    ///
    /// Returns `true` if found, with `pos` left at the match, or `false`
    /// with `pos` unchanged.
    #[inline]
    pub fn seek_back<F>(&mut self, pred: F) -> (found: bool)
        where
            F: FnMut(T, usize) -> bool,
        requires
            callable(pred, old(self).data()),
        ensures
            final(self).data() == old(self).data(),
            found ==> {
                &&& final(self).cursor() <= old(self).back_start()
                &&& accepts(pred, old(self).data(), final(self).cursor() as int)
                &&& forall|j: int|
                    final(self).cursor() < j <= old(self).back_start() ==> rejects(
                        pred,
                        old(self).data(),
                        j,
                    )
            },
            !found ==> {
                &&& final(self).cursor() == old(self).cursor()
                &&& forall|j: int| 0 <= j <= old(self).back_start() ==> rejects(
                    pred,
                    old(self).data(),
                    j,
                )
            },
    {
        match self.poll_back(pred) {
            None => false,
            Some(pos) => {
                self.pos = pos;
                true
            },
        }
    }

    /// Returns true if the data from the current position on starts with `query`.
    #[inline]
    pub fn is_at(self, query: &[T]) -> (r: bool)
        requires
            self.cursor() <= self.data().len(),
        ensures
            T::obeys_eq_spec() ==> (r == matches_at(self.data(), self.cursor() as int, query@)),
    {
        let len = self.raw.len();
        let qlen = query.len();
        if qlen > len - self.pos {
            return false;
        }
        let mut k: usize = 0;
        while k < qlen
            invariant
                len == self.data().len(),
                qlen == query@.len(),
                self.cursor() + qlen <= len,
                k <= qlen,
                T::obeys_eq_spec() ==> forall|m: int|
                    0 <= m < k ==> self.data()[self.cursor() + m].eq_spec(&query@[m]),
            decreases qlen - k,
        {
            if !(self.raw[self.pos + k] == query[k]) {
                return false;
            }
            k = k + 1;
        }
        true
    }
}

/// `q` occurs in `data` starting at index `at`.
pub open spec fn matches_at<T: PartialEq>(data: Seq<T>, at: int, q: Seq<T>) -> bool {
    &&& 0 <= at
    &&& at + q.len() <= data.len()
    &&& forall|m: int| 0 <= m < q.len() ==> data[at + m].eq_spec(&q[m])
}

/// `pred` may answer `true` for the element at index `i` of `data`.
pub open spec fn accepts<T, F: FnMut(T, usize) -> bool>(pred: F, data: Seq<T>, i: int) -> bool {
    call_ensures(pred, (data[i], i as usize), true)
}

/// `pred` may answer `false` for the element at index `i` of `data`.
pub open spec fn rejects<T, F: FnMut(T, usize) -> bool>(pred: F, data: Seq<T>, i: int) -> bool {
    call_ensures(pred, (data[i], i as usize), false)
}

/// `pred` may be called on every element of `data` with its index.
///
/// Operations that require only this are proved to call `pred` on
/// elements of the data and their indices alone.
pub open spec fn callable<T, F: FnMut(T, usize) -> bool>(pred: F, data: Seq<T>) -> bool {
    forall|i: int| 0 <= i < data.len() ==> call_requires(pred, (data[i], i as usize))
}

/// The subslice `s[start..end]`.
pub(crate) fn slice_range<'s, T>(s: &'s [T], start: usize, end: usize) -> (r: &'s [T])
    requires
        start <= end <= s@.len(),
    ensures
        r@ == s@.subrange(start as int, end as int),
{
    &s[start..end]
}

} // verus!
