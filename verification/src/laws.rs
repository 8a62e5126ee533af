//! Properties that relate several operations of the library.
use vstd::prelude::*;

use crate::bytes::{
    count_byte, indent_level, left_clear, line_indent, line_prefix, line_start, right_clear,
    lemma_pgraph_end_bounds, nl_run, pgraph_break, pgraph_end, pgraph_end_from, pgraph_seek_by,
    pgraph_seek_byte,
};
use crate::search::lemma_occurs_is_match;
use crate::tape::{accepts, matches_at, rejects};
use crate::tape::Tape;
use crate::traits::{
    is_simple_ws_byte, lemma_trim_back, lemma_trim_front, simple_ws_width, trim_back, trim_front,
    trimmed,
};

verus! {

/// Setting the public `pos` field moves the cursor and keeps the data:
/// the tape still runs over (and dereferences to) the slice it was made
/// with, as it does after every cursor operation.
pub proof fn law_setting_pos_keeps_data<'a, T>(t: Tape<'a, T>, p: usize)
    ensures
        (Tape { raw: t.raw, pos: p }).data() == t.data(),
        (Tape { raw: t.raw, pos: p }).cursor() == p,
        (Tape { raw: t.raw, pos: p }).elem_at(p as int) == t.elem_at(p as int),
{
}

/// `cur` finds no element exactly when `is_exhausted` holds.
pub proof fn law_cur_none_iff_exhausted<'a, T>(t: Tape<'a, T>)
    ensures
        t.elem_at(t.cursor() as int) is None <==> t.exhausted(),
{
}

/// For a cursor within the data, `rest` is empty exactly when the tape is exhausted.
pub proof fn law_rest_empty_iff_exhausted<'a, T>(t: Tape<'a, T>)
    requires
        t.cursor() <= t.data().len(),
    ensures
        t.data().subrange(t.cursor() as int, t.data().len() as int).len() == 0 <==> t.exhausted(),
{
}

/// What `peek` sees is what `cur` sees once the tape has advanced by one,
/// and what `peek_back` sees is what `cur` sees once it has stepped back by one.
pub proof fn law_peek_is_neighbour_cur<'a, T>(t: Tape<'a, T>, ahead: Tape<'a, T>, behind: Tape<'a, T>)
    requires
        ahead.data() == t.data(),
        ahead.cursor() == t.cursor() + 1,
        behind.data() == t.data(),
        behind.cursor() == t.cursor() - 1,
    ensures
        t.elem_at(t.cursor() + 1) == ahead.elem_at(ahead.cursor() as int),
        t.elem_at(t.cursor() - 1) == behind.elem_at(behind.cursor() as int),
{
}

/// The slice that `consume` returns, followed by `rest` at
/// the new position, is `rest` at the old position.
pub proof fn law_stepped_over_then_rest<'a, T>(before: Tape<'a, T>, after: Tape<'a, T>)
    requires
        after.data() == before.data(),
        before.cursor() <= after.cursor() <= before.data().len(),
    ensures
        before.data().subrange(before.cursor() as int, after.cursor() as int) + after.data().subrange(
            after.cursor() as int,
            after.data().len() as int,
        ) == before.data().subrange(before.cursor() as int, before.data().len() as int),
{
    assert(before.data().subrange(before.cursor() as int, after.cursor() as int) + after.data().subrange(
        after.cursor() as int,
        after.data().len() as int,
    ) =~= before.data().subrange(before.cursor() as int, before.data().len() as int));
}

/// A byte has a nonzero whitespace width exactly when it is simple whitespace.
pub proof fn law_ws_width_iff_ws(b: u8)
    ensures
        simple_ws_width(b) > 0 <==> is_simple_ws_byte(b),
{
}

/// The paragraph that a scan runs through never ends before the scan
/// begins nor after the data.
pub proof fn law_pgraph_end_bounds(data: Seq<u8>, start: int, spacing: u8)
    requires
        0 <= start <= data.len(),
    ensures
        start <= pgraph_end(data, start, spacing) <= data.len(),
{
    lemma_pgraph_end_bounds(data, start, spacing);
}

/// Trimming keeps a contiguous piece of the input with only whitespace
/// around it, leaves no whitespace at either end of that piece, and
/// trimming again changes nothing.
pub proof fn law_trim(s: Seq<u8>)
    ensures
        exists|a: int, b: int|
            {
                &&& 0 <= a <= b <= s.len()
                &&& trimmed(s) == s.subrange(a, b)
                &&& forall|j: int| 0 <= j < a ==> is_simple_ws_byte(#[trigger] s[j])
                &&& forall|j: int| b <= j < s.len() ==> is_simple_ws_byte(#[trigger] s[j])
            },
        trimmed(s).len() > 0 ==> !is_simple_ws_byte(trimmed(s)[0]),
        trimmed(s).len() > 0 ==> !is_simple_ws_byte(trimmed(s).last()),
        trimmed(trimmed(s)) == trimmed(s),
{
    let k = lemma_trim_front(s);
    let front = s.subrange(k, s.len() as int);
    let e = lemma_trim_back(front);
    let t = trimmed(s);
    assert(t == front.subrange(0, e));
    assert(front.subrange(0, e) =~= s.subrange(k, k + e));
    assert forall|j: int| k + e <= j < s.len() implies is_simple_ws_byte(s[j]) by {
        assert(s[j] == front[j - k]);
    }
    if t.len() > 0 {
        assert(t[0] == s[k]);
        assert(t.last() == front[e - 1]);
    }
    let k2 = lemma_trim_front(t);
    if k2 > 0 {
        assert(is_simple_ws_byte(t[0]));
    }
    assert(t.subrange(0, t.len() as int) =~= t);
    assert(trim_front(t) == t);
    let e2 = lemma_trim_back(t);
    if e2 < t.len() {
        assert(is_simple_ws_byte(t[t.len() - 1]));
    }
    assert(trim_back(t) == t);
}

/// `seek_ch_in_pgraph(spacing, q)` ends as `seek_in_pgraph` does with a
/// predicate that answers whether the character is `q`: the same result
/// and the same position.
pub proof fn law_seek_ch_in_pgraph_is_seek_in_pgraph<F: FnMut(u8, usize) -> bool>(
    data: Seq<u8>,
    start: int,
    spacing: u8,
    q: u8,
    pred: F,
    found_by: bool,
    p_by: int,
    found_byte: bool,
    p_byte: int,
)
    requires
        forall|c: u8, i: usize, b: bool| call_ensures(pred, (c, i), b) ==> b == (c == q),
        pgraph_seek_by(data, start, spacing, pred, found_by, p_by),
        pgraph_seek_byte(data, start, spacing, q, found_byte, p_byte),
    ensures
        found_by == found_byte,
        p_by == p_byte,
{
    if found_by {
        assert(accepts(pred, data, p_by));
        assert(data[p_by] == q);
        if found_byte {
            if p_byte < p_by {
                assert(rejects(pred, data, p_byte));
            }
        }
    } else if found_byte {
        assert(rejects(pred, data, p_byte));
    }
}

/// A run of newlines from `m` through `m + k` counts at least `k + 1`
/// newlines for a scan that began at or before `m`.
proof fn lemma_run_counts(data: Seq<u8>, start: int, m: int, k: int)
    requires
        start <= m,
        0 <= k,
        m + k < data.len(),
        forall|t: int| m <= t <= m + k ==> data[t] == 0x0Au8,
    ensures
        nl_run(data, start, m + k) >= k + 1,
    decreases k,
{
    assert(data[m + k] == 0x0Au8);
    if k > 0 {
        lemma_run_counts(data, start, m, k - 1);
    }
}

/// The newlines that `nl_run` counts are really there.
proof fn lemma_run_is_newlines(data: Seq<u8>, start: int, i: int)
    ensures
        nl_run(data, start, i) > 0 ==> i - nl_run(data, start, i) + 1 >= start,
        forall|t: int|
            i - nl_run(data, start, i) < t <= i ==> start <= t < data.len() && #[trigger] data[t]
                == 0x0Au8,
    decreases i - start + 1,
{
    if nl_run(data, start, i) > 0 {
        lemma_run_is_newlines(data, start, i - 1);
    }
}

/// No paragraph ends later than a paragraph break at or after `from`.
proof fn lemma_end_before_break(data: Seq<u8>, start: int, spacing: u8, k0: int, from: int)
    requires
        from <= k0,
        pgraph_break(data, start, spacing, k0),
    ensures
        pgraph_end_from(data, start, spacing, from) <= k0,
    decreases k0 - from,
{
    if from < k0 && !pgraph_break(data, start, spacing, from) {
        lemma_end_before_break(data, start, spacing, k0, from + 1);
    }
}

/// A paragraph that ends before the end of the data ends at a break.
proof fn lemma_end_is_break(data: Seq<u8>, start: int, spacing: u8, k: int)
    ensures
        pgraph_end_from(data, start, spacing, k) < data.len() ==> pgraph_break(
            data,
            start,
            spacing,
            pgraph_end_from(data, start, spacing, k),
        ),
    decreases data.len() - k,
{
    if k < data.len() && !pgraph_break(data, start, spacing, k) {
        lemma_end_is_break(data, start, spacing, k + 1);
    }
}

/// A run of `spacing` consecutive newlines at or after the start of a
/// paragraph scan ends the paragraph by its last newline: no
/// paragraph-bounded search (`poll_in_pgraph`, `consume_in_pgraph`,
/// `seek_in_pgraph`, `seek_ch_in_pgraph`, `seek_at_in_pgraph`) finds or
/// passes anything at or after it.
pub proof fn law_newline_run_ends_pgraph<F: FnMut(u8, usize) -> bool>(
    data: Seq<u8>,
    start: int,
    spacing: u8,
    m: int,
    pred: F,
    found: bool,
    p: int,
)
    requires
        0 <= start <= m,
        1 <= spacing,
        m + spacing <= data.len(),
        forall|t: int| m <= t < m + spacing ==> data[t] == 0x0Au8,
    ensures
        pgraph_end(data, start, spacing) <= m + spacing - 1,
        pgraph_seek_by(data, start, spacing, pred, found, p) && found ==> p < m + spacing - 1,
{
    lemma_run_counts(data, start, m, spacing - 1);
    assert(pgraph_break(data, start, spacing, m + spacing - 1));
    lemma_end_before_break(data, start, spacing, m + spacing - 1, start);
}

/// A paragraph scan that stops before the end of the data stops on the
/// last newline of a run of `spacing` consecutive newlines, all at or
/// after the start of the scan (for `spacing` 0, on any newline).
pub proof fn law_pgraph_end_is_newline_run(data: Seq<u8>, start: int, spacing: u8)
    requires
        0 <= start <= data.len(),
    ensures
        start <= pgraph_end(data, start, spacing) <= data.len(),
        pgraph_end(data, start, spacing) < data.len() ==> {
            let e = pgraph_end(data, start, spacing);
            &&& data[e] == 0x0Au8
            &&& e - spacing + 1 >= start
            &&& forall|t: int| e - spacing < t <= e ==> data[t] == 0x0Au8
        },
{
    lemma_pgraph_end_bounds(data, start, spacing);
    lemma_end_is_break(data, start, spacing, start);
    let e = pgraph_end(data, start, spacing);
    if e < data.len() {
        lemma_run_is_newlines(data, start, e);
        assert(nl_run(data, start, e) >= spacing);
    }
}

/// Simple whitespace is exactly space, tab, newline and carriage return;
/// a tab is four wide, the others one, and every other byte (in
/// particular every byte from 0x80 on) is no whitespace and zero wide.
pub proof fn law_simple_ws_bytes(b: u8)
    ensures
        is_simple_ws_byte(b) <==> (b == 0x20u8 || b == 0x09u8 || b == 0x0Au8 || b == 0x0Du8),
        b >= 0x80u8 ==> !is_simple_ws_byte(b),
        simple_ws_width(b) == (if b == 0x09u8 {
            4u8
        } else if b == 0x20u8 || b == 0x0Au8 || b == 0x0Du8 {
            1u8
        } else {
            0u8
        }),
{
}

/// Trimming keeps every byte that is not a space, tab, newline or
/// carriage return (so every byte from 0x80 on): the result is the piece
/// of `s` between the returned bounds, and every byte outside them is one
/// of those four.
pub proof fn law_trim_keeps_other_bytes(s: Seq<u8>) -> (bounds: (int, int))
    ensures
        0 <= bounds.0 <= bounds.1 <= s.len(),
        trimmed(s) == s.subrange(bounds.0, bounds.1),
        forall|j: int|
            0 <= j < s.len() && !(s[j] == 0x20u8 || s[j] == 0x09u8 || s[j] == 0x0Au8 || s[j]
                == 0x0Du8) ==> bounds.0 <= j < bounds.1,
{
    let k = lemma_trim_front(s);
    let front = s.subrange(k, s.len() as int);
    let e = lemma_trim_back(front);
    assert(front.subrange(0, e) =~= s.subrange(k, k + e));
    assert forall|j: int|
        0 <= j < s.len() && !(s[j] == 0x20u8 || s[j] == 0x09u8 || s[j] == 0x0Au8 || s[j]
            == 0x0Du8) implies k <= j < k + e by {
        if j >= k + e {
            assert(s[j] == front[j - k]);
        }
    }
    (k, k + e)
}

/// Where a line starts: no newline lies between there and `p`, and the
/// byte before it, if any, is a newline.
proof fn lemma_line_start_shape(data: Seq<u8>, p: int)
    requires
        0 <= p <= data.len(),
    ensures
        0 <= line_start(data, p) <= p,
        forall|k: int| line_start(data, p) <= k < p ==> data[k] != 0x0Au8,
        line_start(data, p) > 0 ==> data[line_start(data, p) - 1] == 0x0Au8,
    decreases p,
{
    if p > 0 && data[p - 1] != 0x0Au8 {
        lemma_line_start_shape(data, p - 1);
    }
}

/// A position that follows a newline (or the beginning of the input) with
/// no newline before `p` is where the line of `p` starts.
proof fn lemma_line_start_is(data: Seq<u8>, s: int, p: int)
    requires
        0 <= s <= p <= data.len(),
        s == 0 || data[s - 1] == 0x0Au8,
        forall|k: int| s <= k < p ==> data[k] != 0x0Au8,
    ensures
        line_start(data, p) == s,
{
    lemma_line_start_shape(data, p);
    let ls = line_start(data, p);
    if ls < s {
        assert(data[s - 1] != 0x0Au8);
    }
    if ls > s {
        assert(data[ls - 1] != 0x0Au8);
    }
}

/// `is_prefix(p)` holds exactly when the character at `p` is a newline or
/// every byte before `p` that no newline separates from it is whitespace:
/// the beginning of the input counts like a newline.
pub proof fn law_line_prefix_means(data: Seq<u8>, p: int)
    requires
        0 <= p <= data.len(),
    ensures
        line_prefix(data, p) <==> ((p < data.len() && data[p] == 0x0Au8) || forall|j: int|
            0 <= j < p && (forall|k: int| j <= k < p ==> data[k] != 0x0Au8)
                ==> is_simple_ws_byte(#[trigger] data[j])),
        (forall|j: int| 0 <= j < p ==> is_simple_ws_byte(#[trigger] data[j])) ==> line_prefix(
            data,
            p,
        ),
{
    lemma_line_start_shape(data, p);
    let ls = line_start(data, p);
    if forall|j: int| ls <= j < p ==> is_simple_ws_byte(#[trigger] data[j]) {
        assert forall|j: int|
            0 <= j < p && (forall|k: int| j <= k < p ==> data[k] != 0x0Au8) implies is_simple_ws_byte(
            #[trigger] data[j],
        ) by {
            if j < ls {
                assert(data[ls - 1] == 0x0Au8);
            }
        }
    }
    if forall|j: int|
        0 <= j < p && (forall|k: int| j <= k < p ==> data[k] != 0x0Au8) ==> is_simple_ws_byte(
            #[trigger] data[j],
        ) {
        assert forall|j: int| ls <= j < p implies is_simple_ws_byte(#[trigger] data[j]) by {
            assert(forall|k: int| j <= k < p ==> data[k] != 0x0Au8);
        }
    }
}

/// Left clearance of `p` is whitespace (space, tab, newline or carriage
/// return) just before it, or nothing before it; right clearance is the
/// same just after it.
pub proof fn law_clearance_means(data: Seq<u8>, p: int)
    requires
        0 <= p,
    ensures
        0 < p <= data.len() ==> (left_clear(data, p) <==> (data[p - 1] == 0x20u8 || data[p - 1]
            == 0x09u8 || data[p - 1] == 0x0Au8 || data[p - 1] == 0x0Du8)),
        p == 0 || p > data.len() ==> left_clear(data, p),
        p + 1 < data.len() ==> (right_clear(data, p) <==> (data[p + 1] == 0x20u8 || data[p + 1]
            == 0x09u8 || data[p + 1] == 0x0Au8 || data[p + 1] == 0x0Du8)),
        p + 1 >= data.len() ==> right_clear(data, p),
{
}

/// Counting a byte in a sequence made only of that byte gives its length.
proof fn lemma_count_all(s: Seq<u8>, b: u8)
    requires
        forall|j: int| 0 <= j < s.len() ==> s[j] == b,
    ensures
        count_byte(s, b) == s.len(),
    decreases s.len(),
{
    if s.len() > 0 {
        lemma_count_all(s.drop_last(), b);
    }
}

/// Counting a byte in a sequence without it gives zero.
proof fn lemma_count_none(s: Seq<u8>, b: u8)
    requires
        forall|j: int| 0 <= j < s.len() ==> s[j] != b,
    ensures
        count_byte(s, b) == 0,
    decreases s.len(),
{
    if s.len() > 0 {
        lemma_count_none(s.drop_last(), b);
    }
}

/// The indentation at `p` counts the tabs and spaces that begin its line
/// and nothing after them: when the line begins at `s` and its leading
/// run of tabs and spaces ends at `q` (at `p`, or at a byte that is no
/// whitespace), the indentation is the number of tabs in that run plus a
/// quarter of the number of spaces in it (floored).
pub proof fn law_indent_counts_leading_blanks(data: Seq<u8>, s: int, q: int, p: int)
    requires
        0 <= s <= q <= p <= data.len(),
        s == 0 || data[s - 1] == 0x0Au8,
        forall|k: int| s <= k < p ==> data[k] != 0x0Au8,
        forall|j: int| s <= j < q ==> (data[j] == 0x09u8 || data[j] == 0x20u8),
        q < p ==> !(data[q] == 0x20u8 || data[q] == 0x09u8 || data[q] == 0x0Au8 || data[q]
            == 0x0Du8),
    ensures
        indent_level(data, p) == count_byte(data.subrange(s, q), 0x09u8) + count_byte(
            data.subrange(s, q),
            0x20u8,
        ) / 4,
{
    lemma_line_start_is(data, s, p);
    let line = data.subrange(s, p);
    let k = lemma_trim_front(line);
    if k < q - s {
        assert(line[k] == data[s + k]);
    }
    if k > q - s {
        assert(line[q - s] == data[q]);
        assert(is_simple_ws_byte(line[q - s]));
    }
    assert(k == q - s);
    assert(line_indent(data, p) =~= data.subrange(s, q));
}

/// When a line begins at `s` with nothing but tabs and spaces up to `p`,
/// the indentation at `p` is the number of those tabs plus a quarter of
/// the number of those spaces (floored).
pub proof fn law_indent_of_blank_run(data: Seq<u8>, s: int, p: int)
    requires
        0 <= s <= p <= data.len(),
        s == 0 || data[s - 1] == 0x0Au8,
        forall|j: int| s <= j < p ==> (data[j] == 0x09u8 || data[j] == 0x20u8),
    ensures
        indent_level(data, p) == count_byte(data.subrange(s, p), 0x09u8) + count_byte(
            data.subrange(s, p),
            0x20u8,
        ) / 4,
{
    law_indent_counts_leading_blanks(data, s, p, p);
}

/// A line indented by `n` tabs alone has indentation `n` at its first
/// other character.
pub proof fn law_indent_of_tabs(data: Seq<u8>, s: int, n: int)
    requires
        0 <= s,
        0 <= n,
        s + n <= data.len(),
        s == 0 || data[s - 1] == 0x0Au8,
        forall|j: int| s <= j < s + n ==> data[j] == 0x09u8,
    ensures
        indent_level(data, s + n) == n,
{
    law_indent_of_blank_run(data, s, s + n);
    lemma_count_all(data.subrange(s, s + n), 0x09u8);
    lemma_count_none(data.subrange(s, s + n), 0x20u8);
}

/// Only the whitespace that begins a line counts: when the first byte of
/// the line is no whitespace, the indentation is zero wherever the
/// cursor stands on that line.
pub proof fn law_indent_ignores_inner_whitespace(data: Seq<u8>, s: int, p: int)
    requires
        0 <= s < p <= data.len(),
        s == 0 || data[s - 1] == 0x0Au8,
        forall|k: int| s <= k < p ==> data[k] != 0x0Au8,
        !(data[s] == 0x20u8 || data[s] == 0x09u8 || data[s] == 0x0Au8 || data[s] == 0x0Du8),
    ensures
        indent_level(data, p) == 0,
{
    law_indent_counts_leading_blanks(data, s, s, p);
    assert(data.subrange(s, s) =~= Seq::<u8>::empty());
}

/// On bytes, `query` matches at `at` (what `is_at`, `seek_at`,
/// `seek_ch2`, `seek_ch3` and `seek_at_in_pgraph` look for) exactly when
/// the bytes of the data from `at` on begin with the bytes of `query`.
pub proof fn law_byte_match_is_subslice(data: Seq<u8>, at: int, query: Seq<u8>)
    ensures
        matches_at(data, at, query) <==> (0 <= at && at + query.len() <= data.len()
            && data.subrange(at, at + query.len()) == query),
{
    lemma_occurs_is_match(data, at, query);
}

} // verus!
