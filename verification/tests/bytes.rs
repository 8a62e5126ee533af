use taped::{CharExt, Tape};

#[test]
fn left_and_right_clearance() {
    let data = b"a *b* c";
    let tape = Tape::new(&data[..]);
    assert!(tape.is_left_clear(0));
    assert!(tape.is_left_clear(2));
    assert!(!tape.is_left_clear(3));
    assert!(tape.is_left_clear(100));
    assert!(tape.is_right_clear(4));
    assert!(!tape.is_right_clear(2));
    assert!(tape.is_right_clear(6));
    assert!(tape.is_right_clear(100));
}

#[test]
fn newline_gives_clearance() {
    let data = b"\nx\n";
    let tape = Tape::new(&data[..]);
    assert!(tape.is_left_clear(1));
    assert!(tape.is_right_clear(1));
}

#[test]
fn any_clear_holds_with_clearance_on_either_side() {
    let data = b" ab";
    let mut tape = Tape::new(&data[..]);
    tape.pos = 1;
    assert!(tape.is_any_clear(1));
    let data = b"x*ab*y";
    let mut tape = Tape::new(&data[..]);
    tape.pos = 4;
    assert!(!tape.is_any_clear(1));
    let data = b"x*ab* y";
    let mut tape = Tape::new(&data[..]);
    tape.pos = 4;
    assert!(tape.is_any_clear(1));
}

#[test]
fn poll_in_pgraph_stops_at_paragraph_break() {
    let data = b"ab\ncd\n\nef";
    let tape = Tape::new(&data[..]);
    assert_eq!(tape.poll_in_pgraph(2, |b, _| b == b'd'), Some(4));
    assert_eq!(tape.poll_in_pgraph(2, |b, _| b == b'e'), None);
    assert_eq!(tape.poll_in_pgraph(3, |b, _| b == b'e'), Some(7));
    assert_eq!(tape.poll_in_pgraph(1, |b, _| b == b'c'), None);
}

#[test]
fn poll_in_pgraph_starts_at_cursor() {
    let data = b"xab\n\nx";
    let mut tape = Tape::new(&data[..]);
    tape.pos = 1;
    assert_eq!(tape.poll_in_pgraph(2, |b, _| b == b'x'), None);
    assert_eq!(tape.poll_in_pgraph(3, |b, _| b == b'x'), Some(5));
    tape.pos = 4;
    // the newline before the cursor does not count towards the break
    assert_eq!(tape.poll_in_pgraph(2, |b, _| b == b'x'), Some(5));
}

#[test]
fn poll_in_pgraph_with_zero_spacing_stops_at_any_newline() {
    let data = b"ab\ncd";
    let tape = Tape::new(&data[..]);
    assert_eq!(tape.poll_in_pgraph(0, |b, _| b == b'b'), Some(1));
    assert_eq!(tape.poll_in_pgraph(0, |b, _| b == b'c'), None);
}

#[test]
fn consume_in_pgraph_stops_at_mismatch_or_break() {
    let data = b"ab cd\n\nef";
    let mut tape = Tape::new(&data[..]);
    let word = tape.consume_in_pgraph(2, |b, _| b != b' ');
    assert_eq!(word, b"ab");
    assert_eq!(tape.pos, 2);
    tape.pos = 3;
    // the paragraph ends before any character fails: nothing is consumed
    let rest = tape.consume_in_pgraph(2, |_, _| true);
    assert_eq!(rest, b"");
    assert_eq!(tape.pos, 3);
    // a mismatch before the break is still found
    let rest = tape.consume_in_pgraph(2, |b, _| b != b'\n');
    assert_eq!(rest, b"cd");
    assert_eq!(tape.pos, 5);
    let mut tail = Tape::new(&data[..]);
    tail.pos = 7;
    assert_eq!(tail.consume_in_pgraph(2, |_, _| true), b"ef");
    assert_eq!(tail.pos, 9);
}

#[test]
fn seek_ch_in_pgraph_agrees_with_seek_in_pgraph() {
    for (text, query) in [(&b"a\nb"[..], b'b'), (&b"a\n\nb"[..], b'b'), (&b"xyz"[..], b'z'), (&b"\n\n"[..], b'\n')] {
        for spacing in [0u8, 1, 2, 3] {
            let mut fast = Tape::new(text);
            let mut slow = Tape::new(text);
            let found_fast = fast.seek_ch_in_pgraph(spacing, query);
            let found_slow = slow.seek_in_pgraph(spacing, |c, _| c == query);
            assert_eq!(found_fast, found_slow);
            assert_eq!(fast.pos, slow.pos);
        }
    }
    let mut t = Tape::new(&b"a\nb"[..]);
    assert!(t.seek_ch_in_pgraph(2, b'b'));
    assert_eq!(t.pos, 2);
    let mut t = Tape::new(&b"a\n\nb"[..]);
    assert!(!t.seek_ch_in_pgraph(2, b'b'));
    assert_eq!(t.pos, 0);
}

#[test]
fn seek_in_pgraph_moves_within_paragraph() {
    let data = b"one\ntwo\n\nthree";
    let mut tape = Tape::new(&data[..]);
    assert!(tape.seek_in_pgraph(2, |b, _| b == b't'));
    assert_eq!(tape.pos, 4);
    assert!(!tape.seek_in_pgraph(2, |b, _| b == b'h'));
    assert_eq!(tape.pos, 4);
}

#[test]
fn seek_ch_in_pgraph_finds_byte() {
    let data = b"a=b\n\nc=d";
    let mut tape = Tape::new(&data[..]);
    assert!(tape.seek_ch_in_pgraph(2, b'='));
    assert_eq!(tape.pos, 1);
    tape.pos = 2;
    assert!(!tape.seek_ch_in_pgraph(2, b'='));
    assert_eq!(tape.pos, 2);
    assert!(tape.seek_ch_in_pgraph(3, b'='));
    assert_eq!(tape.pos, 6);
}

#[test]
fn seek_at_in_pgraph_finds_substring() {
    let data = b"x -> y\n\nz -> w";
    let mut tape = Tape::new(&data[..]);
    assert!(tape.seek_at_in_pgraph(2, b"->"));
    assert_eq!(tape.pos, 2);
    assert!(tape.is_at(b"->"));
    tape.pos = 3;
    assert!(!tape.seek_at_in_pgraph(2, b"->"));
    assert_eq!(tape.pos, 3);
    assert!(tape.seek_at_in_pgraph(3, b"->"));
    assert_eq!(tape.pos, 10);
}

#[test]
fn is_prefix_checks_line_start() {
    let data = b"ab\n  - item\nx";
    let tape = Tape::new(&data[..]);
    assert!(tape.is_prefix(0));
    assert!(!tape.is_prefix(1));
    assert!(tape.is_prefix(3));
    assert!(tape.is_prefix(5));
    assert!(!tape.is_prefix(6));
    assert!(tape.is_prefix(12));
    assert!(tape.is_prefix(2));
}

#[test]
fn is_cur_prefix_uses_cursor() {
    let data = b"x\n\t- a";
    let mut tape = Tape::new(&data[..]);
    tape.pos = 3;
    assert!(tape.is_cur_prefix());
    assert_eq!(tape.is_cur_prefix(), tape.is_prefix(tape.pos));
    tape.pos = 5;
    assert!(!tape.is_cur_prefix());
}

#[test]
fn count_indent_counts_tabs_and_quarter_spaces() {
    let data = b"top\n\t\t  - item";
    let mut tape = Tape::new(&data[..]);
    tape.pos = 8;
    assert_eq!(tape.count_indent(), 2);
    let data = b"x\n        - y";
    let mut tape = Tape::new(&data[..]);
    tape.pos = 10;
    assert_eq!(tape.count_indent(), 2);
    tape.pos = 9;
    assert_eq!(tape.count_indent(), 1);
    tape.pos = 2;
    assert_eq!(tape.count_indent(), 0);
}

#[test]
fn count_indent_counts_only_leading_whitespace() {
    let data = b"a\tb";
    let mut tape = Tape::new(&data[..]);
    tape.pos = 2;
    assert_eq!(tape.count_indent(), 0);
    let data = b"x\n\t- a\tb";
    let mut tape = Tape::new(&data[..]);
    tape.pos = 8;
    assert_eq!(tape.count_indent(), 1);
}

#[test]
fn count_indent_on_first_line() {
    let data = b"\t \t   x";
    let mut tape = Tape::new(&data[..]);
    tape.pos = 6;
    assert_eq!(tape.count_indent(), 3);
}

#[test]
fn seek_ch_finds_byte() {
    let data = b"the quick brown fox";
    let mut tape = Tape::new(&data[..]);
    assert!(tape.seek_ch(b'k'));
    assert_eq!(tape.pos, 8);
    assert_eq!(tape.cur(), Some(b'k'));
    assert!(tape.seek_ch(b'k'));
    assert_eq!(tape.pos, 8);
    assert!(!tape.seek_ch(b'z'));
    assert_eq!(tape.pos, 8);
    tape.pos = data.len();
    assert!(!tape.seek_ch(b'x'));
}

#[test]
fn seek_ch2_finds_two_byte_string() {
    let data = b"ba ab";
    let mut tape = Tape::new(&data[..]);
    assert!(tape.seek_ch2(b'a', b'b'));
    assert_eq!(tape.pos, 3);
    assert!(tape.is_at(b"ab"));
    assert!(!tape.seek_ch2(b'b', b'b'));
    assert_eq!(tape.pos, 3);
}

#[test]
fn seek_ch3_finds_three_byte_string() {
    let data = b"-> --> ->>";
    let mut tape = Tape::new(&data[..]);
    assert!(tape.seek_ch3(b'-', b'-', b'>'));
    assert_eq!(tape.pos, 3);
    tape.adv();
    assert!(!tape.seek_ch3(b'-', b'-', b'>'));
    assert_eq!(tape.pos, 4);
    assert!(tape.seek_ch3(b'-', b'>', b'>'));
    assert_eq!(tape.pos, 7);
}

#[test]
fn seek_at_finds_substring() {
    let data = b"foo bar baz bar";
    let mut tape = Tape::new(&data[..]);
    assert!(tape.seek_at(b"bar"));
    assert_eq!(tape.pos, 4);
    assert!(tape.is_at(b"bar"));
    tape.adv();
    assert!(tape.seek_at(b"bar"));
    assert_eq!(tape.pos, 12);
    tape.adv();
    assert!(!tape.seek_at(b"bar"));
    assert_eq!(tape.pos, 13);
    assert!(tape.seek_at(b""));
    assert_eq!(tape.pos, 13);
}

#[test]
fn seek_ch_agrees_with_seek() {
    let data = b"a;b;c";
    let mut fast = Tape::new(&data[..]);
    let mut slow = Tape::new(&data[..]);
    assert_eq!(fast.seek_ch(b';'), slow.seek(|b, _| b == b';'));
    assert_eq!(fast.pos, slow.pos);
}

#[test]
fn simple_ws_classification() {
    for b in [b' ', b'\t', b'\n', b'\r'] {
        assert!(b.is_simple_ws());
    }
    for b in [b'a', b'0', 0u8, 0x0b, 0x0c, 0xff] {
        assert!(!b.is_simple_ws());
    }
}

#[test]
fn simple_ws_lengths() {
    assert_eq!(b' '.simple_ws_len(), 1);
    assert_eq!(b'\t'.simple_ws_len(), 4);
    assert_eq!(b'\n'.simple_ws_len(), 1);
    assert_eq!(b'\r'.simple_ws_len(), 1);
    assert_eq!(b'x'.simple_ws_len(), 0);
}

#[test]
fn ws_len_is_nonzero_exactly_for_ws() {
    for b in 0..=255u8 {
        assert_eq!(b.simple_ws_len() > 0, b.is_simple_ws());
    }
}
