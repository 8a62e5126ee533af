use taped::{CharExt, SliceExt, Tape, ToTape};

#[test]
fn new_starts_at_first_element() {
    let data = b"abc";
    let tape = Tape::new(&data[..]);
    assert_eq!(tape.pos, 0);
    assert_eq!(tape.cur(), Some(b'a'));
}

#[test]
fn next_returns_current_then_advances() {
    let data = b"ab";
    let mut tape = Tape::new(&data[..]);
    assert_eq!(tape.next(), Some(b'a'));
    assert_eq!(tape.pos, 1);
    assert_eq!(tape.next(), Some(b'b'));
    assert_eq!(tape.next(), None);
    assert_eq!(tape.pos, 3);
    assert_eq!(tape.next(), None);
    assert_eq!(tape.pos, 4);
}

#[test]
fn cur_peek_and_peek_back() {
    let data = b"xyz";
    let mut tape = Tape::new(&data[..]);
    assert_eq!(tape.peek_back(), None);
    assert_eq!(tape.peek(), Some(b'y'));
    tape.adv();
    assert_eq!(tape.cur(), Some(b'y'));
    assert_eq!(tape.peek(), Some(b'z'));
    assert_eq!(tape.peek_back(), Some(b'x'));
    tape.adv();
    assert_eq!(tape.peek(), None);
    tape.adv();
    assert_eq!(tape.cur(), None);
    assert_eq!(tape.peek_back(), Some(b'z'));
}

#[test]
fn peek_at_the_largest_position_is_none() {
    let data = b"a";
    let mut tape = Tape::new(&data[..]);
    tape.pos = usize::MAX;
    assert_eq!(tape.peek(), None);
    assert_eq!(tape.cur(), None);
    assert_eq!(tape.peek_back(), None);
}

#[test]
fn adv_and_dec_move_by_one() {
    let data = b"hello";
    let mut tape = Tape::new(&data[..]);
    tape.adv();
    tape.adv();
    assert_eq!(tape.pos, 2);
    tape.dec();
    assert_eq!(tape.pos, 1);
    assert_eq!(tape.cur(), Some(b'e'));
}

#[test]
fn dec_before_first_element_exhausts() {
    let data = b"hello";
    let mut tape = Tape::new(&data[..]);
    tape.dec();
    assert_eq!(tape.pos, usize::MAX);
    assert!(tape.is_exhausted());
    assert_eq!(tape.cur(), None);
}

#[test]
fn rest_from_the_cursor() {
    let data = b"hello";
    let mut tape = Tape::new(&data[..]);
    tape.pos = 3;
    assert_eq!(tape.rest(), b"lo");
    tape.pos = 5;
    assert_eq!(tape.rest(), b"");
}

#[test]
fn is_exhausted_at_and_past_end() {
    let data = b"ab";
    let mut tape = Tape::new(&data[..]);
    assert!(!tape.is_exhausted());
    tape.pos = 2;
    assert!(tape.is_exhausted());
    tape.pos = 7;
    assert!(tape.is_exhausted());
    assert_eq!(tape.pos, 7);
}

#[test]
fn cur_is_none_exactly_when_exhausted() {
    let data = b"ab";
    for p in 0..5 {
        let mut tape = Tape::new(&data[..]);
        tape.pos = p;
        assert_eq!(tape.cur().is_none(), tape.is_exhausted());
    }
}

#[test]
fn rest_is_empty_exactly_when_exhausted() {
    let data = b"abc";
    for p in 0..=3 {
        let mut tape = Tape::new(&data[..]);
        tape.pos = p;
        assert_eq!(tape.rest().is_empty(), tape.is_exhausted());
    }
}

#[test]
fn peek_is_cur_after_adv_and_peek_back_is_cur_after_dec() {
    let data = b"pqrs";
    for p in 1..4 {
        let mut tape = Tape::new(&data[..]);
        tape.pos = p;
        let ahead = tape.peek();
        let behind = tape.peek_back();
        let mut a = tape;
        a.adv();
        assert_eq!(a.cur(), ahead);
        let mut b = tape;
        b.dec();
        assert_eq!(b.cur(), behind);
    }
}

#[test]
fn copy_snapshot_restores_position() {
    let data = b"key=value";
    let mut tape = Tape::new(&data[..]);
    let snapshot = tape;
    assert!(tape.seek_ch(b'='));
    assert_eq!(tape.pos, 3);
    tape = snapshot;
    assert_eq!(tape.pos, 0);
    assert_eq!(tape.cur(), Some(b'k'));
}

#[test]
fn setting_pos_keeps_the_slice() {
    let data = b"abc";
    let mut tape = Tape::new(&data[..]);
    tape.pos = 1;
    assert_eq!(tape.cur(), Some(b'b'));
    assert_eq!(*tape, &data[..]);
    tape.pos = 9;
    assert!(tape.seek_back(|c, _| c == b'a'));
    assert_eq!(*tape, &data[..]);
    assert_eq!(tape.pos, 0);
}

#[test]
fn deref_gives_the_whole_slice() {
    let data = b"abcd";
    let mut tape = Tape::new(&data[..]);
    tape.pos = 2;
    assert_eq!(tape.len(), 4);
    assert_eq!(tape[0], b'a');
    assert_eq!(*tape, &data[..]);
}

#[test]
fn poll_finds_first_match_from_cursor() {
    let data = b"a b c";
    let mut tape = Tape::new(&data[..]);
    assert_eq!(tape.poll(|b, _| b == b' '), Some(1));
    tape.pos = 2;
    assert_eq!(tape.poll(|b, _| b == b' '), Some(3));
    assert_eq!(tape.poll(|b, _| b == b'z'), None);
    assert_eq!(tape.poll(|_, i| i == 4), Some(4));
    tape.pos = 9;
    assert_eq!(tape.poll(|_, _| true), None);
}

#[test]
fn poll_back_finds_nearest_match_at_or_before_cursor() {
    let data = b"x\nab\ncd";
    let mut tape = Tape::new(&data[..]);
    tape.pos = 3;
    assert_eq!(tape.poll_back(|b, _| b == b'\n'), Some(1));
    tape.pos = 4;
    assert_eq!(tape.poll_back(|b, _| b == b'\n'), Some(4));
    tape.pos = 0;
    assert_eq!(tape.poll_back(|b, _| b == b'\n'), None);
    assert_eq!(tape.poll_back(|b, _| b == b'x'), Some(0));
    tape.pos = 40;
    assert_eq!(tape.poll_back(|b, _| b == b'\n'), Some(4));
    assert_eq!(tape.poll_back(|b, _| b == b'z'), None);
}

#[test]
fn consume_stops_at_first_rejected_element() {
    let data = b"hello world";
    let mut tape = Tape::new(&data[..]);
    let word = tape.consume(|b, _| b != b' ');
    assert_eq!(word, b"hello");
    assert_eq!(tape.pos, 5);
    assert_eq!(tape.cur(), Some(b' '));
    let none = tape.consume(|b, _| b != b' ');
    assert_eq!(none, b"");
    assert_eq!(tape.pos, 5);
}

#[test]
fn consume_runs_to_the_end_when_everything_matches() {
    let data = b"hello world";
    let mut tape = Tape::new(&data[..]);
    tape.pos = 6;
    let word = tape.consume(|b, _| b.is_ascii_lowercase());
    assert_eq!(word, b"world");
    assert_eq!(tape.pos, data.len());
}

#[test]
fn consume_past_the_end_is_empty() {
    let data = b"ab";
    let mut tape = Tape::new(&data[..]);
    tape.pos = 5;
    assert_eq!(tape.consume(|_, _| true), b"");
    assert_eq!(tape.pos, 5);
}

#[test]
fn consume_then_rest_rebuilds_the_old_rest() {
    let data = b"12ab";
    let mut tape = Tape::new(&data[..]);
    let before = tape.rest();
    let digits = tape.consume(|b, _| b.is_ascii_digit());
    let mut joined = digits.to_vec();
    joined.extend_from_slice(tape.rest());
    assert_eq!(joined, before.to_vec());
}

#[test]
fn put_back_steps_back_to_nearest_rejected_element() {
    let data = b"ab  c";
    let mut tape = Tape::new(&data[..]);
    tape.pos = 3;
    let stepped = tape.put_back(|c, _| c == b' ');
    assert_eq!(stepped, b"  ");
    assert_eq!(tape.pos, 1);
    let stepped = tape.put_back(|c, _| c == b' ');
    assert_eq!(stepped, b"");
    assert_eq!(tape.pos, 1);
}

#[test]
fn put_back_to_the_end_when_everything_matches() {
    let data = b"   x";
    let mut tape = Tape::new(&data[..]);
    tape.pos = 2;
    let stepped = tape.put_back(|c, _| c == b' ');
    assert_eq!(stepped, b"   ");
    assert_eq!(tape.pos, 4);
    let mut past = Tape::new(&data[..]);
    past.pos = 10;
    let stepped = past.put_back(|c, _| c != b' ');
    assert_eq!(stepped, b"x");
    assert_eq!(past.pos, 2);
}

#[test]
fn seek_moves_to_match_or_stays() {
    let data = b"abc=def";
    let mut tape = Tape::new(&data[..]);
    assert!(tape.seek(|b, _| b == b'='));
    assert_eq!(tape.pos, 3);
    assert!(!tape.seek(|b, _| b == b'x'));
    assert_eq!(tape.pos, 3);
}

#[test]
fn seek_back_moves_to_nearest_match_before() {
    let data = b"x.y.z";
    let mut tape = Tape::new(&data[..]);
    tape.pos = 2;
    assert!(tape.seek_back(|c, _| c == b'.'));
    assert_eq!(tape.pos, 1);
    assert!(tape.seek_back(|c, _| c == b'.'));
    assert_eq!(tape.pos, 1);
    assert!(!tape.seek_back(|c, _| c == b'z'));
    assert_eq!(tape.pos, 1);
    tape.pos = 5;
    assert!(tape.seek_back(|c, _| c == b'.'));
    assert_eq!(tape.pos, 3);
}

#[test]
fn is_at_compares_from_cursor() {
    let data = b"foo bar";
    let mut tape = Tape::new(&data[..]);
    assert!(tape.is_at(b"foo"));
    assert!(tape.is_at(b""));
    assert!(!tape.is_at(b"bar"));
    tape.pos = 4;
    assert!(tape.is_at(b"bar"));
    assert!(!tape.is_at(b"barn"));
    tape.pos = 7;
    assert!(tape.is_at(b""));
    assert!(!tape.is_at(b"x"));
}

#[test]
fn is_at_works_on_other_element_types() {
    let data = [1u32, 2, 3, 4];
    let mut tape = Tape::new(&data[..]);
    tape.pos = 1;
    assert!(tape.is_at(&[2, 3]));
    assert!(!tape.is_at(&[3]));
    assert_eq!(tape.cur(), Some(2));
}
