use taped::{CharExt, SliceExt, ToTape};

#[test]
fn trim_removes_flanking_whitespace() {
    let data: &[u8] = b" \t hello world \r\n";
    assert_eq!(data.trim_simple_ws(), b"hello world");
}

#[test]
fn trim_of_all_whitespace_is_empty() {
    let data: &[u8] = b" \t\n\r ";
    assert_eq!(data.trim_simple_ws(), b"");
    let empty: &[u8] = b"";
    assert_eq!(empty.trim_simple_ws(), b"");
}

#[test]
fn trim_keeps_inner_whitespace_and_is_idempotent() {
    let data: &[u8] = b"  a  b  ";
    let once = data.trim_simple_ws();
    assert_eq!(once, b"a  b");
    assert_eq!(once.trim_simple_ws(), once);
    assert!(!once[0].is_simple_ws());
    assert!(!once[once.len() - 1].is_simple_ws());
}

#[test]
fn to_tape_is_new() {
    let data: &[u8] = b"xyz";
    let tape = data.to_tape();
    assert_eq!(tape.pos, 0);
    assert_eq!(tape.cur(), Some(b'x'));
    assert_eq!(tape.rest(), data);
}
