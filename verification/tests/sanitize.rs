use rust_log_analyzer as rla;

use rla::sanitize::{clean, split_lines};

#[test]
fn split_on_any_line_break_run() {
    let parts = split_lines(b"a\r\nb\nc");
    assert_eq!(vec![b"a".as_ref(), b"b".as_ref(), b"c".as_ref()], parts);
}

#[test]
fn split_drops_whitespace_only_segments() {
    let parts = split_lines(b"a\n\n   \n\t\nb\n");
    assert_eq!(vec![b"a".as_ref(), b"b".as_ref()], parts);
    assert!(split_lines(b"").is_empty());
    assert!(split_lines(b" \r\n ").is_empty());
}

#[test]
fn clean_strips_ansi_escapes() {
    assert_eq!(b"red".to_vec(), clean(b"\x1b[31mred\x1b[0m"));
    // The escape runs up to and including the first ASCII letter.
    assert_eq!(b"-rest".to_vec(), clean(b"\x1b[1;2;3m-rest"));
    // An unterminated escape loses its escape byte (a control character).
    assert_eq!(b"[12".to_vec(), clean(b"\x1b[12"));
}

#[test]
fn clean_normalizes_whitespace() {
    assert_eq!(b"a b".to_vec(), clean(b"a\tb"));
    assert_eq!(b"a b".to_vec(), clean("a\u{00A0}b".as_bytes()));
    assert_eq!(b"a b".to_vec(), clean("a\u{2003}b".as_bytes()));
    assert_eq!(b"a b c".to_vec(), clean(b"a\x0bb\x0cc"));
}

#[test]
fn clean_deletes_control_characters() {
    assert_eq!(b"ab".to_vec(), clean(b"a\x01b"));
    assert_eq!(b"ab".to_vec(), clean(b"a\x7fb"));
    assert_eq!(b"ab".to_vec(), clean("a\u{009A}b".as_bytes()));
    assert_eq!(b"ab".to_vec(), clean(b"\x00a\x1fb\x07"));
}

#[test]
fn clean_is_idempotent_on_ordinary_logs() {
    let samples: Vec<&[u8]> = vec![
        b"\x1b[31merror\x1b[0m: something\tbroke\x07",
        b"plain text",
        b"  spaced  out  ",
        b"\x1b[12unterminated",
        b"mixed\x01control\x1b[1mand escape",
    ];
    for sample in samples {
        let once = clean(sample);
        let twice = clean(&once);
        assert_eq!(once, twice);
    }
}

#[test]
fn clean_accepts_invalid_utf8() {
    // Invalid UTF-8 passes through untouched where no rule matches.
    assert_eq!(b"\xffa\xfe".to_vec(), clean(b"\xffa\xfe"));
}
