use sqld::framing::{find_delimiter, frame_command, SQL_DELIMITER};

#[test]
fn delimiter_is_the_ascii_semicolon() {
    assert_eq!(SQL_DELIMITER, b';');
    assert_eq!(SQL_DELIMITER, 0x3B);
}

#[test]
fn find_delimiter_reports_first_position() {
    assert_eq!(find_delimiter(b"ab;cd;"), Some(2));
    assert_eq!(find_delimiter(b";"), Some(0));
    assert_eq!(find_delimiter(b"SELECT 1;"), Some(8));
}

#[test]
fn find_delimiter_reports_absence() {
    assert_eq!(find_delimiter(b""), None);
    assert_eq!(find_delimiter(b"abcd"), None);
    assert_eq!(find_delimiter(b"SELECT 1"), None);
}

#[test]
fn frame_includes_the_delimiter() {
    assert_eq!(frame_command(b"SELECT 1;"), b"SELECT 1;".to_vec());
}

#[test]
fn frame_stops_at_first_delimiter() {
    assert_eq!(frame_command(b"SELECT 1; SELECT 2;"), b"SELECT 1;".to_vec());
}

#[test]
fn frame_without_delimiter_is_whole_input() {
    assert_eq!(frame_command(b"SELECT 1"), b"SELECT 1".to_vec());
}

#[test]
fn frame_of_empty_input_is_empty() {
    assert_eq!(frame_command(b""), Vec::<u8>::new());
}

#[test]
fn frame_of_leading_delimiter_is_the_delimiter() {
    assert_eq!(frame_command(b";SELECT 1;"), b";".to_vec());
}

#[test]
fn frame_cuts_inside_string_literal() {
    assert_eq!(frame_command(b"SELECT 'a;b';"), b"SELECT 'a;".to_vec());
}

#[test]
fn frame_is_idempotent() {
    let once = frame_command(b"INSERT INTO t VALUES (1); DROP TABLE t;");
    let twice = frame_command(&once);
    assert_eq!(once, twice);
}

#[test]
fn frame_ignores_what_follows_the_delimiter() {
    let head = b"SELECT 1;".to_vec();
    for rest in [&b""[..], &b" SELECT 2;"[..], &b";;;"[..], &b"\xff\xfe"[..]] {
        let mut stream = head.clone();
        stream.extend_from_slice(rest);
        assert_eq!(frame_command(&stream), head);
    }
}

#[test]
fn frame_keeps_bytes_that_are_not_text() {
    assert_eq!(frame_command(b"\xff\x00\x3a;\x3b"), b"\xff\x00\x3a;".to_vec());
}
