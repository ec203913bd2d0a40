use rust_irc::framer::LineFramer;

#[test]
fn one_line_per_line_feed() {
    let mut f = LineFramer::new();
    let lines = f.feed(b"hello\nworld\nthird\n");
    assert_eq!(lines.len(), 3);
    assert_eq!(lines[0], b"hello".to_vec());
    assert_eq!(lines[1], b"world".to_vec());
    assert_eq!(lines[2], b"third".to_vec());
}

#[test]
fn unterminated_tail_is_held_back() {
    let mut f = LineFramer::new();
    let lines = f.feed(b"partial");
    assert_eq!(lines.len(), 0);
    let more = f.feed(b" line\n");
    assert_eq!(more.len(), 1);
    assert_eq!(more[0], b"partial line".to_vec());
}

#[test]
fn control_bytes_are_stripped() {
    let mut f = LineFramer::new();
    let lines = f.feed(b"ab\x01cd\re\n");
    assert_eq!(lines.len(), 1);
    assert_eq!(lines[0], b"abcde".to_vec());
    assert!(!lines[0].contains(&b'\r'));
    assert!(!lines[0].contains(&1u8));
}

#[test]
fn crlf_line_endings() {
    let mut f = LineFramer::new();
    let lines = f.feed(b"first\r\nsecond\r\n");
    assert_eq!(lines.len(), 2);
    assert_eq!(lines[0], b"first".to_vec());
    assert_eq!(lines[1], b"second".to_vec());
}

#[test]
fn empty_lines_are_discarded() {
    let mut f = LineFramer::new();
    let lines = f.feed(b"\n\na\n\nb\n\n");
    assert_eq!(lines.len(), 2);
    assert_eq!(lines[0], b"a".to_vec());
    assert_eq!(lines[1], b"b".to_vec());
}

#[test]
fn overlong_line_is_truncated_at_cap() {
    let mut f = LineFramer::new();
    let mut input = vec![b'x'; 600];
    input.push(b'\n');
    let lines = f.feed(&input);
    assert_eq!(lines.len(), 2);
    assert_eq!(lines[0].len(), 512);
    assert_eq!(lines[1].len(), 88);
}

#[test]
fn skipped_control_bytes_count_toward_the_cap() {
    let mut f = LineFramer::new();
    // 511 raw bytes: 510 content bytes and one carriage return, then one
    // more content byte reaches the 512-byte raw cap and flushes.
    let mut input = vec![b'y'; 510];
    input.push(b'\r');
    input.push(b'z');
    let lines = f.feed(&input);
    assert_eq!(lines.len(), 1);
    assert_eq!(lines[0].len(), 511);
}

#[test]
fn non_text_bytes_are_framed_unchanged() {
    // Framing is byte-level: bytes that are not valid text still form a
    // line, and deciding how to decode them is the caller's concern.
    let mut f = LineFramer::new();
    let lines = f.feed(b"ok\n\xff\xfe\nnext\n");
    assert_eq!(lines.len(), 3);
    assert_eq!(lines[1], vec![0xff, 0xfe]);
    assert!(String::from_utf8(lines[1].clone()).is_err());
}

#[test]
fn byte_at_a_time_matches_chunked() {
    let mut chunked = LineFramer::new();
    let expect = chunked.feed(b"one\ntwo\n");
    let mut single = LineFramer::new();
    let mut got: Vec<Vec<u8>> = Vec::new();
    for b in b"one\ntwo\n" {
        if let Some(line) = single.push_byte(*b) {
            got.push(line);
        }
    }
    assert_eq!(got, expect);
}
