use rust_irc::wire::{registration_lines, wire_line};

#[test]
fn registration_writes_user_then_nick() {
    let lines = registration_lines("alice");
    assert_eq!(lines.len(), 2);
    assert_eq!(lines[0], b"USER alice * * alice\r\n".to_vec());
    assert_eq!(lines[1], b"NICK alice\r\n".to_vec());
}

#[test]
fn wire_lines_are_crlf_terminated() {
    assert_eq!(wire_line("QUIT", b""), b"QUIT \r\n".to_vec());
    assert_eq!(wire_line("JOIN", b"#test"), b"JOIN #test\r\n".to_vec());
}

#[test]
fn extra_testy_test() {
    assert_eq!((2 + 2), 4)
}
