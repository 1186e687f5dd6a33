use irc_socket::framing::{ends_in_crlf, frame, wire_line};

#[test]
fn terminator_is_appended_where_it_is_missing() {
    assert_eq!(frame("PING x".to_string()), "PING x\r\n");
    assert_eq!(frame(String::new()), "\r\n");
}

#[test]
fn terminator_is_not_doubled() {
    assert_eq!(frame("PING x\r\n".to_string()), "PING x\r\n");
    assert_eq!(frame("\r\n".to_string()), "\r\n");
}

#[test]
fn framing_with_and_without_terminator_gives_the_same_bytes() {
    assert_eq!(wire_line("PING x"), wire_line("PING x\r\n"));
    assert_eq!(wire_line("PING x"), b"PING x\r\n".to_vec());
}

#[test]
fn framing_twice_is_framing_once() {
    for data in ["", "a", "\r", "\n", "\r\n", "a\r\n", "a\n\r", "a\r\n\r\n", "NICK é"] {
        let once = frame(data.to_string());
        assert_eq!(frame(once.clone()), once);
        assert!(ends_in_crlf(&once));
        assert!(once.starts_with(data));
    }
}

#[test]
fn half_a_terminator_is_no_terminator() {
    assert_eq!(frame("a\n".to_string()), "a\n\r\n");
    assert_eq!(frame("a\r".to_string()), "a\r\r\n");
    assert_eq!(frame("a\n\r".to_string()), "a\n\r\r\n");
    assert_eq!(frame("\n".to_string()), "\n\r\n");
}

#[test]
fn ends_in_crlf_looks_at_the_last_two_characters() {
    assert!(ends_in_crlf("\r\n"));
    assert!(ends_in_crlf("x\r\n"));
    assert!(ends_in_crlf("\r\n\r\n"));
    assert!(!ends_in_crlf(""));
    assert!(!ends_in_crlf("\n"));
    assert!(!ends_in_crlf("\r"));
    assert!(!ends_in_crlf("\r\nx"));
    assert!(!ends_in_crlf("\n\r"));
}

#[test]
fn wire_bytes_are_utf8() {
    assert_eq!(wire_line("PRIVMSG #c :héllo ☃"), "PRIVMSG #c :héllo ☃\r\n".as_bytes().to_vec());
    assert_eq!(wire_line(""), vec![13u8, 10u8]);
    assert_eq!(wire_line("\r\n"), vec![13u8, 10u8]);
}
