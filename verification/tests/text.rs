use irc_socket::address::parse_port;
use irc_socket::text::{chars_of, decimal_text, joined, same_text, strip_prefix};

#[test]
fn every_port_is_written_and_read_back() {
    let mut port: u16 = 0;
    loop {
        let text = decimal_text(port);
        assert_eq!(text, format!("{}", port));
        assert_eq!(parse_port(&text), Some(port));
        if port == u16::MAX {
            break;
        }
        port += 1;
    }
}

#[test]
fn chars_of_lists_the_characters() {
    assert_eq!(chars_of("a:é"), vec!['a', ':', 'é']);
    assert_eq!(chars_of(""), Vec::<char>::new());
}

#[test]
fn strip_prefix_gives_what_follows() {
    assert_eq!(strip_prefix("ircs://host", "ircs://"), Some("host"));
    assert_eq!(strip_prefix("ircs://", "ircs://"), Some(""));
    assert_eq!(strip_prefix("host", ""), Some("host"));
    assert_eq!(strip_prefix("", ""), Some(""));
    assert_eq!(strip_prefix("", "irc://"), None);
    assert_eq!(strip_prefix("irc:/", "irc://"), None);
    assert_eq!(strip_prefix("irc://host", "ircs://"), None);
    assert_eq!(strip_prefix("éa:b", "é"), Some("a:b"));
    for (text, prefix) in [("ircs://a", "irc"), ("abc", "abd"), ("日本語", "日本"), ("x", "xy")] {
        assert_eq!(strip_prefix(text, prefix), text.strip_prefix(prefix));
    }
}

#[test]
fn joined_is_one_text_after_the_other() {
    assert_eq!(joined("Read error: ", "timed out"), "Read error: timed out");
    assert_eq!(joined("", ""), "");
    assert_eq!(joined("a", ""), "a");
    assert_eq!(joined("", "é"), "é");
}

#[test]
fn same_text_compares_character_by_character() {
    let samples = ["", "a", "ab", "abc", "abd", "b", "é", "e\u{301}", "日本語", "日本", "a\r\n"];
    for left in samples {
        for right in samples {
            assert_eq!(same_text(left, right), left == right, "{:?} and {:?}", left, right);
        }
    }
}
