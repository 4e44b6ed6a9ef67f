use env_yoink::text::{is_whitespace, slice_span, strip_terminator, trim};

#[test]
fn slice_span_cuts_bytes_out_of_a_line() {
    assert_eq!(slice_span("process.env.KEY;", 12, 15), Some("KEY"));
    assert_eq!(slice_span("abc", 0, 3), Some("abc"));
    assert_eq!(slice_span("abc", 1, 1), Some(""));
    assert_eq!(slice_span("abc", 3, 3), Some(""));
}

#[test]
fn slice_span_counts_bytes_not_characters() {
    // Each of the two letters takes two bytes.
    assert_eq!(slice_span("\u{e9}\u{e8}x", 2, 5), Some("\u{e8}x"));
    assert_eq!(slice_span("\u{e9}\u{e8}x", 0, 2), Some("\u{e9}"));
}

#[test]
fn slice_span_refuses_what_is_no_span() {
    assert_eq!(slice_span("abc", 2, 1), None);
    assert_eq!(slice_span("abc", 0, 4), None);
    assert_eq!(slice_span("abc", 4, 4), None);
    assert_eq!(slice_span("\u{e9}x", 1, 3), None);
    assert_eq!(slice_span("\u{e9}x", 0, 1), None);
}

#[test]
fn trim_takes_white_space_off_both_ends() {
    assert_eq!(trim("  API_KEY \t\r\n"), "API_KEY");
    assert_eq!(trim("API_KEY"), "API_KEY");
    assert_eq!(trim("a b"), "a b");
    assert_eq!(trim("  a b  "), "a b");
}

#[test]
fn trim_of_white_space_is_empty() {
    assert_eq!(trim(""), "");
    assert_eq!(trim(" \n\t "), "");
}

#[test]
fn trim_knows_white_space_beyond_ascii() {
    assert_eq!(trim("\u{3000}\u{a0}NAME\u{2003}"), "NAME");
    assert_eq!(trim("\u{e9}t\u{e9} "), "\u{e9}t\u{e9}");
}

#[test]
fn trim_agrees_with_std() {
    for text in ["", " ", "x", " x", "x ", "\tx y\n", "\u{2028}x\u{85}", "_ _"] {
        assert_eq!(trim(text), text.trim());
    }
}

#[test]
fn white_space_is_what_std_says_it_is() {
    for code in 0..=0x10ffffu32 {
        if let Some(c) = char::from_u32(code) {
            assert_eq!(is_whitespace(c), c.is_whitespace());
        }
    }
}

#[test]
fn white_space_has_its_25_characters() {
    let mut count = 0;
    for code in 0..=0x10ffffu32 {
        if let Some(c) = char::from_u32(code) {
            if is_whitespace(c) {
                count += 1;
            }
        }
    }
    assert_eq!(count, 25);
    assert!(is_whitespace(' '));
    assert!(is_whitespace('\n'));
    assert!(is_whitespace('\u{3000}'));
    assert!(!is_whitespace('_'));
    assert!(!is_whitespace('\u{200b}'));
}

#[test]
fn strip_terminator_takes_one_line_feed_off() {
    assert_eq!(strip_terminator("line\n"), "line");
    assert_eq!(strip_terminator("line"), "line");
    assert_eq!(strip_terminator("line\n\n"), "line\n");
    assert_eq!(strip_terminator("line\r\n"), "line\r");
    assert_eq!(strip_terminator("\n"), "");
    assert_eq!(strip_terminator(""), "");
    assert_eq!(strip_terminator("\u{e9}t\u{e9}\n"), "\u{e9}t\u{e9}");
}
