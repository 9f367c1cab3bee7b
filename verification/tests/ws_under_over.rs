use wsconvert::ws_under_over::{
    add_combiner, contains_only_char, contains_only_print, len_in_chars, process_overlines,
    process_underlines, split_first_three, split_last_three, split_last_two, split_wrapped_text,
};

#[test]
fn ws_under_over_test_len_in_chars() {
    assert_eq!(len_in_chars("ab£d¬f"), 6);
    assert_eq!(len_in_chars(""), 0);
}

#[test]
fn ws_under_over_test_contains_only_char() {
    assert_eq!(contains_only_char("aaaa", 'a'), true);
    assert_eq!(contains_only_char("aaba", 'a'), false);
    assert_eq!(contains_only_char("", 'a'), true);
}

#[test]
fn ws_under_over_test_contains_only_print() {
    assert_eq!(contains_only_print("normal text"), true);
    assert_eq!(contains_only_print("bro\x08ken text"), false);
    assert_eq!(contains_only_print(""), true);
}

#[test]
fn ws_under_over_test_split_first_three() {
    assert_eq!(
        split_first_three("ab¬/cd/e£f/g", '/'),
        Some(("ab¬", "cd", "e£f/g"))
    );
    assert_eq!(split_first_three("//ab¬/cd", '/'), Some(("", "", "ab¬/cd")));
    assert_eq!(split_first_three("ab¬/cd", '/'), None);
    assert_eq!(split_first_three("", '/'), None);
}

#[test]
fn ws_under_over_test_split_last_two() {
    assert_eq!(
        split_last_two("ab¬/cd/e£f/g", 4),
        Some(("ab¬/cd/e", "£f/g"))
    );
    assert_eq!(split_last_two("//ab¬/cd", 4), Some(("//ab", "¬/cd")));
    assert_eq!(split_last_two("ab¬/cd", 8), None);
    assert_eq!(split_last_two("", 1), None);
}

#[test]
fn ws_under_over_test_split_last_three() {
    assert_eq!(
        split_last_three("ab¬/cd/e£f/g", 4),
        Some(("ab¬/", "cd/e", "£f/g"))
    );
    assert_eq!(split_last_three("//ab¬/cd", 4), Some(("", "//ab", "¬/cd")));
    assert_eq!(split_last_three("ab¬/cd", 4), None);
    assert_eq!(split_last_three("", 1), None);
}

#[test]
fn test_split_wrapped_text() {
    assert_eq!(
        split_wrapped_text("\x13\x13¬efef\x13wf£wfwbc¬\x13", char::is_ascii_control),
        ("\x13\x13", "¬efef\x13wf£wfwbc¬", "\x13",)
    );
    assert_eq!(
        split_wrapped_text("abc", char::is_ascii_control),
        ("", "abc", "")
    );
    assert_eq!(
        split_wrapped_text("\x13\x02\x13\x02", char::is_ascii_control),
        ("", "", "\x13\x02\x13\x02")
    );
    assert_eq!(split_wrapped_text("", char::is_ascii_control), ("", "", ""));
}

#[test]
fn ws_under_over_test_add_combiner() {
    assert_eq!(add_combiner("abcd", '*'), "a*b*c*d*".to_string());
    assert_eq!(
        add_combiner("a b\x08c\x13d", '*'),
        "a* *b*\x08c*\x13d*".to_string()
    );
    assert_eq!(add_combiner("\x08\x13", '*'), "\x08\x13".to_string());
    assert_eq!(add_combiner("", '*'), "".to_string());
}

#[test]
fn ws_under_over_test_process_underline() {
    assert_eq!(
        process_underlines("Go \x13under\x13 and \x13go again\x13."),
        Some(
            "Go u\u{332}n\u{332}d\u{332}e\u{332}r\u{332} and g\u{332}\
            o\u{332} \u{332}a\u{332}g\u{332}a\u{332}i\u{332}n\u{332}."
                .to_string()
        )
    );
    assert_eq!(
        process_underlines("\x13under\x13"),
        Some("u\u{332}n\u{332}d\u{332}e\u{332}r\u{332}".to_string())
    );
    assert_eq!(
        process_underlines("\x13\x02c\x13\x02"),
        Some("\x02c\u{332}\x02".to_string())
    );
    assert_eq!(
        process_underlines("\x13\x02\x13\x02"),
        Some("\x02\x02".to_string())
    );
    assert_eq!(process_underlines("abcd"), None);
    assert_eq!(process_underlines(""), None);
    assert_eq!(
        process_underlines("\x13\x02  I. INTRO & AIMS\x13\x02"),
        Some(
            "\x02  I\u{332}.\u{332} \u{332}I\u{332}N\u{332}T\u{332}R\u{332}O\u{332} \
            \u{332}&\u{332} \u{332}A\u{332}I\u{332}M\u{332}S\u{332}\x02"
                .to_string()
        )
    );
}

#[test]
fn ws_under_over_test_process_overline() {
    assert_eq!(
        process_overlines("See DAC\x08\x08\x08\x14___\x14, RFD\x08\x08\x08\x14___\x14 and DAV"),
        Some("See D\u{305}A\u{305}C\u{305}, R\u{305}F\u{305}D\u{305} and DAV".to_string())
    );
    assert_eq!(
        process_overlines("See DAC\x08?\x08\x14___\x14, RFD\x08\x08\x08\x14___\x14 and DAV"),
        Some("See DAC\x08?\x08\x14___\x14, R\u{305}F\u{305}D\u{305} and DAV".to_string())
    );
    assert_eq!(process_overlines("abcd"), None);
    assert_eq!(process_overlines(""), None);
}
