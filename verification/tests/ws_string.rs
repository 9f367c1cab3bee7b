use wsconvert::ws_string::{
    contains_only_char, contains_only_print, len_in_chars, split_first_three, split_last_three,
    split_last_two, split_space_at_ends,
};

#[test]
fn ws_string_test_len_in_chars() {
    assert_eq!(len_in_chars("ab£d¬f"), 6);
    assert_eq!(len_in_chars(""), 0);
}

#[test]
fn ws_string_test_contains_only_char() {
    assert_eq!(contains_only_char("aaaa", 'a'), true);
    assert_eq!(contains_only_char("aaba", 'a'), false);
    assert_eq!(contains_only_char("", 'a'), true);
}

#[test]
fn ws_string_test_contains_only_print() {
    assert_eq!(contains_only_print("normal text"), true);
    assert_eq!(contains_only_print("bro\x08ken text"), false);
    assert_eq!(contains_only_print(""), true);
}

#[test]
fn ws_string_test_split_first_three() {
    assert_eq!(
        split_first_three("ab¬/cd/e£f/g", '/'),
        Some(("ab¬", "cd", "e£f/g"))
    );
    assert_eq!(split_first_three("//ab¬/cd", '/'), Some(("", "", "ab¬/cd")));
    assert_eq!(split_first_three("ab¬/cd", '/'), None);
    assert_eq!(split_first_three("abcd", '/'), None);
    assert_eq!(split_first_three("", '/'), None);
}

#[test]
fn ws_string_test_split_last_two() {
    assert_eq!(
        split_last_two("ab¬/cd/e£f/g", 4),
        Some(("ab¬/cd/e", "£f/g"))
    );
    assert_eq!(split_last_two("//ab¬/cd", 4), Some(("//ab", "¬/cd")));
    assert_eq!(split_last_two("ab¬/cd", 8), None);
    assert_eq!(split_last_two("", 1), None);
}

#[test]
fn ws_string_test_split_last_three() {
    assert_eq!(
        split_last_three("ab¬/cd/e£f/g", 4),
        Some(("ab¬/", "cd/e", "£f/g"))
    );
    assert_eq!(split_last_three("//ab¬/cd", 4), Some(("", "//ab", "¬/cd")));
    assert_eq!(split_last_three("ab¬/cd", 4), None);
    assert_eq!(split_last_three("", 1), None);
}

#[test]
fn test_split_space_at_ends() {
    assert_eq!(
        split_space_at_ends("  abc¬ def  gh "),
        ("  ", "abc¬ def  gh", " ",)
    );
    assert_eq!(split_space_at_ends("   "), ("   ", "", ""));
    assert_eq!(split_space_at_ends("abc"), ("", "abc", ""));
    assert_eq!(split_space_at_ends(""), ("", "", ""));
}
