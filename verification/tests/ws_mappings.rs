use wsconvert::ws_mappings::{
    get_bold, get_bold_italic, get_italic, get_subscript, get_superscript,
};

#[test]
fn test_get_bold() {
    assert_eq!(get_bold('m'), Some('\u{1D426}'));
    assert_eq!(get_bold('H'), Some('\u{1D407}'));
    assert_eq!(get_bold('&'), None);
}

#[test]
fn test_get_italic() {
    assert_eq!(get_italic('m'), Some('\u{1D45A}'));
    assert_eq!(get_italic('H'), Some('\u{1D43B}'));
    assert_eq!(get_italic('&'), None);
}

#[test]
fn test_get_bold_italic() {
    assert_eq!(get_bold_italic('m'), Some('\u{1D48E}'));
    assert_eq!(get_bold_italic('H'), Some('\u{1D46F}'));
    assert_eq!(get_bold_italic('&'), None);
}

#[test]
fn test_get_subscript() {
    assert_eq!(get_subscript('m'), Some('\u{2098}'));
    assert_eq!(get_subscript('7'), Some('\u{2087}'));
    assert_eq!(get_subscript('&'), None);
}

#[test]
fn test_get_superscript() {
    assert_eq!(get_superscript('m'), Some('\u{1D50}'));
    assert_eq!(get_superscript('7'), Some('\u{2077}'));
    assert_eq!(get_superscript('&'), None);
}
