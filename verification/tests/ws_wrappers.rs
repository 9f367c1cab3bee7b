use wsconvert::ws_wrappers::Wrappers;

#[test]
fn test_emphasis() {
    let mut w = Wrappers::new();
    // bold, double, italic
    assert_eq!(w.process("\x02C\x02"), Some("\u{1D402}".to_string()));
    assert_eq!(w.process("\x19C\x19"), Some("\u{1D436}".to_string()));
    assert_eq!(w.process("\x04C\x04"), Some("\u{1D402}".to_string()));
}

#[test]
fn test_sub_super() {
    let mut w = Wrappers::new();
    // sub/superscript
    assert_eq!(w.process("r\x16s\x16t"), Some("r\u{209B}t".to_string()));
    assert_eq!(w.process("r\x14s\x14t"), Some("r\u{02E2}t".to_string()));
}

#[test]
fn test_lines() {
    let mut w = Wrappers::new();
    // lines
    assert_eq!(
        w.process("\x13a b\x13"),
        Some("a\u{0332} \u{0332}b\u{0332}".to_string())
    );
    assert_eq!(
        w.process("\x01a b\x01"),
        Some("a\u{0305} \u{0305}b\u{0305}".to_string())
    );
    assert_eq!(
        w.process("\x18a b\x18"),
        Some("a\u{0336} \u{0336}b\u{0336}".to_string())
    );
}

#[test]
fn test_comb_emphasis() {
    let mut w = Wrappers::new();
    // combinations of bold, double, italic
    assert_eq!(
        w.process("\x02\x19C\x19\x02"),
        Some("\u{1D46A}".to_string())
    );
    assert_eq!(w.process("a\x02b\x02c"), Some("a\u{1D41B}c".to_string()));
    assert_eq!(
        w.process("\x02a\x04b\x02c\x04"),
        Some("\u{1D41A}b\u{1D41C}".to_string())
    );
}

#[test]
fn test_comb_lines() {
    let mut w = Wrappers::new();
    // combinations of lines
    assert_eq!(
        w.process("\x13a\x18b\x13\x18"),
        Some("a\u{0332}b\u{0332}\u{0336}".to_string())
    );
    assert_eq!(
        w.process("\x01\x18\x13T\x13\x18\x01"),
        Some("T\u{0332}\u{0305}\u{0336}".to_string())
    );
    assert_eq!(
        w.process("\x18a \x13b\x18\x13"),
        Some("a\u{0336} \u{0336}b\u{0332}\u{0336}".to_string())
    );
}

#[test]
fn test_competing() {
    let mut w = Wrappers::new();
    // competing cases
    assert_eq!(
        w.process("\x13\x16a\x16\x13"),
        Some("a\u{0332}".to_string())
    );
    assert_eq!(
        w.process("\x16a\x13b\x13c\x16"),
        Some("\u{2090}b\u{0332}c".to_string())
    );
    assert_eq!(w.process("\x14\x02T\x02\x14"), Some("\u{1D40}".to_string()));
    assert_eq!(
        w.process("\x02x\x142\x14\x02"),
        Some("\u{1D431}\u{00B2}".to_string())
    );
}

#[test]
fn test_null() {
    let mut w = Wrappers::new();
    // null cases
    assert_eq!(w.process("abc"), None);
    assert_eq!(w.process(""), None);
}
