use wsconvert::ws_special::{process, transform_degrees, transform_fraction};

#[test]
fn test_transform_degrees() {
    assert_eq!(
        transform_degrees("-40\x14o\x14C is -40\x14o\x14F"),
        Some("-40\u{00B0}C is -40\u{00B0}F".to_string())
    );
    assert_eq!(transform_degrees("abcd"), None);
    assert_eq!(transform_degrees(""), None);
}

#[test]
fn test_transform_fraction() {
    assert_eq!(
        transform_fraction(
            "6\x13\x141\x14\x13\x08\x162\x16 has \x13\x141\x14\x13\x08\x162\x16!"
        ),
        Some("6\u{00BD} has \u{00BD}!".to_string())
    );
    assert_eq!(
        transform_fraction(
            "6\x13\x141\x14\x13\x08\x164\x16 or 6\x13\x143\x14\x13\x08\x164\x16"
        ),
        Some("6\u{00BC} or 6\u{00BE}".to_string())
    );
    assert_eq!(
        transform_fraction("\x13\x141\x14\x13\x08\x162\x16"),
        Some("\u{00BD}".to_string())
    );
    assert_eq!(
        transform_fraction("\x13\x143\x14\x13\x08\x162\x16"),
        Some("\u{FFFD}".to_string())
    );
    assert_eq!(transform_fraction("abcd"), None);
    assert_eq!(transform_fraction(""), None);
}

#[test]
fn ws_special_test_process() {
    assert_eq!(
        process("-40\x14o\x14C is -40\x14o\x14F"),
        Some("-40°C is -40°F".to_string())
    );
    assert_eq!(
        process("6\x13\x141\x14\x13\x08\x162\x16 has \x13\x141\x14\x13\x08\x162\x16!"),
        Some("6\u{00BD} has \u{00BD}!".to_string())
    );
    assert_eq!(
        process("6\x13\x141\x14\x13\x08\x164\x16 or 6\x13\x143\x14\x13\x08\x164\x16"),
        Some("6\u{00BC} or 6\u{00BE}".to_string())
    );
    assert_eq!(process("abcd"), None);
    assert_eq!(process(""), None);
}
