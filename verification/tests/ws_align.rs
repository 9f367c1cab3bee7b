use wsconvert::ws_align::{align_bothways, align_reverse, process};

#[test]
fn test_align_reverse() {
    assert_eq!(
        align_reverse("a*  bc  *d", '*'), // Two wrappers
        Some(("d  *cb  *a".to_string(), true))
    );
    assert_eq!(
        align_reverse("a*  bc  d", '*'), // One wrapper
        None
    );
    assert_eq!(
        align_reverse("a  bc  d", '*'), // No wrappers
        Some(("d  cb  a".to_string(), false))
    );
    assert_eq!(
        align_reverse("a * bc * *d", '*'), // Three wrappers
        None
    );
    assert_eq!(
        align_reverse("*a * bc * *d", '*'), // Four wrappers
        Some(("d ** cb  *a*".to_string(), true))
    );
    assert_eq!(
        align_reverse("abcd", '*'),
        Some(("dcba".to_string(), false))
    );
    assert_eq!(align_reverse("", '*'), Some(("".to_string(), false)));
}

#[test]
fn test_align_bothways() {
    assert_eq!(
        align_bothways("a*  bc  *d", '*'), // Two wrappers
        Some("a  *bc*  d".to_string())
    );
    assert_eq!(align_bothways("a*  bc  d", '*'), None); // One wrapper
    assert_eq!(align_bothways("a  *bc  d", '*'), None); // One wrapper
    assert_eq!(align_bothways("a  bc  d", '*'), None); // No wrappers
    assert_eq!(
        align_bothways("a* bc d* e", '*'), // Two wrappers
        Some("a *bc d* e".to_string())
    );
    assert_eq!(
        align_bothways("a *bc d *e", '*'), // Two wrappers
        Some("a *bc d* e".to_string())
    );
    assert_eq!(
        align_bothways("a * bc * *d", '*'), // Three wrappers
        None
    );
    assert_eq!(
        align_bothways("*a * bc * *d", '*'), // Four wrappers
        Some("*a*  bc ** d".to_string())
    );
    assert_eq!(align_bothways("abcd", '*'), None);
    assert_eq!(align_bothways("", '*'), None);
}

#[test]
fn ws_align_test_process() {
    assert_eq!(
        process("\x13  abc  \x13"),
        Some("  \x13abc\x13  ".to_string())
    );
    assert_eq!(
        process(" \x18 abc \x18 "),
        Some("  \x18abc\x18  ".to_string())
    );
    assert_eq!(
        process("\x18\x13  abc  \x13\x18"),
        Some("  \x18\x13abc\x13\x18  ".to_string())
    );
    assert_eq!(
        process(" \x18  \x13 abc \x01 def \x13 \x01\x18"),
        Some("    \x18\x13abc  \x01def\x13\x01\x18  ".to_string())
    );
    assert_eq!(process("abcd"), None);
    assert_eq!(process(""), None);
}
