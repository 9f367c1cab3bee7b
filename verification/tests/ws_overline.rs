use wsconvert::ws_overline::process;

#[test]
fn ws_overline_test_process() {
    assert_eq!(
        process("See DAC\x08\x08\x08\x14___\x14, RFD\x08\x08\x08\x14___\x14 and DAV"),
        Some("See \x01DAC\x01, \x01RFD\x01 and DAV".to_string())
    );
    assert_eq!(
        process("See DAC\x08?\x08\x14___\x14, RFD\x08\x08\x08\x14___\x14 and DAV"),
        Some("See DAC\x08?\x08\x14___\x14, \x01RFD\x01 and DAV".to_string())
    );
    assert_eq!(process("abcd"), None);
    assert_eq!(process(""), None);
}
