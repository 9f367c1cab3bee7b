use wsconvert::ws_dot_cmd::{check_dot_cmd, make_header, process, strip_control_chars};

#[test]
fn test_check_dot_cmds() {
    assert_eq!(check_dot_cmd(".cw 8"), Some(("cw", Some(" 8"))));
    assert_eq!(check_dot_cmd(".op"), Some(("op", None)));
    assert_eq!(check_dot_cmd(".h4"), Some(("h4", None)));
    assert_eq!(check_dot_cmd(".4h"), None);
    assert_eq!(check_dot_cmd(".h!"), None);
    assert_eq!(check_dot_cmd("abc"), None);
    assert_eq!(check_dot_cmd(""), None);
}

#[test]
fn test_strip_control_chars() {
    let text = "\x08  jdj  \x06df  kf\x08\x08\x08  ";
    assert_eq!(strip_control_chars(text), "  jdj  df  kf  ");
    assert_eq!(strip_control_chars("abc"), "abc");
    assert_eq!(strip_control_chars("\x08\x13"), "");
    assert_eq!(strip_control_chars(""), "");
}

#[test]
fn test_make_header() {
    assert_eq!(make_header("#", Some("hello")), Some("#hello#".to_string()));
    assert_eq!(
        make_header("#", Some("he\x03llo")),
        Some("#hello#".to_string())
    );
    assert_eq!(make_header("#", None), None);
}

#[test]
fn ws_dot_cmd_test_process() {
    let text = ".He \x03 the \x04 words *¬£   \x05  ";
    assert_eq!(process(text), Some("\x13the  words *¬£\x13".to_string()));
    assert_eq!(
        process(".f3 \x13\x14TEST\x13\x14"),
        Some("\x02TEST\x02".to_string())
    );
    assert_eq!(process(".op"), Some("".to_string()));
    assert_eq!(process("abc"), None);
    assert_eq!(process(""), None);
}
