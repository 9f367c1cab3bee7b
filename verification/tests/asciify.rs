use wsconvert::asciify::{convert_chunk, EOF_BYTE};

#[test]
fn check_simple() {
    let mut buf = [0x7E, 0x7F, 0x80, 0x81, 0x82];
    assert_eq!(convert_chunk(&mut buf), [0x7E, 0x7F, 0x00, 0x01, 0x02]);
}

#[test]
fn check_slice() {
    let mut buf = [0x41, 0xC2, 0x43, 0xC4, 0x45];
    assert_eq!(convert_chunk(&mut buf[..2]), [0x41, 0x42]);
}

#[test]
fn check_eof_first() {
    let mut buf = [EOF_BYTE, 0xC2, 0x43, 0xC4, 0x45];
    assert_eq!(convert_chunk(&mut buf), []);
}

#[test]
fn check_eof_middle() {
    let mut buf = [0x41, 0xC2, 0x43, EOF_BYTE, 0x45];
    assert_eq!(convert_chunk(&mut buf), [0x41, 0x42, 0x43]);
}

#[test]
fn check_eof_last() {
    let mut buf = [0x41, 0xC2, 0x43, 0xC4, EOF_BYTE];
    assert_eq!(convert_chunk(&mut buf), [0x41, 0x42, 0x43, 0x44]);
}

#[test]
fn check_empty() {
    let mut buf = [];
    println!("{:?}", buf);
    assert_eq!(convert_chunk(&mut buf), []);
}
