use wsconvert::control_count::ControlCount;

#[test]
fn test_simple() {
    let mut counts = ControlCount::new("Counts".to_string());
    counts.up('\x03');
    assert_eq!(counts.get('\x03'), Some(1));
    assert_eq!(counts.get('\x02'), None);
    assert_eq!(counts.get('\x20'), None);
}

#[test]
fn test_multi() {
    let mut counts = ControlCount::new("Counts".to_string());
    counts.up('\x04');
    counts.up('\x04');
    counts.up('\x04');
    assert_eq!(counts.get('\x04'), Some(3));
}

#[test]
fn test_display() {
    let mut counts = ControlCount::new("Counts".to_string());
    counts.up('\x03');
    counts.up('\x08');
    counts.up('\x19');
    counts.up('\x7F');
    counts.up('\x7F');
    counts.up('\x07');
    assert_eq!(
        counts.to_string(),
        "Counts: [03]=1, [07]=1, [08]=1, [19]=1, [7F]=2 => 6 chars, 5 types"
    );
}

#[test]
fn test_scan() {
    let mut counts = ControlCount::new("name".to_string());
    counts.scan("a'\x07bc\x14de'\x07f");
    assert_eq!(counts.get('\x07'), Some(2));
    assert_eq!(counts.get('\x14'), Some(1));
}

#[test]
fn test_bins() {
    let mut counts = ControlCount::new("name".to_string());
    counts.scan("A\x14BC\x14DE\x15F");
    assert_eq!(counts.bins(), 2);
}

#[test]
fn test_total() {
    let mut counts = ControlCount::new("name".to_string());
    counts.scan("A\x14BC\x14DE\x15F");
    assert_eq!(counts.total(), 3);
}
