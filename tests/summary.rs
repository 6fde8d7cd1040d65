use url_batch::summary::{report_line, summary_of};

#[test]
fn summary_of_zero() {
    assert_eq!(summary_of(0), b"Length: 0".to_vec());
}

#[test]
fn summary_of_several_digits() {
    assert_eq!(summary_of(1234), b"Length: 1234".to_vec());
    assert_eq!(summary_of(10), b"Length: 10".to_vec());
}

#[test]
fn summary_of_largest_length() {
    let expected = format!("Length: {}", usize::MAX);
    assert_eq!(summary_of(usize::MAX), expected.into_bytes());
}

#[test]
fn report_line_joins_key_and_value() {
    let line = report_line(b"http://ok.test/a", b"Length: 10");
    assert_eq!(line, b"http://ok.test/a -> Length: 10".to_vec());
}

#[test]
fn report_line_of_empty_parts() {
    assert_eq!(report_line(b"", b""), b" -> ".to_vec());
}
