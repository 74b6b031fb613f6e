use sd2::diff::generate_diff;

#[test]
fn generate_diff_returns_none_when_equal() {
    assert_eq!(generate_diff(&b"x\n".to_vec(), &b"x\n".to_vec()), None);
}

#[test]
fn generate_diff_shows_insert_and_delete_markers() {
    let d = generate_diff(&b"a\n".to_vec(), &b"b\n".to_vec()).unwrap();
    let text = String::from_utf8(d).unwrap();
    assert!(text.contains("-a"));
    assert!(text.contains("+b"));
}

#[test]
fn generate_diff_exact_rendering() {
    let d = generate_diff(&b"a\nb\n".to_vec(), &b"a\nc\n".to_vec()).unwrap();
    assert_eq!(&d[..], b" a\n-b\n+c\n");
}

#[test]
fn generate_diff_addition_keeps_common_lines() {
    let d = generate_diff(&b"a\n".to_vec(), &b"a\nb\n".to_vec()).unwrap();
    assert_eq!(&d[..], b" a\n+b\n");
}

#[test]
fn generate_diff_preserves_line_endings() {
    // a line's own terminator bytes ride along with it, CRLF included
    let d = generate_diff(&b"a\r\n".to_vec(), &b"b\r\n".to_vec()).unwrap();
    assert_eq!(&d[..], b"-a\r\n+b\r\n");
}

#[test]
fn generate_diff_last_line_without_newline() {
    let d = generate_diff(&b"a".to_vec(), &b"b".to_vec()).unwrap();
    assert_eq!(&d[..], b"-a+b");
}

#[test]
fn generate_diff_empty_to_content() {
    let d = generate_diff(&b"".to_vec(), &b"x\n".to_vec()).unwrap();
    assert_eq!(&d[..], b"+x\n");
    let d2 = generate_diff(&b"x\n".to_vec(), &b"".to_vec()).unwrap();
    assert_eq!(&d2[..], b"-x\n");
}

#[test]
fn generate_diff_covers_both_inputs() {
    // every line of both inputs appears: removed lines are exactly the old
    // lines not kept, added lines the complement in the new buffer
    let old = b"one\ntwo\nthree\n".to_vec();
    let new = b"one\n2\nthree\nfour\n".to_vec();
    let d = generate_diff(&old, &new).unwrap();
    assert_eq!(&d[..], b" one\n-two\n+2\n three\n+four\n");
}
