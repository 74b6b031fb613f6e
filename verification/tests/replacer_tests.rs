use sd2::replacer::Replacer;

#[test]
fn test_basic_replacement() {
    let replacer = Replacer::new(
        "foo", "bar", false, // fixed_strings: treated as a regex pattern
        false, // ignore_case
        false, // smart_case
        true,  // case_sensitive
        false, // word_regexp
        false, // multiline
        false, // single_line
        false, // dot_matches_newline
        false, // no_unicode
        false, // crlf
        0,     // max_replacements
    )
    .unwrap();
    let input = b"foo baz foo".to_vec();
    let output = replacer.replace_with_count(&input).0;
    assert_eq!(&output[..], b"bar baz bar");
}

#[test]
fn test_literal_replacement_optimized() {
    // fixed_strings = true selects the literal matcher
    let replacer = Replacer::new(
        "foo", "bar", true, false, false, true, false, false, false, false, false, false, 0,
    )
    .unwrap();
    let input = b"foo baz foo".to_vec();
    let output = replacer.replace_with_count(&input).0;
    assert_eq!(&output[..], b"bar baz bar");
}

#[test]
fn test_capture_group_no_expand() {
    // replacement is inserted verbatim, no capture expansion
    let replacer = Replacer::new(
        r"(\d+)",
        "number-$1",
        false,
        false,
        false,
        true,
        false,
        false,
        false,
        false,
        false,
        false,
        0,
    )
    .unwrap();
    let input = b"abc 123 def".to_vec();
    let output = replacer.replace_with_count(&input).0;
    assert_eq!(&output[..], b"abc number-$1 def");
}

#[test]
fn test_max_replacements() {
    let replacer = Replacer::new(
        "x", "y", false, false, false, true, false, false, false, false, false, false, 2,
    )
    .unwrap();
    let input = b"x x x x".to_vec();
    let output = replacer.replace_with_count(&input).0;
    assert_eq!(&output[..], b"y y x x");
}

#[test]
fn test_zero_matches_returns_input_unchanged() {
    let replacer = Replacer::new(
        "zzz", "yyy", true, false, false, true, false, false, false, false, false, false, 0,
    )
    .unwrap();
    let input = b"abc".to_vec();
    let (out, count) = replacer.replace_with_count(&input);
    assert_eq!(out, input);
    assert_eq!(count, 0);
}

#[test]
fn test_count_matches_non_overlapping() {
    let replacer = Replacer::new(
        "aa", "b", true, false, false, true, false, false, false, false, false, false, 0,
    )
    .unwrap();
    assert_eq!(replacer.count_matches(&b"aaaa".to_vec()), 2);
    assert_eq!(replacer.count_matches(&b"aaa".to_vec()), 1);
    assert_eq!(replacer.count_matches(&b"".to_vec()), 0);
}

#[test]
fn test_empty_pattern_inserts_everywhere() {
    let replacer = Replacer::new(
        "", "-", true, false, false, true, false, false, false, false, false, false, 0,
    )
    .unwrap();
    let (out, count) = replacer.replace_with_count(&b"ab".to_vec());
    assert_eq!(&out[..], b"-a-b-");
    assert_eq!(count, 3);
}

#[test]
fn test_replace_idempotent_when_replacement_has_no_match() {
    // when the replacement text cannot match the pattern, a second run
    // finds nothing and returns its input unchanged with count 0
    let replacer = Replacer::new(
        "a", "b", true, false, false, true, false, false, false, false, false, false, 0,
    )
    .unwrap();
    let (first, c1) = replacer.replace_with_count(&b"aa".to_vec());
    assert_eq!(&first[..], b"bb");
    assert_eq!(c1, 2);
    let (second, c2) = replacer.replace_with_count(&first);
    assert_eq!(second, first);
    assert_eq!(c2, 0);
}

#[test]
fn test_replace_twice_can_rematch() {
    // replacement is lossy and a second run may find new matches that the
    // first run created across boundaries
    let replacer = Replacer::new(
        "ab", "b", true, false, false, true, false, false, false, false, false, false, 0,
    )
    .unwrap();
    let (first, c1) = replacer.replace_with_count(&b"aab".to_vec());
    assert_eq!(&first[..], b"ab");
    assert_eq!(c1, 1);
    let (second, c2) = replacer.replace_with_count(&first);
    assert_eq!(&second[..], b"b");
    assert_eq!(c2, 1);
}

#[test]
fn test_cap_preserves_tail_after_kth_match() {
    // cap = 2 with 4 matches: the buffer past the second match is
    // byte-identical to the original past that point
    let replacer = Replacer::new(
        "x", "yy", true, false, false, true, false, false, false, false, false, false, 2,
    )
    .unwrap();
    let input = b"x_x_x_x_tail".to_vec();
    let (out, count) = replacer.replace_with_count(&input);
    assert_eq!(count, 2);
    assert_eq!(&out[..], b"yy_yy_x_x_tail");
    // original past the 2nd match (index 2 end = 3): "_x_x_tail"
    assert_eq!(&out[out.len() - 9..], b"_x_x_tail");
    assert_eq!(&input[3..], b"_x_x_tail");
}

#[test]
fn test_unclosed_template_brace_rejected() {
    let r = Replacer::new(
        "a", "oops ${name", true, false, false, true, false, false, false, false, false, false, 0,
    );
    assert!(r.is_err());
    let msg = r.err().unwrap().message().clone();
    assert!(msg.contains("unclosed"));
    // a closed reference passes the pre-check (and is still inserted verbatim)
    let ok = Replacer::new(
        "a", "${name}", true, false, false, true, false, false, false, false, false, false, 0,
    );
    assert!(ok.is_ok());
}

#[test]
fn test_invalid_pattern_rejected() {
    let r = Replacer::new(
        "(unclosed", "x", false, false, false, true, false, false, false, false, false, false, 0,
    );
    assert!(r.is_err());
}

#[test]
fn test_literal_on_compiled_path_escapes() {
    // fixed_strings with ignore_case rides the compiled path; the pattern
    // must still match only the literal text, case-folded
    let replacer = Replacer::new(
        "a.b", "z", true, true, false, false, false, false, false, false, false, false, 0,
    )
    .unwrap();
    let input = b"a.b axb A.B".to_vec();
    let (out, count) = replacer.replace_with_count(&input);
    assert_eq!(&out[..], b"z axb z");
    assert_eq!(count, 2);
}

#[test]
fn test_smart_case() {
    // all-lowercase pattern: case-insensitive
    let lower = Replacer::new(
        "abc", "x", false, false, true, false, false, false, false, false, false, false, 0,
    )
    .unwrap();
    assert_eq!(&lower.replace_with_count(&b"ABC abc".to_vec()).0[..], b"x x");
    // pattern with an uppercase character: case-sensitive
    let mixed = Replacer::new(
        "Abc", "x", false, false, true, false, false, false, false, false, false, false, 0,
    )
    .unwrap();
    assert_eq!(&mixed.replace_with_count(&b"ABC abc Abc".to_vec()).0[..], b"ABC abc x");
}

#[test]
fn test_word_boundary() {
    let replacer = Replacer::new(
        "cat", "dog", true, false, false, true, true, false, false, false, false, false, 0,
    )
    .unwrap();
    let (out, count) = replacer.replace_with_count(&b"cat catalog cat".to_vec());
    assert_eq!(&out[..], b"dog catalog dog");
    assert_eq!(count, 2);
}

#[test]
fn test_multiline_anchor() {
    let replacer = Replacer::new(
        "^b", "B", false, false, false, true, false, true, false, false, false, false, 0,
    )
    .unwrap();
    let (out, count) = replacer.replace_with_count(&b"a\nb\n".to_vec());
    assert_eq!(&out[..], b"a\nB\n");
    assert_eq!(count, 1);
}
