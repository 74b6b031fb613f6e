use sd2::engine::{execute, filter_inputs, process_content_inner};
use sd2::input::InputItem;
use sd2::model::{Operation, Pipeline};

fn pipeline(dry_run: bool, validate_only: bool) -> Pipeline {
    Pipeline { dry_run, validate_only, ..Default::default() }
}

fn replace_op(find: &str, with: &str) -> Operation {
    Operation::Replace {
        find: find.into(),
        with: with.into(),
        literal: true,
        ignore_case: false,
        smart_case: false,
        word: false,
        multiline: false,
        dot_matches_newline: false,
        no_unicode: false,
        limit: 0, // 0 means unlimited
        range: None,
    }
}

#[test]
fn process_content_inner_replaces_and_counts() {
    let p = pipeline(true, false);
    let ops = vec![replace_op("world", "there")];

    let original = b"hello world\n".to_vec();
    let (modified, replacements, diff, new_content) =
        process_content_inner(original.clone(), &ops, &p, None).unwrap();

    assert!(modified);
    assert_eq!(replacements, 1);
    assert_eq!(new_content, b"hello there\n".to_vec());
    assert!(diff.is_some());
}

#[test]
fn process_content_inner_no_change_no_diff() {
    let p = pipeline(true, false);
    let ops = vec![replace_op("zzz", "yyy")];

    let original = b"abc\n".to_vec();
    let (modified, replacements, diff, new_content) =
        process_content_inner(original.clone(), &ops, &p, None).unwrap();

    assert!(!modified);
    assert_eq!(replacements, 0);
    assert_eq!(new_content, original);
    assert!(diff.is_none());
}

#[test]
fn process_content_inner_diff_only_when_dry_run() {
    let p = pipeline(false, false);
    let ops = vec![replace_op("a", "b")];

    let original = b"a\n".to_vec();
    let (_modified, _replacements, diff, _new_content) =
        process_content_inner(original, &ops, &p, None).unwrap();

    assert!(diff.is_none());
}

#[test]
fn process_content_inner_encoding_error() {
    // with unicode disabled, `.` matches a single byte and can split a
    // multi-byte character, leaving invalid UTF-8 behind
    let p = pipeline(true, false);
    let ops = vec![Operation::Replace {
        find: ".".into(),
        with: "X".into(),
        literal: false,
        ignore_case: false,
        smart_case: false,
        word: false,
        multiline: false,
        dot_matches_newline: false,
        no_unicode: true,
        limit: 1,
        range: None,
    }];
    let err = process_content_inner("é".as_bytes().to_vec(), &ops, &p, None).unwrap_err();
    assert!(matches!(err, sd2::Error::Encoding(_)));
    assert!(err.message().contains("Invalid UTF-8"));
}

#[test]
fn process_content_inner_invalid_pattern_is_validation_error() {
    let p = pipeline(true, false);
    let ops = vec![Operation::Replace {
        find: "(".into(),
        with: "x".into(),
        literal: false,
        ignore_case: false,
        smart_case: false,
        word: false,
        multiline: false,
        dot_matches_newline: false,
        no_unicode: false,
        limit: 0,
        range: None,
    }];
    let err = process_content_inner(b"abc".to_vec(), &ops, &p, None).unwrap_err();
    assert!(matches!(err, sd2::Error::Validation(_)));
}

#[test]
fn filter_inputs_include_exclude_paths() {
    let inputs = vec![
        InputItem::Path { path: "src/main.rs".to_string(), content: Ok(vec![]) },
        InputItem::Path { path: "src/lib.rs".to_string(), content: Ok(vec![]) },
        InputItem::Path { path: "README.md".to_string(), content: Ok(vec![]) },
        InputItem::StdinText { text: b"hi".to_vec() },
    ];

    let inc = Some(vec!["src/*.rs".to_string()]);
    let exc = Some(vec!["*lib.rs".to_string()]);

    let out = filter_inputs(inputs, &inc, &exc).unwrap();

    // keeps src/main.rs and stdin; drops src/lib.rs (excluded) and
    // README.md (matches no selection pattern)
    assert_eq!(out.len(), 2);

    let mut got_main = false;
    let mut got_stdin = false;

    for it in out {
        match it {
            InputItem::Path { path, .. } => {
                if path == "src/main.rs" {
                    got_main = true;
                }
            }
            InputItem::StdinText { .. } => got_stdin = true,
        }
    }

    assert!(got_main);
    assert!(got_stdin);
}

#[test]
fn filter_inputs_invalid_glob_is_validation_error() {
    let inputs = vec![InputItem::Path { path: "src/main.rs".to_string(), content: Ok(vec![]) }];
    let inc = Some(vec!["[".to_string()]); // invalid glob
    let err = filter_inputs(inputs, &inc, &None).unwrap_err();
    let msg = err.message().clone();
    assert!(msg.contains("Invalid glob"));
}

#[test]
fn filter_inputs_unbuildable_glob_is_validation_error() {
    // parses fine, but its compiled form exceeds the glob set's size limit
    let big = "?".repeat(1_000_000);
    let inputs = vec![InputItem::Path { path: "src/main.rs".to_string(), content: Ok(vec![]) }];
    let err = filter_inputs(inputs, &Some(vec![big]), &None).unwrap_err();
    assert!(err.message().contains("Failed to build glob set"));
}

#[test]
fn execute_errors_when_no_inputs() {
    let p = pipeline(true, false);
    let err = execute(p, vec![]).unwrap_err();
    assert!(err.message().contains("No input sources specified"));
}

#[test]
fn execute_errors_when_no_operations() {
    let p = pipeline(true, false);
    let err = execute(p, vec![InputItem::StdinText { text: b"x".to_vec() }]).unwrap_err();
    assert!(err.message().contains("No operations specified"));
}

#[test]
fn execute_validate_only_forces_dry_run_and_generates_diff() {
    let mut p = pipeline(false, true);
    p.operations = vec![replace_op("a", "b")];

    let (report, _tm) = execute(p, vec![InputItem::StdinText { text: b"a\n".to_vec() }]).unwrap();

    assert!(!report.files.is_empty());
    let res = &report.files[0];
    assert!(res.diff.is_some());
}

#[test]
fn execute_validate_only_stages_nothing() {
    let mut p = pipeline(false, true);
    p.operations = vec![replace_op("a", "b")];
    let inputs = vec![
        InputItem::Path { path: "f.txt".to_string(), content: Ok(b"a\n".to_vec()) },
        InputItem::Path { path: "g.txt".to_string(), content: Ok(b"aa\n".to_vec()) },
    ];
    let (report, tm) = execute(p, inputs).unwrap();
    assert!(report.dry_run);
    assert_eq!(report.files.len(), 2);
    for fr in &report.files {
        assert!(fr.modified);
        let d = fr.diff.as_ref().unwrap();
        assert!(!d.is_empty());
    }
    // zero filesystem mutation: the write plan is empty
    assert!(tm.commit().is_empty());
}

#[test]
fn execute_live_run_stages_write() {
    let mut p = pipeline(false, false);
    p.operations = vec![replace_op("a", "b")];
    let inputs = vec![InputItem::Path { path: "f.txt".to_string(), content: Ok(b"a\n".to_vec()) }];
    let (report, tm) = execute(p, inputs).unwrap();
    assert_eq!(report.files.len(), 1);
    assert!(report.files[0].modified);
    assert!(report.files[0].diff.is_none()); // diffs belong to dry runs
    let plan = tm.commit();
    assert_eq!(plan.len(), 1);
    assert_eq!(plan[0].path, "f.txt");
    assert_eq!(plan[0].content, b"b\n".to_vec());
}

#[test]
fn execute_fail_fast_on_read_error() {
    let mut p = pipeline(true, false);
    p.operations = vec![replace_op("a", "b")];
    let inputs = vec![
        InputItem::Path { path: "bad.txt".to_string(), content: Err("boom".to_string()) },
        InputItem::Path { path: "good.txt".to_string(), content: Ok(b"a".to_vec()) },
    ];
    let (report, _tm) = execute(p, inputs).unwrap();
    // fail-fast: the second item is left unrepresented
    assert_eq!(report.files.len(), 1);
    assert_eq!(report.files[0].error.as_deref(), Some("boom"));
    assert!(!report.files[0].modified);
}

#[test]
fn execute_text_passthrough_on_live_run() {
    let mut p = pipeline(false, false);
    p.operations = vec![replace_op("zzz", "yyy")];
    let (report, tm) =
        execute(p, vec![InputItem::StdinText { text: b"abc\n".to_vec() }]).unwrap();
    // unmodified text is re-emitted verbatim on live runs
    let fr = &report.files[0];
    assert!(!fr.modified);
    assert_eq!(fr.content.as_deref(), Some(&b"abc\n"[..]));
    assert!(tm.commit().is_empty());
}
