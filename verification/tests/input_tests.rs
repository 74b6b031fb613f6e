use sd2::input::{
    parse_nul_paths, parse_path_lines, resolve_input_mode, rg_begin_paths, sort_dedup_paths,
    ApplyArgs, InputMode, RgMessage, RgPath,
};

fn args() -> ApplyArgs {
    ApplyArgs {
        files: vec!["a.txt".to_string(), "b.txt".to_string()],
        stdin_paths: false,
        files0: false,
        stdin_text: false,
        rg_json: false,
    }
}

#[test]
fn resolve_input_mode_defaults_to_given_files() {
    match resolve_input_mode(&args()) {
        InputMode::Auto(files) => assert_eq!(files, vec!["a.txt".to_string(), "b.txt".to_string()]),
        _ => panic!("expected the direct-paths mode"),
    }
}

#[test]
fn resolve_input_mode_priorities() {
    let mut a = args();
    a.stdin_paths = true;
    assert!(matches!(resolve_input_mode(&a), InputMode::StdinPathsNewline));
    a.files0 = true;
    assert!(matches!(resolve_input_mode(&a), InputMode::StdinPathsNul));
    a.rg_json = true;
    assert!(matches!(resolve_input_mode(&a), InputMode::RipgrepJson));
    a.stdin_text = true;
    assert!(matches!(resolve_input_mode(&a), InputMode::StdinText));
}

#[test]
fn parse_path_lines_trims_and_drops_blanks() {
    let data = b"  a.txt \n\n\tb.txt\nc".to_vec();
    let parts = parse_path_lines(&data);
    assert_eq!(parts, vec![b"a.txt".to_vec(), b"b.txt".to_vec(), b"c".to_vec()]);
}

#[test]
fn parse_path_lines_all_blank_is_empty() {
    assert!(parse_path_lines(&b" \n\t\n".to_vec()).is_empty());
    assert!(parse_path_lines(&b"".to_vec()).is_empty());
}

#[test]
fn parse_nul_paths_splits_on_nul() {
    let data = b"a\x00\x00b\x00c".to_vec();
    let parts = parse_nul_paths(&data);
    assert_eq!(parts, vec![b"a".to_vec(), b"b".to_vec(), b"c".to_vec()]);
}

#[test]
fn rg_begin_paths_keeps_stream_order() {
    let msgs = vec![
        RgMessage::Begin { path: RgPath { text: "b.rs".to_string() } },
        RgMessage::Begin { path: RgPath { text: "a.rs".to_string() } },
    ];
    assert_eq!(rg_begin_paths(&msgs), vec!["b.rs".to_string(), "a.rs".to_string()]);
}

#[test]
fn sort_dedup_paths_orders_and_removes_duplicates() {
    let paths = vec![
        "b.rs".to_string(),
        "a.rs".to_string(),
        "b.rs".to_string(),
        "a/b.rs".to_string(),
    ];
    let out = sort_dedup_paths(paths);
    assert_eq!(out, vec!["a.rs".to_string(), "a/b.rs".to_string(), "b.rs".to_string()]);
}

#[test]
fn sort_dedup_paths_empty_and_singleton() {
    assert!(sort_dedup_paths(Vec::new()).is_empty());
    assert_eq!(sort_dedup_paths(vec!["x".to_string()]), vec!["x".to_string()]);
}
