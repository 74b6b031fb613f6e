use sd2::transaction::{StagedEntry, TransactionManager};

/// A tiny in-memory stand-in for the targets a caller would write to.
fn apply_plan(targets: &mut Vec<(String, Vec<u8>)>, plan: Vec<StagedEntry>) {
    for entry in plan {
        for t in targets.iter_mut() {
            if t.0 == entry.path {
                t.1 = entry.content.clone();
            }
        }
    }
}

#[test]
fn discarded_manager_leaves_targets_untouched() {
    // staging two entries and then dropping the manager without committing
    // produces no write plan: both originals stay byte-identical
    let mut targets = vec![
        ("a.txt".to_string(), b"one".to_vec()),
        ("b.txt".to_string(), b"two".to_vec()),
    ];
    let before = targets.clone();

    let mut tm = TransactionManager::new();
    tm.stage(StagedEntry {
        path: "a.txt".to_string(),
        content: b"ONE".to_vec(),
        follow_symlinks: false,
    });
    tm.stage(StagedEntry {
        path: "b.txt".to_string(),
        content: b"TWO".to_vec(),
        follow_symlinks: false,
    });
    drop(tm);

    assert_eq!(targets, before);
    // and nothing later can apply a plan that was never produced
    apply_plan(&mut targets, Vec::new());
    assert_eq!(targets, before);
}

#[test]
fn commit_returns_plan_in_staging_order() {
    let mut tm = TransactionManager::new();
    tm.stage(StagedEntry {
        path: "first".to_string(),
        content: b"1".to_vec(),
        follow_symlinks: true,
    });
    tm.stage(StagedEntry {
        path: "second".to_string(),
        content: b"2".to_vec(),
        follow_symlinks: false,
    });
    let plan = tm.commit();
    assert_eq!(plan.len(), 2);
    assert_eq!(plan[0].path, "first");
    assert!(plan[0].follow_symlinks);
    assert_eq!(plan[1].path, "second");
    assert!(!plan[1].follow_symlinks);
}

#[test]
fn committed_plan_applies_every_entry() {
    let mut targets = vec![
        ("a.txt".to_string(), b"one".to_vec()),
        ("b.txt".to_string(), b"two".to_vec()),
    ];
    let mut tm = TransactionManager::new();
    tm.stage(StagedEntry {
        path: "a.txt".to_string(),
        content: b"ONE".to_vec(),
        follow_symlinks: false,
    });
    tm.stage(StagedEntry {
        path: "b.txt".to_string(),
        content: b"TWO".to_vec(),
        follow_symlinks: false,
    });
    apply_plan(&mut targets, tm.commit());
    assert_eq!(targets[0].1, b"ONE".to_vec());
    assert_eq!(targets[1].1, b"TWO".to_vec());
}
