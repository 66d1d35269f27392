use ziro::file::{
    after_delete_failure, classify_deletion_error, collect_files_to_remove, dir_precheck,
    dry_run_removal, find_bulk_root, first_delete_step, format_size, get_error_suggestion,
    is_system_critical_path, lock_gate, order_for_removal, retry_delay_ms, symlink_target_gate,
    validate_paths, DeleteMethod, DeletionError, DirPrecheck, DirProbe, FallbackAction, FileInfo,
    FsTree, IoKind, LockDecision, PlanError, RemovalStatus, RootRequest, RootState,
};

fn path(parts: &[&str]) -> Vec<String> {
    parts.iter().map(|p| p.to_string()).collect()
}

fn leaf(name: &str, size: u64) -> FsTree {
    FsTree::Leaf { name: name.to_string(), size }
}

#[test]
fn test_validate_paths_refuses_root() {
    let roots = vec![path(&["/"])];
    let paths = vec![path(&["/", "tmp", "x"]), path(&["/"])];
    match validate_paths(&paths, &roots) {
        Err(PlanError::CriticalPath { path: p }) => assert_eq!(p, path(&["/"])),
        _ => panic!("expected the protected root to be refused"),
    }
    let safe = vec![path(&["/", "tmp", "x"])];
    assert!(validate_paths(&safe, &roots).is_ok());
}

#[test]
fn test_critical_path_is_exact_match() {
    let roots = vec![path(&["/"])];
    assert!(is_system_critical_path(&path(&["/"]), &roots));
    assert!(!is_system_critical_path(&path(&["/", "home"]), &roots));
}

#[test]
fn test_collect_missing_root_fails() {
    let roots = vec![RootRequest { path: path(&["gone.txt"]), state: RootState::Missing }];
    match collect_files_to_remove(&roots, false) {
        Err(PlanError::NotFound { path: p }) => assert_eq!(p, path(&["gone.txt"])),
        _ => panic!("expected a not-found refusal"),
    }
}

#[test]
fn test_collect_nonempty_dir_needs_recursive() {
    let tree = FsTree::Dir { name: "build".to_string(), children: vec![leaf("a.txt", 1)] };
    let roots = vec![RootRequest { path: path(&["build"]), state: RootState::Present { tree } }];
    match collect_files_to_remove(&roots, false) {
        Err(PlanError::NeedsRecursive { path: p }) => assert_eq!(p, path(&["build"])),
        _ => panic!("expected the recursive flag to be demanded"),
    }
}

#[test]
fn test_collect_empty_dir_without_recursive_is_allowed() {
    let tree = FsTree::Dir { name: "empty".to_string(), children: Vec::new() };
    let roots = vec![RootRequest { path: path(&["empty"]), state: RootState::Present { tree } }];
    let plan = collect_files_to_remove(&roots, false).unwrap();
    assert_eq!(plan.len(), 1);
    assert!(plan[0].is_dir);
    assert_eq!(plan[0].path, path(&["empty"]));
}

#[test]
fn test_collect_lists_children_before_parent() {
    let tree = FsTree::Dir {
        name: "build".to_string(),
        children: vec![
            leaf("a.txt", 10),
            FsTree::Dir { name: "sub".to_string(), children: vec![leaf("b.txt", 20)] },
        ],
    };
    let roots = vec![RootRequest { path: path(&["build"]), state: RootState::Present { tree } }];
    let plan = collect_files_to_remove(&roots, true).unwrap();
    let paths: Vec<Vec<String>> = plan.iter().map(|f| f.path.clone()).collect();
    assert_eq!(
        paths,
        vec![
            path(&["build", "a.txt"]),
            path(&["build", "sub", "b.txt"]),
            path(&["build", "sub"]),
            path(&["build"]),
        ]
    );
    assert!(!plan[0].is_dir && !plan[1].is_dir && plan[2].is_dir && plan[3].is_dir);
}

#[test]
fn test_collect_skips_symlink_cycle() {
    let tree = FsTree::Dir {
        name: "d".to_string(),
        children: vec![
            FsTree::Link { name: "up".to_string(), size: 0, target: Some(path(&["d"])) },
            FsTree::Link {
                name: "out".to_string(),
                size: 0,
                target: Some(path(&["elsewhere"])),
            },
        ],
    };
    let roots = vec![RootRequest { path: path(&["d"]), state: RootState::Present { tree } }];
    let plan = collect_files_to_remove(&roots, true).unwrap();
    let paths: Vec<Vec<String>> = plan.iter().map(|f| f.path.clone()).collect();
    assert_eq!(paths, vec![path(&["d", "out"]), path(&["d"])]);
    assert!(plan[0].is_symlink);
}

#[test]
fn test_order_files_first_then_deep_dirs() {
    let entries = vec![
        FileInfo { path: path(&["a"]), is_dir: true, size: 0, is_symlink: false },
        FileInfo { path: path(&["a", "b.txt"]), is_dir: false, size: 1, is_symlink: false },
        FileInfo { path: path(&["a", "c"]), is_dir: true, size: 0, is_symlink: false },
        FileInfo { path: path(&["a", "c", "d.txt"]), is_dir: false, size: 2, is_symlink: false },
    ];
    let ordered = order_for_removal(entries);
    let paths: Vec<Vec<String>> = ordered.iter().map(|f| f.path.clone()).collect();
    assert_eq!(
        paths,
        vec![path(&["a", "c", "d.txt"]), path(&["a", "b.txt"]), path(&["a", "c"]), path(&["a"])]
    );
}

#[test]
fn test_dry_run_reports_every_entry_hypothetically() {
    let tree = FsTree::Dir {
        name: "build".to_string(),
        children: vec![
            leaf("a.txt", 1),
            leaf("b.txt", 2),
            leaf("c.txt", 3),
            FsTree::Dir { name: "sub".to_string(), children: Vec::new() },
        ],
    };
    let roots = vec![RootRequest { path: path(&["build"]), state: RootState::Present { tree } }];
    let plan = collect_files_to_remove(&roots, true).unwrap();
    assert_eq!(plan.len(), 5);
    let outcomes = dry_run_removal(plan);
    assert_eq!(outcomes.len(), 5);
    for o in &outcomes {
        assert!(matches!(o.status, RemovalStatus::WouldRemove));
    }
}

#[test]
fn test_locked_file_without_force_fails_locked() {
    let p = path(&["work", "app.log"]);
    match lock_gate(&p, true, false, None, 1) {
        LockDecision::Fail { error: DeletionError::FileLocked { path: q } } => {
            assert_eq!(q, p);
        },
        _ => panic!("expected an immediate locked failure"),
    }
}

#[test]
fn test_locked_with_force_and_holders_kills() {
    let p = path(&["work", "app.log"]);
    let holders: Vec<u32> = vec![321];
    match lock_gate(&p, true, true, Some(&holders), 1) {
        LockDecision::KillHoldersThenRetry => {},
        _ => panic!("expected the holders to be terminated"),
    }
}

#[test]
fn test_locked_with_force_but_unidentifiable_fails_distinctly() {
    let p = path(&["work", "app.log"]);
    let holders: Vec<u32> = Vec::new();
    match lock_gate(&p, true, true, Some(&holders), 1) {
        LockDecision::Fail { error: DeletionError::LockedUnidentifiable { path: q } } => {
            assert_eq!(q, p);
        },
        _ => panic!("expected the distinct locked-but-unidentifiable failure"),
    }
}

#[test]
fn test_unlocked_proceeds() {
    let p = path(&["work", "app.log"]);
    assert!(matches!(lock_gate(&p, false, false, None, 1), LockDecision::Proceed));
}

#[test]
fn test_retry_schedule_is_bounded_and_linear() {
    assert_eq!(retry_delay_ms(1), Some(1000));
    assert_eq!(retry_delay_ms(2), Some(2000));
    assert_eq!(retry_delay_ms(3), None);
}

#[test]
fn test_classify_deletion_error() {
    let p = path(&["x"]);
    assert!(matches!(
        classify_deletion_error(&p, IoKind::Other, Some(32), true, String::new()),
        DeletionError::FileLocked { .. }
    ));
    assert!(matches!(
        classify_deletion_error(&p, IoKind::Other, Some(5), true, String::new()),
        DeletionError::PermissionDenied { .. }
    ));
    assert!(matches!(
        classify_deletion_error(&p, IoKind::Other, Some(145), true, String::new()),
        DeletionError::DirectoryNotEmpty { .. }
    ));
    assert!(matches!(
        classify_deletion_error(&p, IoKind::Other, Some(32), false, String::new()),
        DeletionError::IoError { .. }
    ));
    assert!(matches!(
        classify_deletion_error(&p, IoKind::NotFound, None, false, String::new()),
        DeletionError::NotFound { .. }
    ));
}

#[test]
fn test_error_suggestions_exist() {
    let p = path(&["x"]);
    let locked = DeletionError::FileLocked { path: p.clone() };
    assert_eq!(
        get_error_suggestion(&locked),
        "close the owning program, or re-run with --anyway"
    );
    let denied = DeletionError::PermissionDenied { path: p };
    assert_eq!(get_error_suggestion(&denied), "re-run elevated, or check the permissions");
}

#[test]
fn test_delete_method_and_fallback_chain() {
    let dir = FileInfo { path: path(&["d"]), is_dir: true, size: 0, is_symlink: false };
    let link = FileInfo { path: path(&["l"]), is_dir: true, size: 0, is_symlink: true };
    assert_eq!(first_delete_step(&dir), DeleteMethod::RemoveDir);
    assert_eq!(first_delete_step(&link), DeleteMethod::RemoveFile);

    let perm = DeletionError::PermissionDenied { path: path(&["d"]) };
    let nonempty = DeletionError::DirectoryNotEmpty { path: path(&["d"]) };
    assert_eq!(after_delete_failure(true, &perm, false), FallbackAction::ClearReadonlyThenRetry);
    assert_eq!(after_delete_failure(true, &nonempty, true), FallbackAction::BulkRemoveTree);
    assert_eq!(after_delete_failure(false, &nonempty, true), FallbackAction::GiveUp);
}

#[test]
fn test_dir_precheck() {
    let p = path(&["d"]);
    assert!(matches!(
        dir_precheck(&p, DirProbe::Entries { non_empty: true }),
        DirPrecheck::FailNonEmpty { error: DeletionError::DirectoryNotEmpty { .. } }
    ));
    assert!(matches!(
        dir_precheck(&p, DirProbe::Entries { non_empty: false }),
        DirPrecheck::ProceedDelete
    ));
    assert!(matches!(dir_precheck(&p, DirProbe::Unreadable), DirPrecheck::TreatAsRemoved));
}

#[test]
fn test_find_bulk_root() {
    let files = vec![
        FileInfo { path: path(&["b", "x"]), is_dir: false, size: 1, is_symlink: false },
        FileInfo { path: path(&["b"]), is_dir: true, size: 0, is_symlink: false },
        FileInfo { path: path(&["b", "sub"]), is_dir: true, size: 0, is_symlink: false },
    ];
    assert_eq!(find_bulk_root(&files), Some(1));
    let no_root = vec![FileInfo {
        path: path(&["b", "x"]),
        is_dir: false,
        size: 1,
        is_symlink: false,
    }];
    assert_eq!(find_bulk_root(&no_root), None);
}

#[test]
fn test_format_size_exact_values() {
    assert_eq!(format_size(0), "0 B");
    assert_eq!(format_size(512), "512 B");
    assert_eq!(format_size(1023), "1023 B");
    assert_eq!(format_size(1024), "1.0 KB");
    assert_eq!(format_size(1536), "1.5 KB");
    assert_eq!(format_size(2048), "2.0 KB");
    assert_eq!(format_size(1048576), "1.0 MB");
    assert_eq!(format_size(1073741824), "1.0 GB");
    assert_eq!(format_size(1099511627776), "1.0 TB");
}

#[test]
fn test_symlink_into_system_root_is_refused() {
    let roots = vec![path(&["/"])];
    let link = path(&["work", "rootlink"]);
    let target = path(&["/"]);
    match symlink_target_gate(&link, Some(&target), &roots) {
        Err(DeletionError::SystemCriticalLink { path: p }) => assert_eq!(p, link),
        _ => panic!("expected the system-critical link to be refused"),
    }
    let safe = path(&["work", "other"]);
    assert!(symlink_target_gate(&link, Some(&safe), &roots).is_ok());
    assert!(symlink_target_gate(&link, None, &roots).is_ok());
}
