use ziro::process::{
    check_file_locking_status, find_processes_by_file, inspect_file_locks, is_directory_locked,
    is_file_locked, parse_handle_output, parse_pid_lines, parse_wmic_output,
    ps_measure_indicates_holders, sort_dedup_pids, DirReadOutcome, LockProbeReport, LockSignal,
    OpenOutcome, PsProbe,
};

#[test]
fn test_missing_file_is_never_locked() {
    let sig = LockSignal::ListingTool { success: true };
    assert!(!is_file_locked(false, sig));
}

#[test]
fn test_listing_tool_signal() {
    assert!(is_file_locked(true, LockSignal::ListingTool { success: true }));
    assert!(!is_file_locked(true, LockSignal::ListingTool { success: false }));
}

#[test]
fn test_open_probe_signal() {
    let clean = LockSignal::OpenProbe {
        is_dir: false,
        dir_probe: DirReadOutcome::Readable,
        open_probe: OpenOutcome::Opened,
        secondary: true,
    };
    assert!(!is_file_locked(true, clean));
    let denied = LockSignal::OpenProbe {
        is_dir: false,
        dir_probe: DirReadOutcome::Readable,
        open_probe: OpenOutcome::PermissionDenied,
        secondary: true,
    };
    assert!(is_file_locked(true, denied));
    let vanished = LockSignal::OpenProbe {
        is_dir: false,
        dir_probe: DirReadOutcome::Readable,
        open_probe: OpenOutcome::NotFound,
        secondary: true,
    };
    assert!(!is_file_locked(true, vanished));
    let odd = LockSignal::OpenProbe {
        is_dir: false,
        dir_probe: DirReadOutcome::Readable,
        open_probe: OpenOutcome::OtherError,
        secondary: false,
    };
    assert!(is_file_locked(true, odd));
}

#[test]
fn test_directory_lock_detection_is_conservative() {
    assert!(!is_directory_locked(DirReadOutcome::Readable));
    assert!(is_directory_locked(DirReadOutcome::PermissionDenied));
    assert!(is_directory_locked(DirReadOutcome::OtherError));
}

#[test]
fn test_secondary_check_tells_lock_from_permission() {
    assert!(check_file_locking_status(true, PsProbe::Unavailable, true));
    assert!(!check_file_locking_status(false, PsProbe::Reported { holders: false }, true));
    assert!(check_file_locking_status(false, PsProbe::Reported { holders: true }, true));
    assert!(check_file_locking_status(false, PsProbe::Failed, true));
    assert!(!check_file_locking_status(false, PsProbe::Unavailable, true));
    assert!(check_file_locking_status(false, PsProbe::Unavailable, false));
}

#[test]
fn test_ps_measure_output() {
    assert!(!ps_measure_indicates_holders(b"Count : 0"));
    assert!(ps_measure_indicates_holders(b"Count : 3"));
}

#[test]
fn test_find_processes_by_file_deduplicates_across_strategies() {
    let handle: Vec<u32> = vec![10, 20];
    let shell: Vec<u32> = vec![20, 30];
    let query: Vec<u32> = vec![10, 40];
    let merged = find_processes_by_file(&handle, &shell, &query);
    assert_eq!(merged, vec![10, 20, 30, 40]);
}

#[test]
fn test_parse_pid_lines() {
    let out = b"  101 \n202\nnot a pid\n\n303\n";
    assert_eq!(parse_pid_lines(out), vec![101, 202, 303]);
}

#[test]
fn test_sort_dedup_pids() {
    let pids: Vec<u32> = vec![5, 3, 5, 1, 3];
    assert_eq!(sort_dedup_pids(&pids), vec![1, 3, 5]);
}

#[test]
fn test_inspect_file_locks_reports() {
    let probes = vec![
        LockProbeReport { path: "free.txt".to_string(), locked: false, holder_pids: Vec::new() },
        LockProbeReport {
            path: "busy.txt".to_string(),
            locked: false,
            holder_pids: vec![77, 42, 77],
        },
        LockProbeReport { path: "odd.txt".to_string(), locked: true, holder_pids: Vec::new() },
    ];
    let infos = inspect_file_locks(&probes);
    assert_eq!(infos.len(), 3);
    assert_eq!(infos[0].path, "free.txt");
    assert!(!infos[0].locked);
    assert!(infos[0].processes.is_empty());
    assert!(infos[1].locked);
    let pids: Vec<u32> = infos[1].processes.iter().map(|p| p.pid).collect();
    assert_eq!(pids, vec![42, 77]);
    assert!(infos[2].locked);
}

#[test]
fn test_parse_handle_output() {
    let out = b"Handle v5.0\npid: 412  type: File  C:/work/app.log\n88 pid: extra\nno marker here\n";
    assert_eq!(parse_handle_output(out), vec![412]);
}

#[test]
fn test_parse_wmic_output() {
    let out = b"\nProcessId=1337\n\nProcessId= 2020 \nProcessId=oops\nOther=5\n";
    assert_eq!(parse_wmic_output(out), vec![1337, 2020]);
}
