use ziro::port::ProcessInfo;
use ziro::top::{
    build_views, diff_frames, mem_permille, rank_processes, remaining_sleep_ms, LineOp,
    ProcessView,
};

fn view(pid: u32, mem: u64, cpu_permille: u32) -> ProcessView {
    ProcessView {
        pid,
        name: format!("p{pid}"),
        memory_bytes: mem,
        memory_permille: 0,
        cpu_permille,
        cmd: String::new(),
    }
}

fn frame(lines: &[&str]) -> Vec<String> {
    lines.iter().map(|l| l.to_string()).collect()
}

#[test]
fn test_identical_frames_only_advance() {
    let old = frame(&["header", "row one", "row two"]);
    let new = frame(&["header", "row one", "row two"]);
    let ops = diff_frames(&new, &old);
    assert_eq!(ops.len(), 3);
    for op in &ops {
        assert!(matches!(op, LineOp::Advance));
    }
}

#[test]
fn test_changed_line_is_rewritten() {
    let old = frame(&["header", "row one", "row two"]);
    let new = frame(&["header", "row ONE", "row two"]);
    let ops = diff_frames(&new, &old);
    assert!(matches!(ops[0], LineOp::Advance));
    match &ops[1] {
        LineOp::Rewrite { text } => assert_eq!(text, "row ONE"),
        _ => panic!("expected the changed line to be rewritten"),
    }
    assert!(matches!(ops[2], LineOp::Advance));
}

#[test]
fn test_shrinking_frame_clears_trailing_lines() {
    let old = frame(&["a", "b", "c"]);
    let new = frame(&["a"]);
    let ops = diff_frames(&new, &old);
    assert_eq!(ops.len(), 3);
    assert!(matches!(ops[0], LineOp::Advance));
    assert!(matches!(ops[1], LineOp::Clear));
    assert!(matches!(ops[2], LineOp::Clear));
}

#[test]
fn test_growing_frame_writes_new_lines() {
    let old = frame(&["a"]);
    let new = frame(&["a", "b"]);
    let ops = diff_frames(&new, &old);
    assert_eq!(ops.len(), 2);
    match &ops[1] {
        LineOp::Rewrite { text } => assert_eq!(text, "b"),
        _ => panic!("expected the new line to be written"),
    }
}

#[test]
fn test_rank_by_memory() {
    let views = vec![view(1, 100, 0), view(2, 300, 0), view(3, 200, 0)];
    let ranked = rank_processes(views, false, 10);
    let pids: Vec<u32> = ranked.iter().map(|v| v.pid).collect();
    assert_eq!(pids, vec![2, 3, 1]);
}

#[test]
fn test_rank_truncates_to_limit() {
    let views = vec![view(1, 100, 0), view(2, 300, 0), view(3, 200, 0)];
    let ranked = rank_processes(views, false, 2);
    let pids: Vec<u32> = ranked.iter().map(|v| v.pid).collect();
    assert_eq!(pids, vec![2, 3]);
}

#[test]
fn test_rank_limit_floor_is_one() {
    let views = vec![view(1, 100, 0), view(2, 300, 0)];
    let ranked = rank_processes(views, false, 0);
    assert_eq!(ranked.len(), 1);
    assert_eq!(ranked[0].pid, 2);
}

#[test]
fn test_rank_blends_cpu_when_shown() {
    // 7*mem + 300*cpu_permille: pid 2 wins on CPU despite less memory.
    let views = vec![view(1, 1000, 0), view(2, 900, 10)];
    let ranked = rank_processes(views, true, 10);
    assert_eq!(ranked[0].pid, 2);
    let views2 = vec![view(1, 1000, 0), view(2, 900, 1)];
    let ranked2 = rank_processes(views2, true, 10);
    assert_eq!(ranked2[0].pid, 1);
}

#[test]
fn test_mem_permille() {
    assert_eq!(mem_permille(512, 1024), 500);
    assert_eq!(mem_permille(1024, 1024), 1000);
    assert_eq!(mem_permille(0, 1024), 0);
    assert_eq!(mem_permille(123, 0), 0);
}

#[test]
fn test_build_views() {
    let snapshot = vec![ProcessInfo {
        pid: 9,
        name: "svc".to_string(),
        cmd: "/bin/svc --run".to_string(),
        cpu_permille: 25,
        memory: 2048,
    }];
    let views = build_views(&snapshot, 4096);
    assert_eq!(views.len(), 1);
    assert_eq!(views[0].pid, 9);
    assert_eq!(views[0].memory_bytes, 2048);
    assert_eq!(views[0].memory_permille, 500);
    assert_eq!(views[0].cpu_permille, 25);
    assert_eq!(views[0].name, "svc");
}

#[test]
fn test_remaining_sleep_never_negative() {
    assert_eq!(remaining_sleep_ms(300, 1000), 700);
    assert_eq!(remaining_sleep_ms(1000, 1000), 0);
    assert_eq!(remaining_sleep_ms(1500, 1000), 0);
}
