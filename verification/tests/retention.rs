use mxl_investigator::container::Container;
use mxl_investigator::run_dir::{RunDirectory, RunFile};

fn seg(s: &str) -> String {
    s.to_string()
}

fn container_path() -> Vec<String> {
    vec![seg("home"), seg("tester"), seg("data"), seg("proc")]
}

fn finished_dir(name: &str) -> RunDirectory {
    RunDirectory {
        name: name.to_string(),
        lock_file: false,
        lock_held: false,
        subdirs: Vec::new(),
        files: Vec::new(),
    }
}

fn crashed_dir(name: &str) -> RunDirectory {
    RunDirectory {
        name: name.to_string(),
        lock_file: false,
        lock_held: false,
        subdirs: Vec::new(),
        files: vec![RunFile { path: "2024-01-01T10_00_00.panic".to_string(), data: b"dump".to_vec() }],
    }
}

fn day_name(day: usize) -> String {
    format!("2024-01-{:02}_10_00_00", day)
}

#[test]
fn cleanup_keeps_cap_newest() {
    let mut c = Container { path: container_path(), dirs: Vec::new() };
    for day in 1..=25 {
        c.dirs.push(finished_dir(&day_name(day)));
    }
    let removed = c.cleanup_dir(20);
    assert_eq!(removed.len(), 5);
    for (i, name) in removed.iter().enumerate() {
        assert_eq!(*name, day_name(i + 1));
    }
    assert_eq!(c.dirs.len(), 20);
    for (i, d) in c.dirs.iter().enumerate() {
        assert_eq!(d.name, day_name(i + 6));
    }
}

#[test]
fn cleanup_under_cap_removes_nothing() {
    let mut c = Container { path: container_path(), dirs: Vec::new() };
    for day in 1..=7 {
        c.dirs.push(finished_dir(&day_name(day)));
    }
    let removed = c.cleanup_dir(20);
    assert!(removed.is_empty());
    assert_eq!(c.dirs.len(), 7);
}

#[test]
fn crashed_dir_survives_cleanup_regardless_of_age() {
    let mut c = Container { path: container_path(), dirs: Vec::new() };
    // The oldest directory holds a crash dump; 21 finished ones follow.
    c.dirs.push(crashed_dir(&day_name(1)));
    for day in 2..=22 {
        c.dirs.push(finished_dir(&day_name(day)));
    }
    let removed = c.cleanup_dir(20);
    // Only the oldest finished, unflagged run goes.
    assert_eq!(removed, vec![day_name(2)]);
    assert_eq!(c.dirs.len(), 21);
    assert_eq!(c.dirs[0].name, day_name(1));
    assert!(c.dirs[0].has_panic());
}

#[test]
fn live_dir_is_skipped_by_cleanup() {
    let mut c = Container { path: container_path(), dirs: Vec::new() };
    let mut live = finished_dir(&day_name(1));
    live.lock_file = true;
    live.lock_held = true;
    c.dirs.push(live);
    for day in 2..=22 {
        c.dirs.push(finished_dir(&day_name(day)));
    }
    let removed = c.cleanup_dir(20);
    assert_eq!(removed, vec![day_name(2)]);
    assert_eq!(c.dirs[0].name, day_name(1));
    assert!(c.dirs[0].lock_file);
}

#[test]
fn abandoned_dir_gets_abort_report() {
    let mut c = Container { path: container_path(), dirs: Vec::new() };
    let mut abandoned = finished_dir(&day_name(3));
    abandoned.lock_file = true;
    abandoned.lock_held = false;
    c.dirs.push(abandoned);
    let removed = c.cleanup_dir(20);
    assert!(removed.is_empty());
    assert_eq!(c.dirs.len(), 1);
    let d = &c.dirs[0];
    assert!(d.has_report());
    assert_eq!(d.files.len(), 1);
    assert_eq!(d.files[0].path, "exit_report.txt");
    let expected = "The program run was aborted unexpectedly.\nThis behavior is typically caused \
                    by a SIGKILL, but it can also be the result of a program crash or immediate \
                    termination.";
    assert_eq!(d.files[0].data, expected.as_bytes().to_vec());
}

#[test]
fn abort_report_is_not_written_twice() {
    let mut c = Container { path: container_path(), dirs: Vec::new() };
    let mut abandoned = finished_dir(&day_name(3));
    abandoned.lock_file = true;
    abandoned.lock_held = false;
    abandoned.files.push(RunFile {
        path: "exit_report.txt".to_string(),
        data: b"already here".to_vec(),
    });
    c.dirs.push(abandoned);
    let removed = c.cleanup_dir(20);
    assert!(removed.is_empty());
    assert_eq!(c.dirs[0].files.len(), 1);
    assert_eq!(c.dirs[0].files[0].data, b"already here".to_vec());
}

#[test]
fn cleanup_with_cap_zero_removes_all_candidates() {
    let mut c = Container { path: container_path(), dirs: Vec::new() };
    for day in 1..=3 {
        c.dirs.push(finished_dir(&day_name(day)));
    }
    c.dirs.push(crashed_dir(&day_name(4)));
    let removed = c.cleanup_dir(0);
    assert_eq!(removed, vec![day_name(1), day_name(2), day_name(3)]);
    assert_eq!(c.dirs.len(), 1);
    assert_eq!(c.dirs[0].name, day_name(4));
}
