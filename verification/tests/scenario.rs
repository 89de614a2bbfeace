use mxl_investigator::archive::ArchiveError;
use mxl_investigator::container::Container;
use mxl_investigator::proc_dir::{archive_and_remove_panics, move_panics_to_trash, ProcDir};
use mxl_investigator::run_dir::{RunDirectory, RunFile};
use mxl_investigator::stamp::RunStamp;

fn seg(s: &str) -> String {
    s.to_string()
}

fn container_path() -> Vec<String> {
    vec![seg("home"), seg("tester"), seg("data"), seg("proc")]
}

#[test]
fn abrupt_kill_is_classified_and_recorded_on_next_start() {
    // First process: a fresh container, a run directory created and locked.
    let mut container = Container { path: container_path(), dirs: Vec::new() };
    let mut mgr = ProcDir::new();
    let stamp1 = RunStamp { year: 2024, month: 1, day: 1, hour: 10, minute: 0, second: 0 };
    let removed = mgr.proc_dir(&mut container, &stamp1, 20);
    assert!(removed.is_empty());
    let cur = mgr.current_run_directory();
    assert_eq!(cur.name, "2024-01-01_10_00_00");
    assert!(cur.lock_file && cur.lock_held);

    // Abrupt kill: the lock file stays behind, nobody holds the lock.
    let abandoned = RunDirectory {
        name: cur.name.clone(),
        lock_file: true,
        lock_held: false,
        subdirs: Vec::new(),
        files: Vec::new(),
    };

    // Second process over the same container.
    let mut container2 = Container { path: container_path(), dirs: vec![abandoned] };
    let mut mgr2 = ProcDir::new();
    let stamp2 = RunStamp { year: 2024, month: 1, day: 1, hour: 10, minute: 5, second: 0 };
    let removed2 = mgr2.proc_dir(&mut container2, &stamp2, 20);

    // The abandoned run is retained (not crashed, within the cap) and now
    // carries the aborted-unexpectedly report.
    assert!(removed2.is_empty());
    assert_eq!(container2.dirs.len(), 1);
    let d = &container2.dirs[0];
    assert_eq!(d.name, "2024-01-01_10_00_00");
    assert!(d.has_report());
    let expected = "The program run was aborted unexpectedly.\nThis behavior is typically caused \
                    by a SIGKILL, but it can also be the result of a program crash or immediate \
                    termination.";
    assert_eq!(d.files[0].data, expected.as_bytes().to_vec());

    // And the second process owns a fresh locked run directory.
    let cur2 = mgr2.current_run_directory();
    assert_eq!(cur2.name, "2024-01-01_10_05_00");
    assert!(cur2.lock_file && cur2.lock_held);
}

#[test]
fn crashed_run_is_archived_and_purged_then_rearchiving_fails_fast() {
    let crashed = RunDirectory {
        name: "2024-01-01_10_00_00".to_string(),
        lock_file: false,
        lock_held: false,
        subdirs: Vec::new(),
        files: vec![RunFile {
            path: "2024-01-01T10_00_01Z.panic".to_string(),
            data: b"thread dump".to_vec(),
        }],
    };
    let mut container = Container { path: container_path(), dirs: vec![crashed] };
    assert!(container.any_panic());

    let (bytes, removed) = archive_and_remove_panics(&mut container).unwrap();
    assert!(bytes.len() >= 22, "the archive is not empty");
    assert_eq!(removed, vec!["2024-01-01_10_00_00".to_string()]);
    assert!(container.dirs.is_empty(), "the crashed directory no longer exists");
    assert!(!container.any_panic());

    // No sources remain: the second identical call fails fast.
    let again = archive_and_remove_panics(&mut container);
    assert!(matches!(again, Err(ArchiveError::EmptySources)));
}

#[test]
fn archive_and_purge_keeps_directories_without_crash_evidence() {
    let healthy = RunDirectory {
        name: "2024-01-01_09_00_00".to_string(),
        lock_file: false,
        lock_held: false,
        subdirs: Vec::new(),
        files: vec![RunFile { path: "log.txt".to_string(), data: b"fine".to_vec() }],
    };
    let crashed = RunDirectory {
        name: "2024-01-01_10_00_00".to_string(),
        lock_file: false,
        lock_held: false,
        subdirs: Vec::new(),
        files: vec![RunFile { path: "boom.panic".to_string(), data: b"dump".to_vec() }],
    };
    let mut container = Container { path: container_path(), dirs: vec![healthy, crashed] };
    let (_bytes, removed) = archive_and_remove_panics(&mut container).unwrap();
    assert_eq!(removed, vec!["2024-01-01_10_00_00".to_string()]);
    assert_eq!(container.dirs.len(), 1);
    assert_eq!(container.dirs[0].name, "2024-01-01_09_00_00");
}

#[test]
fn live_crashed_run_survives_archive_purge() {
    // A crashed directory whose lock a live process still holds is owned:
    // it is archived but never purged.
    let live_crashed = RunDirectory {
        name: "2024-01-01_10_00_00".to_string(),
        lock_file: true,
        lock_held: true,
        subdirs: Vec::new(),
        files: vec![RunFile { path: "boom.panic".to_string(), data: b"dump".to_vec() }],
    };
    let dead_crashed = RunDirectory {
        name: "2024-01-01_11_00_00".to_string(),
        lock_file: false,
        lock_held: false,
        subdirs: Vec::new(),
        files: vec![RunFile { path: "late.panic".to_string(), data: b"dump".to_vec() }],
    };
    let mut container = Container { path: container_path(), dirs: vec![live_crashed, dead_crashed] };
    let (_bytes, removed) = archive_and_remove_panics(&mut container).unwrap();
    assert_eq!(removed, vec!["2024-01-01_11_00_00".to_string()]);
    assert_eq!(container.dirs.len(), 1);
    assert_eq!(container.dirs[0].name, "2024-01-01_10_00_00");
    assert!(container.dirs[0].lock_held);
}

#[test]
fn live_crashed_run_survives_trash_disposal() {
    let live_crashed = RunDirectory {
        name: "2024-01-01_10_00_00".to_string(),
        lock_file: true,
        lock_held: true,
        subdirs: Vec::new(),
        files: vec![RunFile { path: "boom.panic".to_string(), data: b"dump".to_vec() }],
    };
    let mut container = Container { path: container_path(), dirs: vec![live_crashed] };
    let removed = move_panics_to_trash(&mut container);
    assert!(removed.is_empty());
    assert_eq!(container.dirs.len(), 1);
}

#[test]
fn moving_panics_to_trash_removes_exactly_the_crashed_runs() {
    let healthy = RunDirectory {
        name: "2024-01-01_09_00_00".to_string(),
        lock_file: false,
        lock_held: false,
        subdirs: Vec::new(),
        files: Vec::new(),
    };
    let crashed = RunDirectory {
        name: "2024-01-01_10_00_00".to_string(),
        lock_file: false,
        lock_held: false,
        subdirs: Vec::new(),
        files: vec![RunFile { path: "boom.panic".to_string(), data: b"dump".to_vec() }],
    };
    let mut container = Container { path: container_path(), dirs: vec![crashed, healthy] };
    let removed = move_panics_to_trash(&mut container);
    assert_eq!(removed, vec!["2024-01-01_10_00_00".to_string()]);
    assert_eq!(container.dirs.len(), 1);
    assert_eq!(container.dirs[0].name, "2024-01-01_09_00_00");
}

#[test]
fn proc_dir_is_established_only_once() {
    let mut container = Container { path: container_path(), dirs: Vec::new() };
    let mut mgr = ProcDir::new();
    let stamp1 = RunStamp { year: 2024, month: 1, day: 1, hour: 10, minute: 0, second: 0 };
    mgr.proc_dir(&mut container, &stamp1, 20);
    let stamp2 = RunStamp { year: 2025, month: 6, day: 30, hour: 23, minute: 59, second: 59 };
    let removed = mgr.proc_dir(&mut container, &stamp2, 20);
    assert!(removed.is_empty());
    assert_eq!(mgr.current_run_directory().name, "2024-01-01_10_00_00");
}
