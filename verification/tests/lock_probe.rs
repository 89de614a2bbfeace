use mxl_investigator::lock::{classify_probe, LockState};
use mxl_investigator::run_dir::RunDirectory;

fn dir(lock_file: bool, lock_held: bool) -> RunDirectory {
    RunDirectory {
        name: "2024-01-01_10_00_00".to_string(),
        lock_file,
        lock_held,
        subdirs: Vec::new(),
        files: Vec::new(),
    }
}

#[test]
fn probe_of_held_lock_is_active() {
    // The owner never released its lock: the file exists and the probe
    // try-lock fails.
    assert_eq!(classify_probe(true, false), LockState::Active);
    assert_eq!(dir(true, true).lock_state(), LockState::Active);
}

#[test]
fn probe_after_release_without_file_is_finished() {
    // Lock released and the lock file removed: an orderly finish.
    assert_eq!(classify_probe(false, false), LockState::Finished);
    assert_eq!(classify_probe(false, true), LockState::Finished);
    assert_eq!(dir(false, false).lock_state(), LockState::Finished);
}

#[test]
fn probe_of_unheld_file_is_abandoned() {
    // The lock file remains but the probe acquires the lock: the owner
    // died without releasing.
    assert_eq!(classify_probe(true, true), LockState::Abandoned);
    assert_eq!(dir(true, false).lock_state(), LockState::Abandoned);
}
