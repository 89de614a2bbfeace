use mxl_investigator::proc_dir::ProcDir;
use mxl_investigator::run_dir::{RunDirectory, RunFile};

fn fresh_dir(name: &str) -> RunDirectory {
    RunDirectory {
        name: name.to_string(),
        lock_file: false,
        lock_held: false,
        subdirs: Vec::new(),
        files: Vec::new(),
    }
}

#[test]
fn success_completion_appends_one_line_and_releases_lock() {
    let mut mgr = ProcDir::new();
    mgr.set_proc_dir(fresh_dir("2024-01-01_10_00_00"));
    {
        let cur = mgr.current_run_directory();
        assert!(cur.lock_file);
        assert!(cur.lock_held);
    }
    mgr.write_report_success();
    let cur = mgr.current_run_directory();
    assert!(!cur.lock_file, "the lock file is deleted by the first completion");
    assert!(!cur.lock_held);
    assert_eq!(cur.files.len(), 1);
    assert_eq!(cur.files[0].path, "exit_report.txt");
    assert_eq!(
        cur.files[0].data,
        b"The program run was executed successfully\n".to_vec()
    );
}

#[test]
fn success_completion_twice_appends_two_well_formed_lines() {
    let mut mgr = ProcDir::new();
    mgr.set_proc_dir(fresh_dir("2024-01-01_10_00_00"));
    mgr.write_report_success();
    mgr.write_report_success();
    let cur = mgr.current_run_directory();
    assert!(!cur.lock_file);
    assert_eq!(cur.files.len(), 1);
    let expected = "The program run was executed successfully\n\
                    The program run was executed successfully\n";
    assert_eq!(cur.files[0].data, expected.as_bytes().to_vec());
}

#[test]
fn error_completion_records_the_rendered_cause() {
    let mut mgr = ProcDir::new();
    mgr.set_proc_dir(fresh_dir("2024-01-01_10_00_00"));
    mgr.write_report_error("disk on fire");
    let cur = mgr.current_run_directory();
    assert!(!cur.lock_file);
    assert_eq!(
        cur.files[0].data,
        b"The program run exited with error:\ndisk on fire\n".to_vec()
    );
}

#[test]
fn completion_appends_to_an_existing_report() {
    let mut dir = fresh_dir("2024-01-01_10_00_00");
    dir.files.push(RunFile { path: "exit_report.txt".to_string(), data: b"earlier\n".to_vec() });
    let mut mgr = ProcDir::new();
    mgr.set_proc_dir(dir);
    mgr.write_report_success();
    let cur = mgr.current_run_directory();
    assert_eq!(
        cur.files[0].data,
        b"earlier\nThe program run was executed successfully\n".to_vec()
    );
}

#[test]
fn remove_lock_file_alone_writes_no_report() {
    let mut mgr = ProcDir::new();
    mgr.set_proc_dir(fresh_dir("2024-01-01_10_00_00"));
    mgr.remove_lock_file();
    let cur = mgr.current_run_directory();
    assert!(!cur.lock_file);
    assert!(cur.files.is_empty());
}

#[test]
fn archive_callback_is_recorded_once() {
    let mut mgr = ProcDir::new();
    assert!(!mgr.archive_callback_set);
    mgr.proc_dir_archive_set_callback();
    assert!(mgr.archive_callback_set);
}
