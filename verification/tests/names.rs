use mxl_investigator::archive::{archive_default_file_extension, archive_mime_type};
use mxl_investigator::context::init;
use mxl_investigator::crash::{
    format_panic_dump_located, format_panic_dump_unlocated, now_rfc3339, panic_file_name,
};
use mxl_investigator::logging::{log_file_name, LogLevel, Logging};
use mxl_investigator::proc_dir::{
    create_problem_report_file_name, create_report_file_name, default_proc_dir,
    KEEP_NUMBER_OF_RUNS,
};
use mxl_investigator::run_dir::is_panic_file_name;
use mxl_investigator::stamp::{current_run_stamp, run_dir_name, stamp_from_clock, RunStamp};
use mxl_investigator::text::{decimal_string, padded_decimal, str_ends_with, str_eq, str_lt};

#[test]
fn run_dir_names_are_fixed_width_and_zero_padded() {
    let ts = RunStamp { year: 2024, month: 1, day: 1, hour: 10, minute: 0, second: 0 };
    assert_eq!(run_dir_name(&ts), "2024-01-01_10_00_00");
    let ts2 = RunStamp { year: 987, month: 12, day: 31, hour: 23, minute: 59, second: 9 };
    assert_eq!(run_dir_name(&ts2), "0987-12-31_23_59_09");
}

#[test]
fn run_dir_names_sort_chronologically() {
    let earlier = run_dir_name(&RunStamp {
        year: 2024,
        month: 9,
        day: 30,
        hour: 23,
        minute: 59,
        second: 59,
    });
    let later = run_dir_name(&RunStamp {
        year: 2024,
        month: 10,
        day: 1,
        hour: 0,
        minute: 0,
        second: 0,
    });
    assert!(str_lt(&earlier, &later));
    assert!(!str_lt(&later, &earlier));
}

#[test]
fn decimal_rendering_is_exact() {
    assert_eq!(decimal_string(0), "0");
    assert_eq!(decimal_string(90210), "90210");
    assert_eq!(padded_decimal(7, 4), "0007");
    assert_eq!(padded_decimal(12345, 4), "12345");
    assert_eq!(padded_decimal(0, 2), "00");
}

#[test]
fn string_comparisons_match_their_specs() {
    assert!(str_lt("2024-01-01", "2024-01-02"));
    assert!(!str_lt("b", "ab"));
    assert!(str_lt("ab", "b"));
    assert!(str_lt("a", "ab"));
    assert!(!str_lt("same", "same"));
    assert!(str_eq("same", "same"));
    assert!(!str_eq("same", "sam"));
    assert!(str_ends_with("report.panic", ".panic"));
    assert!(!str_ends_with("report.txt", ".panic"));
}

#[test]
fn crash_dump_names_are_recognized() {
    assert!(is_panic_file_name("2024-01-01T10_00_00Z.panic"));
    assert!(!is_panic_file_name(".panic"), "a bare extension has no stem");
    assert!(!is_panic_file_name("exit_report.txt"));
    assert!(!is_panic_file_name("sub/x.panic"), "dumps live directly in the run dir");
    assert_eq!(panic_file_name("2024-01-01T10_00_00Z"), "2024-01-01T10_00_00Z.panic");
}

#[test]
fn crash_dump_text_is_exact() {
    let located = format_panic_dump_located(
        "main",
        "index out of bounds",
        "src/player.rs",
        41,
        7,
        "stack backtrace:\n 0: core::panicking",
    );
    assert_eq!(
        located,
        "Thread 'main' panicked at 'index out of bounds': src/player.rs:41:7\n\
         stack backtrace:\n 0: core::panicking"
    );
    let unlocated = format_panic_dump_unlocated("worker", "Box<Any>", "trace");
    assert_eq!(unlocated, "Thread 'worker' panicked at 'Box<Any>'\ntrace");
}

#[test]
fn dump_timestamps_are_usable_file_stems() {
    let t = now_rfc3339();
    assert!(!t.is_empty());
    assert!(!t.contains('/'));
}

#[test]
fn clock_stamps_are_well_formed() {
    let ts = current_run_stamp();
    assert!(ts.year <= 9999);
    assert!((1..=12).contains(&ts.month));
    assert!((1..=31).contains(&ts.day));
    assert!(ts.hour <= 23 && ts.minute <= 59 && ts.second <= 59);
    let clamped = stamp_from_clock(-5, 6, 15, 12, 30, 45);
    assert_eq!(clamped.year, 0);
    let clamped_high = stamp_from_clock(123456, 6, 15, 12, 30, 45);
    assert_eq!(clamped_high.year, 9999);
}

#[test]
fn report_archive_names_are_exact() {
    assert_eq!(create_report_file_name("mxl_player"), "mxl_player_report.zip");
    assert_eq!(
        create_problem_report_file_name("mxl_player"),
        "mxl_player_problem_report.zip"
    );
    assert_eq!(archive_default_file_extension(), "zip");
    assert_eq!(archive_mime_type(), "application/x-zip");
    assert_eq!(KEEP_NUMBER_OF_RUNS, 20);
}

#[test]
fn default_container_is_the_proc_subdirectory() {
    let data_dir = vec!["home".to_string(), "tester".to_string(), "share".to_string()];
    let proc = default_proc_dir(&data_dir);
    assert_eq!(proc, vec!["home", "tester", "share", "proc"]);
}

#[test]
fn context_carries_identity_and_logging_defaults() {
    let mut ctx = init("org", "x-software", "MXL Player", "mxl_player", "1.2.3");
    assert_eq!(ctx.about().app_name, "MXL Player");
    assert_eq!(ctx.about().version, "1.2.3");
    assert_eq!(ctx.logging.get_log_file_log_level(), LogLevel::Trace);
    assert_eq!(ctx.logging.get_console_log_level(), LogLevel::Warn);
    ctx.logging.set_console_log_level(LogLevel::Debug);
    assert_eq!(ctx.logging.get_console_log_level(), LogLevel::Debug);
    ctx.logging.set_log_file_log_level(LogLevel::Info);
    assert_eq!(ctx.logging.get_log_file_log_level(), LogLevel::Info);
}

#[test]
fn log_file_is_named_after_the_binary() {
    assert_eq!(log_file_name("mxl_player"), "mxl_player.log");
    let mut logging = Logging::new();
    let log_dir = vec!["home".to_string(), "logs".to_string()];
    logging.set_current_log_file(&log_dir, "mxl_player");
    assert_eq!(logging.current_log_file(), &vec!["home", "logs", "mxl_player.log"]);
}
