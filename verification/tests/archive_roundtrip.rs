use mxl_investigator::archive::{create_archive, ArchiveError};
use mxl_investigator::run_dir::{RunDirectory, RunFile};
use std::io::Read;

fn seg(s: &str) -> String {
    s.to_string()
}

fn deep_path() -> Vec<String> {
    vec![seg("home"), seg("tester"), seg("share"), seg("app"), seg("proc")]
}

fn file(path: &str, data: &[u8]) -> RunFile {
    RunFile { path: path.to_string(), data: data.to_vec() }
}

#[test]
fn archive_roundtrip_reconstructs_both_trees() {
    let a = RunDirectory {
        name: "2024-01-01_10_00_00".to_string(),
        lock_file: false,
        lock_held: false,
        subdirs: vec![seg("sub")],
        files: vec![file("log.txt", b"alpha"), file("sub/notes.txt", b"beta")],
    };
    let b = RunDirectory {
        name: "2024-01-02_11_30_00".to_string(),
        lock_file: false,
        lock_held: false,
        subdirs: Vec::new(),
        files: vec![file("data.bin", &[0u8, 1, 2, 255])],
    };
    let bytes = create_archive(&deep_path(), &vec![a, b]).unwrap();
    assert!(bytes.len() >= 22);

    let cursor = std::io::Cursor::new(bytes);
    let mut za = zip::ZipArchive::new(cursor).unwrap();

    let mut buf = Vec::new();
    za.by_name("app/proc/2024-01-01_10_00_00/log.txt").unwrap().read_to_end(&mut buf).unwrap();
    assert_eq!(buf, b"alpha".to_vec());

    buf.clear();
    za.by_name("app/proc/2024-01-01_10_00_00/sub/notes.txt")
        .unwrap()
        .read_to_end(&mut buf)
        .unwrap();
    assert_eq!(buf, b"beta".to_vec());

    buf.clear();
    za.by_name("app/proc/2024-01-02_11_30_00/data.bin").unwrap().read_to_end(&mut buf).unwrap();
    assert_eq!(buf, vec![0u8, 1, 2, 255]);

    // Explicit directory entries are written for extraction tools that do
    // not infer directories from file paths.
    assert!(za.by_name("app/proc/2024-01-01_10_00_00/").unwrap().is_dir());
    assert!(za.by_name("app/proc/2024-01-01_10_00_00/sub/").unwrap().is_dir());
}

#[test]
fn archive_includes_lock_file_of_abandoned_run() {
    let abandoned = RunDirectory {
        name: "2024-01-01_10_00_00".to_string(),
        lock_file: true,
        lock_held: false,
        subdirs: Vec::new(),
        files: vec![file("log.txt", b"x")],
    };
    let bytes = create_archive(&deep_path(), &vec![abandoned]).unwrap();
    let mut za = zip::ZipArchive::new(std::io::Cursor::new(bytes)).unwrap();
    let mut buf = Vec::new();
    za.by_name("app/proc/2024-01-01_10_00_00/run.lock").unwrap().read_to_end(&mut buf).unwrap();
    assert!(buf.is_empty());
}

#[test]
fn archive_over_empty_list_fails_without_output() {
    let r = create_archive(&deep_path(), &Vec::new());
    assert!(matches!(r, Err(ArchiveError::EmptySources)));
}

#[test]
fn archive_streams_large_files_in_chunks() {
    let mut data = vec![0u8; 200_000];
    for (i, b) in data.iter_mut().enumerate() {
        *b = (i % 251) as u8;
    }
    let d = RunDirectory {
        name: "2024-01-01_10_00_00".to_string(),
        lock_file: false,
        lock_held: false,
        subdirs: Vec::new(),
        files: vec![RunFile { path: "big.bin".to_string(), data: data.clone() }],
    };
    let bytes = create_archive(&deep_path(), &vec![d]).unwrap();
    let mut za = zip::ZipArchive::new(std::io::Cursor::new(bytes)).unwrap();
    let mut buf = Vec::new();
    za.by_name("app/proc/2024-01-01_10_00_00/big.bin").unwrap().read_to_end(&mut buf).unwrap();
    assert_eq!(buf, data);
}

#[test]
fn shallow_container_path_roots_entries_at_the_run_dir() {
    let d = RunDirectory {
        name: "2024-01-01_10_00_00".to_string(),
        lock_file: false,
        lock_held: false,
        subdirs: Vec::new(),
        files: vec![file("log.txt", b"solo")],
    };
    let bytes = create_archive(&vec![seg("proc")], &vec![d]).unwrap();
    let mut za = zip::ZipArchive::new(std::io::Cursor::new(bytes)).unwrap();
    let mut buf = Vec::new();
    za.by_name("log.txt").unwrap().read_to_end(&mut buf).unwrap();
    assert_eq!(buf, b"solo".to_vec());
}

#[test]
fn colliding_entry_names_surface_the_zip_failure() {
    // Two directories under the same name produce the same entry paths,
    // which the zip encoder refuses; the cause is carried in the error.
    let make = || RunDirectory {
        name: "2024-01-01_10_00_00".to_string(),
        lock_file: false,
        lock_held: false,
        subdirs: Vec::new(),
        files: vec![file("log.txt", b"x")],
    };
    let r = create_archive(&deep_path(), &vec![make(), make()]);
    match r {
        Err(ArchiveError::Failure { message }) => {
            // The failure names the offending entry path.
            assert!(message.contains("app/proc/2024-01-01_10_00_00"), "{message}");
        }
        _ => panic!("expected the duplicate entry to fail"),
    }
}

#[test]
fn archive_error_renders_a_message() {
    let r = create_archive(&deep_path(), &Vec::new());
    match r {
        Err(e) => assert_eq!(e.message(), "Cannot archive empty list of directories"),
        Ok(_) => panic!("expected an error"),
    }
}
