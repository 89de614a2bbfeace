//! Model of one run directory: the per-invocation working directory that
//! holds diagnostic files, the completion report, crash dumps, and the
//! lock file of the lock protocol.
//!
//! The exec types mirror what is on disk as plain values; the surrounding
//! process keeps the real directory and this model in step.  All the
//! decisions — what counts as crashed, when the aborted-unexpectedly
//! report is due, what releasing the lock means — are verified here.

use crate::lock::{spec_classify_probe, LockState};
use crate::text::{spec_ends_with, str_eq};
use vstd::prelude::*;

verus! {

/// Name of the lock file kept inside every run directory.
pub open spec fn spec_lock_file_name() -> Seq<char> {
    "run.lock"@
}

/// Exec counterpart of [`spec_lock_file_name`].
pub fn lock_file_name() -> (r: &'static str)
    ensures
        r@ == spec_lock_file_name(),
{
    "run.lock"
}

/// Name of the completion report file kept inside a run directory.
pub open spec fn spec_report_file_name() -> Seq<char> {
    "exit_report.txt"@
}

/// Exec counterpart of [`spec_report_file_name`].
pub fn report_file_name() -> (r: &'static str)
    ensures
        r@ == spec_report_file_name(),
{
    "exit_report.txt"
}

/// File extension (without the dot) of crash-dump files.
pub open spec fn spec_panic_file_extension() -> Seq<char> {
    "panic"@
}

/// Exec counterpart of [`spec_panic_file_extension`].
pub fn panic_file_extension() -> (r: &'static str)
    ensures
        r@ == spec_panic_file_extension(),
{
    "panic"
}

/// A file name names a crash dump when it ends in `.panic` with a
/// non-empty stem, and is a direct child of the run directory.
pub open spec fn is_panic_file_path(p: Seq<char>) -> bool {
    &&& p.len() > ".panic"@.len()
    &&& spec_ends_with(p, ".panic"@)
    &&& !p.contains('/')
}

/// Tests whether a relative path names a crash dump.
pub fn is_panic_file_name(name: &str) -> (r: bool)
    ensures
        r == is_panic_file_path(name@),
{
    let suffix = ".panic";
    let n = name.unicode_len();
    if n <= suffix.unicode_len() {
        return false;
    }
    if !crate::text::str_ends_with(name, suffix) {
        return false;
    }
    let mut i: usize = 0;
    while i < n
        invariant
            n == name@.len(),
            i <= n,
            forall|j: int| 0 <= j < i ==> name@[j] != '/',
        decreases n - i,
    {
        if name.get_char(i) == '/' {
            return false;
        }
        i = i + 1;
    }
    proof {
        assert(!name@.contains('/'));
    }
    true
}

/// Text of the report written for a run that was aborted unexpectedly.
pub open spec fn spec_aborted_report_text() -> Seq<char> {
    "The program run was aborted unexpectedly.\nThis behavior is typically caused by a SIGKILL, but it can also be the result of a program crash or immediate termination."@
}

/// Exec counterpart of [`spec_aborted_report_text`].
pub fn aborted_report_text() -> (r: &'static str)
    ensures
        r@ == spec_aborted_report_text(),
{
    "The program run was aborted unexpectedly.\nThis behavior is typically caused by a SIGKILL, but it can also be the result of a program crash or immediate termination."
}

/// Mathematical model of one diagnostic file: its path relative to the
/// run directory ('/'-separated) and its bytes.
#[verifier::ext_equal]
pub ghost struct FileModel {
    pub path: Seq<char>,
    pub data: Seq<u8>,
}

/// Mathematical model of one run directory.
#[verifier::ext_equal]
pub ghost struct DirModel {
    /// Final path segment of the directory.
    pub name: Seq<char>,
    /// Whether the lock file exists in the directory.
    pub lock_file: bool,
    /// Whether a live process holds the advisory lock on it.
    pub lock_held: bool,
    /// Relative paths of nested directories.
    pub subdirs: Seq<Seq<char>>,
    /// The diagnostic files; the lock file is not among them.
    pub files: Seq<FileModel>,
}

impl DirModel {
    /// Well-formed: a held lock implies a lock file, the name is a single
    /// non-empty path segment, and file paths are non-empty and distinct.
    pub open spec fn wf(self) -> bool {
        &&& (self.lock_held ==> self.lock_file)
        &&& self.name.len() > 0
        &&& !self.name.contains('/')
        &&& forall|i: int| 0 <= i < self.files.len() ==> (#[trigger] self.files[i]).path.len() > 0
        &&& forall|i: int, j: int|
            0 <= i < j < self.files.len() ==> self.files[i].path != self.files[j].path
    }

    /// The state the lock protocol ascribes to this directory.
    pub open spec fn lock_state(self) -> LockState {
        if !self.lock_file {
            LockState::Finished
        } else if self.lock_held {
            LockState::Active
        } else {
            LockState::Abandoned
        }
    }

    /// Whether the completion report file exists.
    pub open spec fn has_report(self) -> bool {
        exists|i: int|
            0 <= i < self.files.len() && (#[trigger] self.files[i]).path == spec_report_file_name()
    }

    /// Index of the completion report file, when it exists.
    pub open spec fn report_index(self) -> int {
        choose|i: int|
            0 <= i < self.files.len() && (#[trigger] self.files[i]).path == spec_report_file_name()
    }

    /// Contents of the completion report file, empty when absent.
    pub open spec fn report_data(self) -> Seq<u8> {
        if self.has_report() {
            self.files[self.report_index()].data
        } else {
            Seq::empty()
        }
    }

    /// A directory holding at least one crash dump is crashed; the flag
    /// is independent of the lock state.
    pub open spec fn has_panic(self) -> bool {
        exists|i: int| 0 <= i < self.files.len() && is_panic_file_path((#[trigger] self.files[i]).path)
    }

    /// Cleanup may delete a directory only when no live process owns it
    /// and it holds no crash evidence.
    pub open spec fn is_cleanup_candidate(self) -> bool {
        !(self.lock_state() is Active) && !self.has_panic()
    }

    /// Archival and trash disposal may purge a crashed directory only
    /// when no live process owns it: ownership protects even crash
    /// evidence while its process still runs.
    pub open spec fn is_purgeable(self) -> bool {
        self.has_panic() && !(self.lock_state() is Active)
    }

    /// The model after appending `bytes` to the completion report,
    /// creating the report file when it does not exist yet.
    pub open spec fn with_report_appended(self, bytes: Seq<u8>) -> DirModel {
        if self.has_report() {
            let k = self.report_index();
            DirModel {
                files: self.files.update(
                    k,
                    FileModel { path: self.files[k].path, data: self.files[k].data + bytes },
                ),
                ..self
            }
        } else {
            DirModel {
                files: self.files.push(
                    FileModel { path: spec_report_file_name(), data: bytes },
                ),
                ..self
            }
        }
    }

    /// The model after recording an unexpected abort: the fixed report
    /// text is written only when no report exists yet.
    pub open spec fn abort_marked(self) -> DirModel {
        if self.has_report() {
            self
        } else {
            self.with_report_appended(vstd::utf8::encode_utf8(spec_aborted_report_text()))
        }
    }

    /// The model after the lock is released and the lock file deleted.
    pub open spec fn unlocked(self) -> DirModel {
        DirModel { lock_file: false, lock_held: false, ..self }
    }

    /// What cleanup's classification pass does to one directory: an
    /// abandoned run gets the aborted-unexpectedly report; every other
    /// directory is left alone.
    pub open spec fn cleanup_marked(self) -> DirModel {
        if self.lock_state() is Abandoned {
            self.abort_marked()
        } else {
            self
        }
    }
}

/// A directory without a lock file is classified Finished; cleanup's
/// pass leaves it untouched, and it is a deletion candidate exactly when
/// it holds no crash evidence.
pub proof fn lemma_finished_dir_untouched(d: DirModel)
    requires
        d.wf(),
        !d.lock_file,
    ensures
        d.lock_state() is Finished,
        d.cleanup_marked() == d,
        d.is_cleanup_candidate() == !d.has_panic(),
{
}

/// Cleanup's classification pass keeps a well-formed directory well
/// formed and never touches its name, lock, or crash flag.
pub proof fn lemma_cleanup_marked_props(d: DirModel)
    requires
        d.wf(),
    ensures
        ({
            let r = d.cleanup_marked();
            &&& r.wf()
            &&& r.name == d.name
            &&& r.lock_file == d.lock_file
            &&& r.lock_held == d.lock_held
            &&& r.subdirs == d.subdirs
            &&& r.lock_state() == d.lock_state()
            &&& r.has_panic() == d.has_panic()
            &&& r.is_cleanup_candidate() == d.is_cleanup_candidate()
        }),
{
    if d.lock_state() is Abandoned {
        lemma_abort_marked_props(d);
    }
}

/// The completion report's file name does not look like a crash dump.
pub proof fn lemma_report_not_panic()
    ensures
        !is_panic_file_path(spec_report_file_name()),
{
    reveal_strlit("exit_report.txt");
    reveal_strlit(".panic");
    assert(spec_report_file_name().len() == 15);
    assert(".panic"@.len() == 6);
    if spec_ends_with(spec_report_file_name(), ".panic"@) {
        assert(spec_report_file_name().skip(9)[0] == 'r');
        assert(".panic"@[0] == '.');
    }
}

/// Appending to the completion report of a well-formed directory keeps it
/// well formed and changes nothing but the report's contents.
pub proof fn lemma_with_report_appended_props(d: DirModel, bytes: Seq<u8>)
    requires
        d.wf(),
    ensures
        ({
            let r = d.with_report_appended(bytes);
            &&& r.wf()
            &&& r.name == d.name
            &&& r.lock_file == d.lock_file
            &&& r.lock_held == d.lock_held
            &&& r.subdirs == d.subdirs
            &&& r.lock_state() == d.lock_state()
            &&& r.has_report()
            &&& r.report_data() == d.report_data() + bytes
            &&& r.has_panic() == d.has_panic()
            &&& r.is_cleanup_candidate() == d.is_cleanup_candidate()
        }),
{
    let r = d.with_report_appended(bytes);
    lemma_report_not_panic();
    reveal_strlit("exit_report.txt");
    if d.has_report() {
        let k = d.report_index();
        assert(0 <= k < d.files.len() && d.files[k].path == spec_report_file_name());
        assert(forall|i: int| 0 <= i < r.files.len() ==> (#[trigger] r.files[i]).path == d.files[i].path);
        assert(r.files[k].path == spec_report_file_name());
        assert(r.has_report());
        let k2 = r.report_index();
        assert(0 <= k2 < r.files.len() && r.files[k2].path == spec_report_file_name());
        if k2 != k {
            assert(d.files[k2].path == d.files[k].path);
            assert(false);
        }
        assert(r.report_data() == d.report_data() + bytes);
        assert forall|i: int| 0 <= i < r.files.len() implies is_panic_file_path(
            (#[trigger] r.files[i]).path,
        ) == is_panic_file_path(d.files[i].path) by {}
        if d.has_panic() {
            let w = choose|i: int|
                0 <= i < d.files.len() && is_panic_file_path((#[trigger] d.files[i]).path);
            assert(is_panic_file_path(r.files[w].path));
        }
        if r.has_panic() {
            let w = choose|i: int|
                0 <= i < r.files.len() && is_panic_file_path((#[trigger] r.files[i]).path);
            assert(is_panic_file_path(d.files[w].path));
        }
    } else {
        assert(r.files == d.files.push(FileModel { path: spec_report_file_name(), data: bytes }));
        let n = d.files.len() as int;
        assert(r.files[n].path == spec_report_file_name());
        assert(r.has_report());
        let k2 = r.report_index();
        assert(0 <= k2 < r.files.len() && r.files[k2].path == spec_report_file_name());
        if k2 != n {
            assert(d.files[k2].path == spec_report_file_name());
            assert(d.has_report());
            assert(false);
        }
        assert(spec_report_file_name().len() > 0);
        assert(forall|i: int| 0 <= i < n ==> (#[trigger] r.files[i]).path == d.files[i].path);
        assert forall|i: int, j: int| 0 <= i < j < r.files.len() implies r.files[i].path
            != r.files[j].path by {
            if j == n {
                assert(d.files[i].path != spec_report_file_name());
            }
        }
        assert(r.report_data() == Seq::<u8>::empty() + bytes);
        assert(r.report_data() == d.report_data() + bytes);
        if d.has_panic() {
            let w = choose|i: int|
                0 <= i < d.files.len() && is_panic_file_path((#[trigger] d.files[i]).path);
            assert(is_panic_file_path(r.files[w].path));
        }
        if r.has_panic() {
            let w = choose|i: int|
                0 <= i < r.files.len() && is_panic_file_path((#[trigger] r.files[i]).path);
            assert(w != n);
            assert(is_panic_file_path(d.files[w].path));
        }
    }
}

/// Marking an abort keeps a well-formed directory well formed; it never
/// touches the lock, the name, or the crash flag, and it is idempotent.
pub proof fn lemma_abort_marked_props(d: DirModel)
    requires
        d.wf(),
    ensures
        ({
            let r = d.abort_marked();
            &&& r.wf()
            &&& r.name == d.name
            &&& r.lock_file == d.lock_file
            &&& r.lock_held == d.lock_held
            &&& r.subdirs == d.subdirs
            &&& r.lock_state() == d.lock_state()
            &&& r.has_report()
            &&& r.has_panic() == d.has_panic()
            &&& r.is_cleanup_candidate() == d.is_cleanup_candidate()
            &&& r.abort_marked() == r
        }),
{
    if !d.has_report() {
        lemma_with_report_appended_props(
            d,
            vstd::utf8::encode_utf8(spec_aborted_report_text()),
        );
    }
}

/// Probing a well-formed directory (open the lock file if it exists, then
/// try-lock it) reports exactly the directory's lock state.
pub proof fn lemma_probe_classifies(d: DirModel)
    requires
        d.wf(),
    ensures
        spec_classify_probe(d.lock_file, d.lock_file && !d.lock_held) == d.lock_state(),
{
}

/// One diagnostic file as plain values.
pub struct RunFile {
    /// Path relative to the run directory, '/'-separated.
    pub path: String,
    /// The file's bytes.
    pub data: Vec<u8>,
}

impl View for RunFile {
    type V = FileModel;

    open spec fn view(&self) -> FileModel {
        FileModel { path: self.path@, data: self.data@ }
    }
}

/// One run directory as plain values, mirroring what is on disk.
pub struct RunDirectory {
    /// Final path segment of the directory.
    pub name: String,
    /// Whether the lock file exists in the directory.
    pub lock_file: bool,
    /// Whether a live process holds the advisory lock on it.
    pub lock_held: bool,
    /// Relative paths of nested directories.
    pub subdirs: Vec<String>,
    /// The diagnostic files; the lock file is not among them.
    pub files: Vec<RunFile>,
}

impl View for RunDirectory {
    type V = DirModel;

    open spec fn view(&self) -> DirModel {
        DirModel {
            name: self.name@,
            lock_file: self.lock_file,
            lock_held: self.lock_held,
            subdirs: self.subdirs@.map_values(|s: String| s@),
            files: self.files@.map_values(|f: RunFile| f@),
        }
    }
}

impl RunDirectory {
    /// Whether the completion report file exists.
    pub fn has_report(&self) -> (r: bool)
        ensures
            r == self@.has_report(),
    {
        match self.find_report() {
            Some(_) => true,
            None => false,
        }
    }

    /// Finds the index of the completion report file.
    fn find_report(&self) -> (r: Option<usize>)
        ensures
            match r {
                Some(i) => {
                    &&& self@.has_report()
                    &&& i < self.files.len()
                    &&& self@.files[i as int].path == spec_report_file_name()
                },
                None => !self@.has_report(),
            },
    {
        let mut i: usize = 0;
        while i < self.files.len()
            invariant
                i <= self.files.len(),
                forall|j: int|
                    0 <= j < i ==> (#[trigger] self@.files[j]).path != spec_report_file_name(),
            decreases self.files.len() - i,
        {
            if str_eq(self.files[i].path.as_str(), report_file_name()) {
                proof {
                    assert(self@.files[i as int].path == spec_report_file_name());
                }
                return Some(i);
            }
            i = i + 1;
        }
        None
    }

    /// Whether any crash-dump file is present.
    pub fn has_panic(&self) -> (r: bool)
        ensures
            r == self@.has_panic(),
    {
        let mut i: usize = 0;
        while i < self.files.len()
            invariant
                i <= self.files.len(),
                forall|j: int| 0 <= j < i ==> !is_panic_file_path((#[trigger] self@.files[j]).path),
            decreases self.files.len() - i,
        {
            if is_panic_file_name(self.files[i].path.as_str()) {
                proof {
                    assert(is_panic_file_path(self@.files[i as int].path));
                }
                return true;
            }
            i = i + 1;
        }
        false
    }

    /// Appends one line (a trailing newline is added) to the completion
    /// report, creating the report file when it does not exist yet.
    pub fn write_report(&mut self, line: &str)
        requires
            old(self)@.wf(),
        ensures
            final(self)@ == old(self)@.with_report_appended(
                vstd::utf8::encode_utf8(line@.push('\n')),
            ),
    {
        let mut content = String::from_str(line);
        content.append("\n");
        proof {
            reveal_strlit("\n");
            assert(content@ =~= line@.push('\n'));
        }
        let mut bytes = content.as_str().as_bytes_vec();
        let ghost enc = bytes@;
        match self.find_report() {
            Some(k) => {
                let mut f = self.files.remove(k);
                f.data.append(&mut bytes);
                let ghost fsnap = f@;
                self.files.insert(k, f);
                proof {
                    let m = old(self)@;
                    let k2 = m.report_index();
                    assert(0 <= k2 < m.files.len() && m.files[k2].path == spec_report_file_name());
                    if k2 != k as int {
                        assert(m.files[k2].path == m.files[k as int].path);
                        assert(false);
                    }
                    assert(self.files@ =~= old(self).files@.update(
                        k as int,
                        self.files@[k as int],
                    ));
                    assert(self.files@[k as int]@ == fsnap);
                    assert(fsnap.path == m.files[k as int].path);
                    assert(fsnap.data == m.files[k as int].data + enc);
                    assert(self@.files =~= m.files.update(k as int, fsnap));
                    assert(self@ =~= m.with_report_appended(enc));
                }
            },
            None => {
                self.files.push(RunFile { path: String::from_str(report_file_name()), data: bytes });
                proof {
                    assert(self@.files =~= old(self)@.files.push(
                        FileModel { path: spec_report_file_name(), data: enc },
                    ));
                    assert(self@ =~= old(self)@.with_report_appended(enc));
                }
            },
        }
    }

    /// Writes the fixed aborted-unexpectedly report, only when no report
    /// exists yet.
    pub fn write_report_aborted_unexpected(&mut self)
        requires
            old(self)@.wf(),
        ensures
            final(self)@ == old(self)@.abort_marked(),
    {
        if !self.has_report() {
            let text = aborted_report_text();
            let bytes = text.as_bytes_vec();
            self.files.push(
                RunFile { path: String::from_str(report_file_name()), data: bytes },
            );
            proof {
                assert(self@ =~= old(self)@.abort_marked());
            }
        }
    }

    /// Releases the advisory lock and deletes the lock file, as disposing
    /// of the lock handle does on any orderly exit path.
    pub fn remove_lock_file(&mut self)
        ensures
            final(self)@ == old(self)@.unlocked(),
    {
        self.lock_file = false;
        self.lock_held = false;
        proof {
            assert(self@ =~= old(self)@.unlocked());
        }
    }

    /// The lock state the probe protocol ascribes to this directory.
    pub fn lock_state(&self) -> (r: LockState)
        ensures
            r == self@.lock_state(),
    {
        if !self.lock_file {
            LockState::Finished
        } else if self.lock_held {
            LockState::Active
        } else {
            LockState::Abandoned
        }
    }
}

} // verus!
