//! The run-directory manager: one current run directory per process
//! invocation.  Establishing it runs retention cleanup over the container,
//! synthesizes a name from the clock, creates and locks the directory;
//! writing a completion releases the lock; archival bundles the retained
//! directories and purges the crashed ones the archive now supersedes.
//!
//! The surrounding process mirrors every transition here onto the real
//! filesystem; the decisions themselves are verified against the models
//! in the other modules.

use crate::archive::{create_archive, entries_storable, entry_paths_distinct, spec_archive_entries,
    zip_encodes, ArchiveError};
use crate::container::{candidate_names, is_candidate_name, kept_dirs, lemma_kept_dirs_props,
    lemma_purgeable_names_member, name_views, purgeable_names, Container};
use crate::run_dir::{lemma_with_report_appended_props, DirModel, RunDirectory};
use crate::stamp::{run_dir_name, spec_run_dir_name, RunStamp};
use crate::text::lex_lt;
use vstd::prelude::*;
use vstd::utf8::encode_utf8;

verus! {

/// Retention cap: how many finished, unflagged run directories survive a
/// cleanup pass.
pub const KEEP_NUMBER_OF_RUNS: usize = 20;

/// Name of the container directory inside the application's data
/// directory.
pub open spec fn spec_proc_dir_name() -> Seq<char> {
    "proc"@
}

/// Exec counterpart of [`spec_proc_dir_name`].
pub fn proc_dir_name() -> (r: &'static str)
    ensures
        r@ == spec_proc_dir_name(),
{
    "proc"
}

/// The report line recording an orderly, successful exit.
pub open spec fn spec_success_report_line() -> Seq<char> {
    "The program run was executed successfully"@
}

/// Exec counterpart of [`spec_success_report_line`].
pub fn success_report_line() -> (r: &'static str)
    ensures
        r@ == spec_success_report_line(),
{
    "The program run was executed successfully"
}

/// The report line recording an exit with a handled error; the rendered
/// error follows on the next line.
pub open spec fn spec_error_report_line(message: Seq<char>) -> Seq<char> {
    "The program run exited with error:\n"@ + message
}

/// Builds the error report line.
pub fn error_report_line(message: &str) -> (r: String)
    ensures
        r@ == spec_error_report_line(message@),
{
    let mut s = String::from_str("The program run exited with error:\n");
    s.append(message);
    s
}

/// The default container directory: the `proc` subdirectory of the
/// application's data directory.
pub fn default_proc_dir(data_dir: &Vec<String>) -> (r: Vec<String>)
    ensures
        name_views(r@) == name_views(data_dir@).push(spec_proc_dir_name()),
{
    let mut r: Vec<String> = Vec::new();
    let mut i: usize = 0;
    while i < data_dir.len()
        invariant
            i <= data_dir@.len(),
            name_views(r@) == name_views(data_dir@).take(i as int),
        decreases data_dir@.len() - i,
    {
        let ghost before = r@;
        let c = data_dir[i].clone();
        proof {
            assert(c@ == data_dir@[i as int]@);
        }
        r.push(c);
        proof {
            let nv = name_views(r@);
            let tv = name_views(data_dir@).take(i + 1);
            assert(r@.len() == before.len() + 1);
            assert(name_views(before).len() == before.len());
            assert(before.len() == i);
            assert(nv.len() == i + 1);
            assert(name_views(data_dir@).len() == data_dir@.len());
            assert(i + 1 <= data_dir@.len());
            assert(tv.len() == i + 1);
            assert(nv.len() == tv.len());
            assert forall|j: int| 0 <= j < nv.len() implies nv[j] == tv[j] by {
                if j < i {
                    assert(r@[j] == before[j]);
                    assert(nv[j] == name_views(before)[j]);
                } else {
                    assert(r@[j] == c);
                }
            }
            assert(nv =~= tv);
        }
        i = i + 1;
    }
    r.push(String::from_str(proc_dir_name()));
    proof {
        assert(name_views(data_dir@).take(data_dir@.len() as int) =~= name_views(data_dir@));
        assert(name_views(r@) =~= name_views(data_dir@).push(spec_proc_dir_name()));
    }
    r
}

/// The file name of a support report archive for `binary_name`.
pub fn create_report_file_name(binary_name: &str) -> (r: String)
    ensures
        r@ == binary_name@ + "_report."@ + "zip"@,
{
    let mut s = String::from_str(binary_name);
    s.append("_report.");
    s.append(crate::archive::archive_default_file_extension());
    s
}

/// The file name of a problem report archive for `binary_name`.
pub fn create_problem_report_file_name(binary_name: &str) -> (r: String)
    ensures
        r@ == binary_name@ + "_problem_report."@ + "zip"@,
{
    let mut s = String::from_str(binary_name);
    s.append("_problem_report.");
    s.append(crate::archive::archive_default_file_extension());
    s
}

/// The per-process run-directory state: the current run directory once it
/// is established, and the hook run before an archive is assembled.
pub struct ProcDir {
    /// The current run directory; `None` until established.
    pub current: Option<RunDirectory>,
    /// Whether the archive hook has been registered.  The hook itself
    /// (run by the process before it assembles an archive, to flush
    /// pending diagnostics into the run directory first) is a function
    /// pointer, which the verifier does not take; the process keeps it
    /// and this records that it is set.
    pub archive_callback_set: bool,
}

impl ProcDir {
    /// A manager with no run directory established yet.
    pub fn new() -> (r: ProcDir)
        ensures
            r.current is None,
            !r.archive_callback_set,
    {
        ProcDir { current: None, archive_callback_set: false }
    }

    /// The current run directory.
    pub fn current_run_directory(&self) -> (r: &RunDirectory)
        requires
            self.current is Some,
        ensures
            self.current matches Some(d) && r == d,
    {
        match &self.current {
            Some(d) => d,
            None => {
                proof {
                    assert(false);
                }
                unreached()
            },
        }
    }

    /// Establishes an explicitly chosen directory as the current run
    /// directory: it is created on disk (existing contents survive) and
    /// its lock taken.  A process that already owns a run directory must
    /// not call this again.
    pub fn set_proc_dir(&mut self, dir: RunDirectory)
        requires
            old(self).current is None,
        ensures
            final(self).current matches Some(d) && d@ == (DirModel {
                lock_file: true,
                lock_held: true,
                ..dir@
            }),
            final(self).archive_callback_set == old(self).archive_callback_set,
    {
        let mut d = dir;
        d.lock_file = true;
        d.lock_held = true;
        self.current = Some(d);
    }

    /// Obtains the current run directory, establishing it on the first
    /// call: retention cleanup runs over the container, then a fresh
    /// directory named after `now` is created and locked.  Later calls
    /// change nothing.  Returns the names of the directories cleanup
    /// deleted, oldest first.
    pub fn proc_dir(&mut self, container: &mut Container, now: &RunStamp, keep: usize) -> (removed:
        Vec<String>)
        requires
            old(container)@.wf(),
            now.wf(),
        ensures
            final(self).current is Some,
            final(self).archive_callback_set == old(self).archive_callback_set,
            old(self).current is Some ==> *final(self) == *old(self) && *final(container)
                == *old(container) && removed@.len() == 0,
            old(self).current is None ==> ({
                let mm = old(container)@.marked_dirs();
                let cn = candidate_names(mm);
                let rn = name_views(removed@);
                &&& final(self).current matches Some(d) && d@ == (DirModel {
                    name: spec_run_dir_name(*now),
                    lock_file: true,
                    lock_held: true,
                    subdirs: Seq::empty(),
                    files: Seq::empty(),
                })
                &&& final(container)@.path == old(container)@.path
                &&& final(container)@.wf()
                &&& final(container)@.dirs == kept_dirs(mm, rn)
                &&& rn.len() == if cn.len() > keep {
                    (cn.len() - keep) as nat
                } else {
                    0nat
                }
                &&& forall|i: int| 0 <= i < rn.len() ==> is_candidate_name(mm, #[trigger] rn[i])
                &&& forall|i: int, j: int| 0 <= i < j < rn.len() ==> lex_lt(rn[i], rn[j])
                &&& forall|i: int, j: int|
                    0 <= i < rn.len() && 0 <= j < mm.len()
                        && (#[trigger] mm[j]).is_cleanup_candidate() && !rn.contains(mm[j].name)
                        ==> lex_lt(#[trigger] rn[i], mm[j].name)
                &&& forall|j: int|
                    0 <= j < mm.len() && !(#[trigger] mm[j]).is_cleanup_candidate()
                        ==> final(container)@.dirs.contains(mm[j])
                &&& candidate_names(final(container)@.dirs).len() == if cn.len() > keep {
                    keep as nat
                } else {
                    cn.len()
                }
            }),
    {
        if self.current.is_some() {
            return Vec::new();
        }
        let removed = container.cleanup_dir(keep);
        let name = run_dir_name(now);
        let fresh = RunDirectory {
            name,
            lock_file: true,
            lock_held: true,
            subdirs: Vec::new(),
            files: Vec::new(),
        };
        proof {
            assert(fresh@ =~= (DirModel {
                name: spec_run_dir_name(*now),
                lock_file: true,
                lock_held: true,
                subdirs: Seq::empty(),
                files: Seq::empty(),
            }));
        }
        self.current = Some(fresh);
        removed
    }

    /// Appends the success line to the current run directory's completion
    /// report and releases the lock, marking the run finished.
    pub fn write_report_success(&mut self)
        requires
            old(self).current matches Some(d) && d@.wf(),
        ensures
            old(self).current matches Some(d) ==> final(self).current matches Some(d2) && d2@
                == d@.with_report_appended(
                encode_utf8(spec_success_report_line().push('\n')),
            ).unlocked(),
            final(self).archive_callback_set == old(self).archive_callback_set,
    {
        let taken = self.current.take();
        match taken {
            Some(mut d) => {
                d.write_report(success_report_line());
                d.remove_lock_file();
                self.current = Some(d);
            },
            None => {},
        }
    }

    /// Appends the error line (with the rendered error on its own lines)
    /// to the completion report and releases the lock.
    pub fn write_report_error(&mut self, message: &str)
        requires
            old(self).current matches Some(d) && d@.wf(),
        ensures
            old(self).current matches Some(d) ==> final(self).current matches Some(d2) && d2@
                == d@.with_report_appended(
                encode_utf8(spec_error_report_line(message@).push('\n')),
            ).unlocked(),
            final(self).archive_callback_set == old(self).archive_callback_set,
    {
        let taken = self.current.take();
        match taken {
            Some(mut d) => {
                let line = error_report_line(message);
                d.write_report(line.as_str());
                d.remove_lock_file();
                self.current = Some(d);
            },
            None => {},
        }
    }

    /// Releases the lock on the current run directory, deleting the lock
    /// file, without writing any report line.
    pub fn remove_lock_file(&mut self)
        ensures
            old(self).current matches Some(d) ==> final(self).current matches Some(d2) && d2@
                == d@.unlocked(),
            old(self).current is None ==> final(self).current is None,
            final(self).archive_callback_set == old(self).archive_callback_set,
    {
        let taken = self.current.take();
        match taken {
            Some(mut d) => {
                d.remove_lock_file();
                self.current = Some(d);
            },
            None => {},
        }
    }

    /// Records that the process has registered its archive hook.  It can
    /// be set only once.
    pub fn proc_dir_archive_set_callback(&mut self)
        requires
            !old(self).archive_callback_set,
        ensures
            final(self).archive_callback_set,
            final(self).current == old(self).current,
    {
        self.archive_callback_set = true;
    }
}

/// Builds one archive over every retained run directory, then deletes the
/// crashed ones the archive supersedes as the durable artifact.  A
/// crashed directory whose lock a live process still holds is owned, and
/// stays; so does every directory without crash evidence.  On any failure
/// the container is left as it was, and an empty container fails fast
/// before any writer exists.  Returns the archive bytes and the names of
/// the purged directories.
pub fn archive_and_remove_panics(container: &mut Container) -> (r: Result<
    (Vec<u8>, Vec<String>),
    ArchiveError,
>)
    requires
        old(container)@.wf(),
    ensures
        ({
            let m = old(container)@;
            match r {
                Ok((bytes, removed)) => {
                    &&& zip_encodes(bytes@, spec_archive_entries(m.path, m.dirs))
                    &&& bytes@.len() >= 22
                    &&& m.dirs.len() > 0
                    &&& name_views(removed@) == purgeable_names(m.dirs)
                    &&& final(container)@.path == m.path
                    &&& final(container)@.dirs == kept_dirs(m.dirs, purgeable_names(m.dirs))
                    &&& forall|j: int|
                        0 <= j < m.dirs.len() && (#[trigger] m.dirs[j]).lock_state() is Active
                            ==> final(container)@.dirs.contains(m.dirs[j])
                },
                Err(e) => {
                    &&& *final(container) == *old(container)
                    &&& (e is EmptySources <==> m.dirs.len() == 0)
                },
            }
        }),
        ({
            let m = old(container)@;
            let entries = spec_archive_entries(m.path, m.dirs);
            (m.dirs.len() > 0 && entry_paths_distinct(entries) && entries_storable(entries))
                ==> r is Ok
        }),
{
    let bytes = match create_archive(&container.path, &container.dirs) {
        Ok(bytes) => bytes,
        Err(e) => {
            return Err(e);
        },
    };
    let removed = container.purgeable_dir_names();
    container.remove_dirs_named(&removed);
    proof {
        lemma_active_dirs_survive_purge(old(container)@.dirs, final(container)@.dirs);
    }
    Ok((bytes, removed))
}

/// Hands every purgeable run directory (crashed, and not owned by a live
/// process) over for disposal in the platform trash, removing it from
/// the container.  Live directories and directories without crash
/// evidence stay.  Returns the names of the removed directories.
pub fn move_panics_to_trash(container: &mut Container) -> (removed: Vec<String>)
    requires
        old(container)@.wf(),
    ensures
        name_views(removed@) == purgeable_names(old(container)@.dirs),
        final(container)@.path == old(container)@.path,
        final(container)@.dirs == kept_dirs(
            old(container)@.dirs,
            purgeable_names(old(container)@.dirs),
        ),
        forall|j: int|
            0 <= j < old(container)@.dirs.len() && (#[trigger] old(container)@.dirs[j]).lock_state()
                is Active ==> final(container)@.dirs.contains(old(container)@.dirs[j]),
{
    let removed = container.purgeable_dir_names();
    container.remove_dirs_named(&removed);
    proof {
        lemma_active_dirs_survive_purge(old(container)@.dirs, final(container)@.dirs);
    }
    removed
}

/// The ownership rule of the purge: a directory whose lock a live
/// process holds is never among the purged, whatever it contains.
proof fn lemma_active_dirs_survive_purge(dirs: Seq<DirModel>, kept: Seq<DirModel>)
    requires
        crate::container::distinct_names(dirs),
        kept == kept_dirs(dirs, purgeable_names(dirs)),
    ensures
        forall|j: int|
            0 <= j < dirs.len() && (#[trigger] dirs[j]).lock_state() is Active ==> kept.contains(
                dirs[j],
            ),
{
    let rn = purgeable_names(dirs);
    lemma_kept_dirs_props(dirs, rn);
    lemma_purgeable_names_member(dirs);
    assert forall|j: int|
        0 <= j < dirs.len() && (#[trigger] dirs[j]).lock_state() is Active implies kept.contains(
        dirs[j],
    ) by {
        assert(!rn.contains(dirs[j].name)) by {
            if rn.contains(dirs[j].name) {
                let k = choose|k: int| 0 <= k < rn.len() && rn[k] == dirs[j].name;
                assert(crate::container::is_purgeable_name(dirs, rn[k]));
                let j2 = choose|j2: int|
                    0 <= j2 < dirs.len() && (#[trigger] dirs[j2]).is_purgeable() && dirs[j2].name
                        == rn[k];
                if j2 != j {
                    assert(dirs[j2].name != dirs[j].name);
                }
            }
        }
    }
}

/// Writing the success completion a second time does not corrupt the
/// report: each call appends the same single well-formed line, and the
/// lock is already gone after the first call.
pub proof fn lemma_success_completion_twice(d: DirModel)
    requires
        d.wf(),
    ensures
        ({
            let line = encode_utf8(spec_success_report_line().push('\n'));
            let once = d.with_report_appended(line).unlocked();
            let twice = once.with_report_appended(line).unlocked();
            &&& once.lock_state() is Finished
            &&& once.wf()
            &&& twice.wf()
            &&& once.report_data() == d.report_data() + line
            &&& twice.report_data() == d.report_data() + line + line
            &&& twice.name == d.name
            &&& twice.has_panic() == d.has_panic()
        }),
{
    let line = encode_utf8(spec_success_report_line().push('\n'));
    lemma_with_report_appended_props(d, line);
    let r1 = d.with_report_appended(line);
    let once = r1.unlocked();
    assert(once.files == r1.files);
    assert(once.report_data() == r1.report_data());
    assert(once.wf());
    lemma_with_report_appended_props(once, line);
    let r2 = once.with_report_appended(line);
    let twice = r2.unlocked();
    assert(twice.files == r2.files);
    assert(twice.report_data() == r2.report_data());
}

} // verus!
