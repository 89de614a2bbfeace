//! Log-level state and log-file naming.  The logging framework itself —
//! dispatch configuration, formatting, sinks — is an external
//! collaborator wired up by the surrounding process; the thresholds it
//! consults and the file it writes to are decided here.

use crate::container::name_views;
use vstd::prelude::*;

verus! {

/// Severity threshold, mirroring the usual level-filter ladder.
#[derive(Clone, Copy, PartialEq, Eq, Structural, Debug)]
pub enum LogLevel {
    Off,
    Error,
    Warn,
    Info,
    Debug,
    Trace,
}

/// Extension of log files.
pub open spec fn spec_log_file_extension() -> Seq<char> {
    "log"@
}

/// Exec counterpart of [`spec_log_file_extension`].
pub fn log_file_extension() -> (r: &'static str)
    ensures
        r@ == spec_log_file_extension(),
{
    "log"
}

/// The log file name for a binary: its name plus the log extension.
pub open spec fn spec_log_file_name(binary_name: Seq<char>) -> Seq<char> {
    binary_name + seq!['.'] + spec_log_file_extension()
}

/// Builds the log file name for a binary.
pub fn log_file_name(binary_name: &str) -> (r: String)
    ensures
        r@ == spec_log_file_name(binary_name@),
{
    let mut s = String::from_str(binary_name);
    s.append(".");
    s.append(log_file_extension());
    proof {
        reveal_strlit(".");
        assert(s@ =~= spec_log_file_name(binary_name@));
    }
    s
}

/// The process's logging state: the two thresholds and, once logging is
/// built, the path of the log file.
pub struct Logging {
    /// Threshold for the log file sink.
    pub log_file_log_level: LogLevel,
    /// Threshold for the console sink.
    pub console_log_level: LogLevel,
    /// Path segments of the current log file; `None` until logging is
    /// built.
    pub current_log_file: Option<Vec<String>>,
}

impl Logging {
    /// Initial state: everything into the log file, warnings and worse on
    /// the console, no log file chosen yet.
    pub fn new() -> (r: Logging)
        ensures
            r.log_file_log_level is Trace,
            r.console_log_level is Warn,
            r.current_log_file is None,
    {
        Logging {
            log_file_log_level: LogLevel::Trace,
            console_log_level: LogLevel::Warn,
            current_log_file: None,
        }
    }

    /// Sets the log-file threshold.
    pub fn set_log_file_log_level(&mut self, level: LogLevel)
        ensures
            final(self).log_file_log_level == level,
            final(self).console_log_level == old(self).console_log_level,
            final(self).current_log_file == old(self).current_log_file,
    {
        self.log_file_log_level = level;
    }

    /// The log-file threshold.
    pub fn get_log_file_log_level(&self) -> (r: LogLevel)
        ensures
            r == self.log_file_log_level,
    {
        self.log_file_log_level
    }

    /// Sets the console threshold.
    pub fn set_console_log_level(&mut self, level: LogLevel)
        ensures
            final(self).console_log_level == level,
            final(self).log_file_log_level == old(self).log_file_log_level,
            final(self).current_log_file == old(self).current_log_file,
    {
        self.console_log_level = level;
    }

    /// The console threshold.
    pub fn get_console_log_level(&self) -> (r: LogLevel)
        ensures
            r == self.console_log_level,
    {
        self.console_log_level
    }

    /// The path of the current log file.  Logging must have been built
    /// first.
    pub fn current_log_file(&self) -> (r: &Vec<String>)
        requires
            self.current_log_file is Some,
        ensures
            self.current_log_file matches Some(v) && r == v,
    {
        match &self.current_log_file {
            Some(v) => v,
            None => {
                proof {
                    assert(false);
                }
                unreached()
            },
        }
    }

    /// Fixes the log file: `binary_name` with the log extension, inside
    /// `log_dir`.  Done once, when the process builds its logging.
    pub fn set_current_log_file(&mut self, log_dir: &Vec<String>, binary_name: &str)
        requires
            old(self).current_log_file is None,
        ensures
            final(self).current_log_file matches Some(v) && name_views(v@) == name_views(
                log_dir@,
            ).push(spec_log_file_name(binary_name@)),
            final(self).log_file_log_level == old(self).log_file_log_level,
            final(self).console_log_level == old(self).console_log_level,
    {
        let mut v: Vec<String> = Vec::new();
        let mut i: usize = 0;
        while i < log_dir.len()
            invariant
                i <= log_dir@.len(),
                name_views(v@) == name_views(log_dir@).take(i as int),
            decreases log_dir@.len() - i,
        {
            let ghost before = v@;
            let c = log_dir[i].clone();
            proof {
                assert(c@ == log_dir@[i as int]@);
            }
            v.push(c);
            proof {
                let nv = name_views(v@);
                let tv = name_views(log_dir@).take(i + 1);
                assert(v@.len() == before.len() + 1);
                assert(name_views(before).len() == before.len());
                assert(nv.len() == tv.len());
                assert forall|j: int| 0 <= j < nv.len() implies nv[j] == tv[j] by {
                    if j < i {
                        assert(v@[j] == before[j]);
                        assert(nv[j] == name_views(before)[j]);
                    } else {
                        assert(v@[j] == c);
                    }
                }
                assert(nv =~= tv);
            }
            i = i + 1;
        }
        v.push(log_file_name(binary_name));
        proof {
            assert(name_views(log_dir@).take(log_dir@.len() as int) =~= name_views(log_dir@));
            assert(name_views(v@) =~= name_views(log_dir@).push(spec_log_file_name(binary_name@)));
        }
        self.current_log_file = Some(v);
    }
}

} // verus!
