//! Crash capture: when the process hits an unrecoverable fault, a single
//! diagnostic text blob — thread name, cause, source location when known,
//! and the stack trace — is written to the error stream and into a
//! crash-dump file in the current run directory.
//!
//! The hook installation and the capture of the trace live with the
//! process, outside this crate; the exact text of the blob and the name
//! of the dump file are decided and verified here.

use crate::run_dir::spec_panic_file_extension;
use crate::text::{decimal_string, spec_decimal};
use vstd::prelude::*;

verus! {

/// The dump text when the fault's source location is known.
pub open spec fn spec_panic_dump_located(
    thread_name: Seq<char>,
    cause: Seq<char>,
    file_name: Seq<char>,
    line: nat,
    column: nat,
    backtrace: Seq<char>,
) -> Seq<char> {
    "Thread '"@ + thread_name + "' panicked at '"@ + cause + "': "@ + file_name + seq![':']
        + spec_decimal(line) + seq![':'] + spec_decimal(column) + seq!['\n'] + backtrace
}

/// The dump text when no source location is available.
pub open spec fn spec_panic_dump_unlocated(
    thread_name: Seq<char>,
    cause: Seq<char>,
    backtrace: Seq<char>,
) -> Seq<char> {
    "Thread '"@ + thread_name + "' panicked at '"@ + cause + "'"@ + seq!['\n'] + backtrace
}

/// Formats the diagnostic blob for a fault with a known source location.
pub fn format_panic_dump_located(
    thread_name: &str,
    cause: &str,
    file_name: &str,
    line: u32,
    column: u32,
    backtrace: &str,
) -> (r: String)
    ensures
        r@ == spec_panic_dump_located(
            thread_name@,
            cause@,
            file_name@,
            line as nat,
            column as nat,
            backtrace@,
        ),
{
    let mut s = String::from_str("Thread '");
    s.append(thread_name);
    s.append("' panicked at '");
    s.append(cause);
    s.append("': ");
    s.append(file_name);
    s.append(":");
    s.append(decimal_string(line as u64).as_str());
    s.append(":");
    s.append(decimal_string(column as u64).as_str());
    s.append("\n");
    s.append(backtrace);
    proof {
        reveal_strlit(":");
        reveal_strlit("\n");
        assert(s@ =~= spec_panic_dump_located(
            thread_name@,
            cause@,
            file_name@,
            line as nat,
            column as nat,
            backtrace@,
        ));
    }
    s
}

/// Formats the diagnostic blob for a fault without a source location.
pub fn format_panic_dump_unlocated(thread_name: &str, cause: &str, backtrace: &str) -> (r: String)
    ensures
        r@ == spec_panic_dump_unlocated(thread_name@, cause@, backtrace@),
{
    let mut s = String::from_str("Thread '");
    s.append(thread_name);
    s.append("' panicked at '");
    s.append(cause);
    s.append("'");
    s.append("\n");
    s.append(backtrace);
    proof {
        reveal_strlit("\n");
        assert(s@ =~= spec_panic_dump_unlocated(thread_name@, cause@, backtrace@));
    }
    s
}

/// The crash-dump file name for a fault captured at `timestamp`: the
/// timestamp text followed by the fixed dump extension.
pub open spec fn spec_panic_file_name(timestamp: Seq<char>) -> Seq<char> {
    timestamp + seq!['.'] + spec_panic_file_extension()
}

/// Builds the crash-dump file name from a rendered timestamp.
pub fn panic_file_name(timestamp: &str) -> (r: String)
    ensures
        r@ == spec_panic_file_name(timestamp@),
{
    let mut s = String::from_str(timestamp);
    s.append(".");
    s.append("panic");
    proof {
        reveal_strlit(".");
        assert(s@ =~= spec_panic_file_name(timestamp@));
    }
    s
}

/// Relies on std::time::SystemTime::now and duration_since: the wall
/// clock as whole seconds since the Unix epoch plus the subsecond
/// nanoseconds (below one billion, as std documents); a clock set before
/// the epoch reads as the epoch itself.
#[verifier::external_body]
fn unix_time() -> (r: (u64, u32))
    ensures
        r.1 < 1000000000,
{
    match std::time::SystemTime::now().duration_since(std::time::UNIX_EPOCH) {
        Ok(d) => (d.as_secs(), d.subsec_nanos()),
        Err(_) => (0, 0),
    }
}

/// The RFC 3339 rendering of a time since the Unix epoch.
pub uninterp spec fn rfc3339_of(secs: u64, nanos: u32) -> Seq<char>;

/// Relies on humantime::format_rfc3339, over a post-epoch time below the
/// year 10000: within those bounds the rendering cannot fail, is never
/// empty, and draws only on digits, '-', ':', '.', 'T' and 'Z', so it
/// holds no path separator.
#[verifier::external_body]
fn format_rfc3339(secs: u64, nanos: u32) -> (r: String)
    requires
        secs < 253402300800,
        nanos < 1000000000,
    ensures
        r@ == rfc3339_of(secs, nanos),
        r@.len() > 0,
        !r@.contains('/'),
{
    humantime::format_rfc3339(
        std::time::UNIX_EPOCH + std::time::Duration::new(secs, nanos),
    ).to_string()
}

/// An RFC 3339 stem for a crash-dump file name, read from the wall
/// clock.  The capture path must not fault, so the clock is pinned into
/// the range the rendering accepts: a pre-epoch clock reads as the
/// epoch, one at or past the year 10000 as its last representable
/// second.
pub fn now_rfc3339() -> (r: String)
    ensures
        r@.len() > 0,
        !r@.contains('/'),
{
    let (secs, nanos) = unix_time();
    if secs >= 253402300800 {
        format_rfc3339(253402300799, 0)
    } else {
        format_rfc3339(secs, nanos)
    }
}

/// A crash-dump file name built from a non-empty, separator-free stem is
/// recognized as crash evidence by the cleanup and archival queries.
pub proof fn lemma_panic_file_name_is_dump(timestamp: Seq<char>)
    requires
        timestamp.len() > 0,
        !timestamp.contains('/'),
    ensures
        crate::run_dir::is_panic_file_path(spec_panic_file_name(timestamp)),
{
    reveal_strlit(".panic");
    reveal_strlit("panic");
    reveal_strlit(".");
    let p = spec_panic_file_name(timestamp);
    assert(spec_panic_file_extension().len() == 5);
    assert(".panic"@.len() == 6);
    assert(p.len() == timestamp.len() + 6);
    assert(p.skip(p.len() - 6) =~= ".panic"@);
    assert forall|i: int| 0 <= i < p.len() implies p[i] != '/' by {
        if i < timestamp.len() {
            assert(p[i] == timestamp[i]);
        }
    }
    assert(crate::text::spec_ends_with(p, ".panic"@));
}

} // verus!
