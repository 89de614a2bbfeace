//! The archive builder: streams a set of run directories into one zip
//! container, preserving each directory's relative structure under a root
//! three levels above it, so that unpacking reconstructs a recognizable
//! run-directory tree.
//!
//! The zip encoding itself comes from the `zip` crate, reached only
//! through the trusted wrappers below; everything around the calls — which
//! entries are written, under which paths, with which bytes, in which
//! order — is verified.

use crate::run_dir::{spec_lock_file_name, lock_file_name, DirModel, RunDirectory};
use crate::container::name_views;
use std::io::Cursor;
use std::io::Write;
use vstd::prelude::*;

verus! {

/// Default file extension for archives.
pub open spec fn spec_archive_default_file_extension() -> Seq<char> {
    "zip"@
}

/// Exec counterpart of [`spec_archive_default_file_extension`].
pub fn archive_default_file_extension() -> (r: &'static str)
    ensures
        r@ == spec_archive_default_file_extension(),
{
    "zip"
}

/// MIME type advertised for archives.
pub fn archive_mime_type() -> (r: &'static str)
    ensures
        r@ == "application/x-zip"@,
{
    "application/x-zip"
}

/// Files are streamed into the archive in chunks of this many bytes, so
/// peak memory per write is bounded no matter how large a file is.
pub const READ_CHUNK_SIZE: usize = 65536;

/// Why building an archive failed.
#[derive(Debug)]
pub enum ArchiveError {
    /// No source directories were given; no archive was started.
    EmptySources,
    /// The zip encoder or its buffer failed; the message renders the
    /// underlying cause.
    Failure { message: String },
}

impl ArchiveError {
    /// A short human-readable rendering of the error.
    pub fn message(&self) -> (r: String)
        ensures
            self is EmptySources ==> r@ == "Cannot archive empty list of directories"@,
            self matches ArchiveError::Failure { message } ==> r@ == message@,
    {
        match self {
            ArchiveError::EmptySources => String::from_str("Cannot archive empty list of directories"),
            ArchiveError::Failure { message } => message.clone(),
        }
    }
}

/// An archive in the making: a `zip::ZipWriter` over an in-memory
/// buffer.  Verus refuses to declare the writer type itself (its generic
/// parameter is bound by std's `Write` and `Seek`), so it is held opaque
/// here and reached only through the trusted wrappers below.
#[verifier::external_body]
pub struct ArchiveWriter {
    inner: zip::ZipWriter<Cursor<Vec<u8>>>,
}

#[verifier::external_type_specification]
#[verifier::external_body]
pub struct ExZipError(zip::result::ZipError);

#[verifier::external_type_specification]
#[verifier::external_body]
pub struct ExIoError(std::io::Error);

/// The entries a writer holds so far, in the order they were started:
/// path inside the archive, whether it is a directory entry, and the
/// bytes streamed into it.
pub uninterp spec fn archive_entries(w: &ArchiveWriter) -> Seq<(Seq<char>, bool, Seq<u8>)>;

/// Whether the writer has a file entry open for writing: file entries
/// are open from `start_file` until the next directory entry or the end.
pub uninterp spec fn open_for_write(w: &ArchiveWriter) -> bool;

/// That `bytes` is a zip container holding exactly `entries`.
pub uninterp spec fn zip_encodes(bytes: Seq<u8>, entries: Seq<(Seq<char>, bool, Seq<u8>)>) -> bool;

/// No two entries share a path: the zip format refuses duplicates.
pub open spec fn entry_paths_distinct(es: Seq<(Seq<char>, bool, Seq<u8>)>) -> bool {
    forall|i: int, j: int| 0 <= i < j < es.len() ==> es[i].0 != es[j].0
}

/// Every entry fits the format comfortably: its path fits the 16-bit
/// name-length field, and its body stays below 2 GiB, which keeps even
/// the compressed form below the zip64 threshold (deflate adds well
/// under one percent).
pub open spec fn entries_storable(es: Seq<(Seq<char>, bool, Seq<u8>)>) -> bool {
    forall|i: int|
        0 <= i < es.len() ==> vstd::utf8::encode_utf8((#[trigger] es[i]).0).len() <= 65535 && (
        #[trigger] es[i]).2.len() < 0x80000000
}

/// How `zip` stores a directory entry's path: a trailing slash is added
/// unless the name already ends in a slash or backslash.
pub open spec fn dir_slash(p: Seq<char>) -> Seq<char> {
    if p.len() > 0 && (p.last() == '/' || p.last() == '\\') {
        p
    } else {
        p.push('/')
    }
}

/// Relies on zip::ZipWriter::new: a fresh writer over an in-memory
/// buffer holds no entries.
#[verifier::external_body]
fn archive_writer_new() -> (w: ArchiveWriter)
    ensures
        archive_entries(&w) == Seq::<(Seq<char>, bool, Seq<u8>)>::empty(),
{
    ArchiveWriter { inner: zip::ZipWriter::new(Cursor::new(Vec::new())) }
}

/// Relies on zip::ZipWriter::start_file with default options: on success
/// a new, empty file entry under the given path is appended and opened
/// for writing.  Over an in-memory buffer, while every entry so far is
/// within the format's bounds (finishing the previously open entry
/// rewrites its header), the only failures are a path already present
/// (the entry map refuses duplicates) and a name beyond the 16-bit
/// length field of the entry header.
#[verifier::external_body]
fn archive_start_file(w: &mut ArchiveWriter, name: &str) -> (r: Result<
    (),
    zip::result::ZipError,
>)
    ensures
        r is Ok ==> archive_entries(final(w)) == archive_entries(old(w)).push(
            (name@, false, Seq::<u8>::empty()),
        ) && open_for_write(final(w)),
        ({
            let es = archive_entries(old(w));
            (entries_storable(es) && (forall|i: int|
                0 <= i < es.len() ==> (#[trigger] es[i]).0 != name@) && vstd::utf8::encode_utf8(
                name@,
            ).len() <= 65535) ==> r is Ok
        }),
{
    w.inner.start_file(name, zip::write::SimpleFileOptions::default())
}

/// Relies on zip::ZipWriter::add_directory with default options: on
/// success a directory entry is appended, its path given a trailing slash
/// when missing, and no file is left open.  The failure modes are those
/// of `start_file`, for the slashed path.
#[verifier::external_body]
fn archive_add_directory(w: &mut ArchiveWriter, name: &str) -> (r: Result<
    (),
    zip::result::ZipError,
>)
    ensures
        r is Ok ==> archive_entries(final(w)) == archive_entries(old(w)).push(
            (dir_slash(name@), true, Seq::<u8>::empty()),
        ),
        ({
            let es = archive_entries(old(w));
            (entries_storable(es) && (forall|i: int|
                0 <= i < es.len() ==> (#[trigger] es[i]).0 != dir_slash(name@))
                && vstd::utf8::encode_utf8(dir_slash(name@)).len() <= 65535) ==> r is Ok
        }),
{
    w.inner.add_directory(name, zip::write::SimpleFileOptions::default())
}

/// Relies on the std::io::Write impl of zip::ZipWriter: write_all appends
/// the buffer to the file entry currently open, which is the last one
/// started; it fails when no file is open, or when the entry's
/// uncompressed bytes would pass the zip64 threshold without the
/// large-file flag.  Over an in-memory buffer those are the only
/// failures.  An empty buffer is left out: std's write_all returns
/// without calling write on it, so it would say nothing about the
/// writer.
#[verifier::external_body]
fn archive_write_chunk(w: &mut ArchiveWriter, buf: &[u8]) -> (r: Result<
    (),
    std::io::Error,
>)
    requires
        buf@.len() > 0,
    ensures
        r is Ok ==> ({
            let es = archive_entries(old(w));
            &&& es.len() > 0
            &&& archive_entries(final(w)) == es.update(
                es.len() - 1,
                (es.last().0, es.last().1, es.last().2 + buf@),
            )
            &&& open_for_write(final(w))
        }),
        ({
            let es = archive_entries(old(w));
            (open_for_write(old(w)) && es.len() > 0 && es.last().2.len() + buf@.len()
                <= 0xFFFFFFFF) ==> r is Ok
        }),
{
    w.inner.write_all(buf)
}

/// Relies on zip::ZipWriter::finish and std::io::Cursor::into_inner: on
/// success the central directory and the end-of-central-directory record
/// (at least 22 bytes) are written and the buffer holds a zip container
/// with exactly the entries written so far.  Over an in-memory buffer
/// finishing succeeds whenever every entry fits the format, as
/// [`entries_storable`] bounds it.
#[verifier::external_body]
fn archive_finish(w: ArchiveWriter) -> (r: Result<Vec<u8>, zip::result::ZipError>)
    ensures
        r matches Ok(bytes) ==> zip_encodes(bytes@, archive_entries(&w)) && bytes@.len() >= 22,
        entries_storable(archive_entries(&w)) ==> r is Ok,
{
    match w.inner.finish() {
        Ok(cursor) => Ok(cursor.into_inner()),
        Err(e) => Err(e),
    }
}

/// Relies on the std Display impl of the error (through ToString) for a
/// human-readable cause.
#[verifier::external_body]
fn zip_error_message(e: &zip::result::ZipError) -> (r: String) {
    e.to_string()
}

/// Relies on the std Display impl of the error (through ToString) for a
/// human-readable cause.
#[verifier::external_body]
fn io_error_message(e: &std::io::Error) -> (r: String) {
    e.to_string()
}

/// An archive failure with the offending entry path attached.
fn failure_at_path(context: &str, path: &str, cause: &String) -> (r: ArchiveError)
    ensures
        r matches ArchiveError::Failure { message } && message@ == context@ + path@ + "': "@
            + cause@,
{
    let mut m = String::from_str(context);
    m.append(path);
    m.append("': ");
    m.append(cause.as_str());
    ArchiveError::Failure { message: m }
}

/// An archive failure with no single offending entry.
fn failure_plain(context: &str, cause: &String) -> (r: ArchiveError)
    ensures
        r matches ArchiveError::Failure { message } && message@ == context@ + cause@,
{
    let mut m = String::from_str(context);
    m.append(cause.as_str());
    ArchiveError::Failure { message: m }
}

/// The relative-path root written into the archive: the last two segments
/// of the container path lead each entry, so unrelated run directories
/// collapse into one comprehensible tree.  With a shallower container
/// path the run directory itself is the root and entries carry no prefix.
pub open spec fn spec_prefix(path: Seq<Seq<char>>, name: Seq<char>) -> Seq<char> {
    if path.len() >= 2 {
        path[path.len() - 2] + seq!['/'] + path[path.len() - 1] + seq!['/'] + name
    } else {
        Seq::empty()
    }
}

/// An entry path under the prefix.
pub open spec fn spec_entry_path(prefix: Seq<char>, rel: Seq<char>) -> Seq<char> {
    if prefix.len() == 0 {
        rel
    } else {
        prefix + seq!['/'] + rel
    }
}

/// The archive entries contributed by one run directory: its own
/// directory entry (when the prefix is non-empty), one directory entry
/// per nested directory, the lock file if present (empty content), and
/// one file entry per diagnostic file.
pub open spec fn spec_dir_entries(prefix: Seq<char>, d: DirModel) -> Seq<
    (Seq<char>, bool, Seq<u8>),
> {
    let head: Seq<(Seq<char>, bool, Seq<u8>)> = if prefix.len() > 0 {
        seq![(dir_slash(prefix), true, Seq::<u8>::empty())]
    } else {
        Seq::empty()
    };
    let subs = d.subdirs.map_values(
        |s: Seq<char>| (dir_slash(spec_entry_path(prefix, s)), true, Seq::<u8>::empty()),
    );
    let lockf: Seq<(Seq<char>, bool, Seq<u8>)> = if d.lock_file {
        seq![(spec_entry_path(prefix, spec_lock_file_name()), false, Seq::<u8>::empty())]
    } else {
        Seq::empty()
    };
    let files = d.files.map_values(
        |f: crate::run_dir::FileModel| (spec_entry_path(prefix, f.path), false, f.data),
    );
    head + subs + lockf + files
}

/// All entries of an archive over `dirs`, in order.
pub open spec fn spec_archive_entries(path: Seq<Seq<char>>, dirs: Seq<DirModel>) -> Seq<
    (Seq<char>, bool, Seq<u8>),
>
    decreases dirs.len(),
{
    if dirs.len() == 0 {
        Seq::empty()
    } else {
        spec_archive_entries(path, dirs.drop_last()) + spec_dir_entries(
            spec_prefix(path, dirs.last().name),
            dirs.last(),
        )
    }
}

/// Planned entries distribute over concatenation of directory lists.
pub proof fn lemma_archive_entries_concat(path: Seq<Seq<char>>, a: Seq<DirModel>, b: Seq<DirModel>)
    ensures
        spec_archive_entries(path, a + b) == spec_archive_entries(path, a) + spec_archive_entries(
            path,
            b,
        ),
    decreases b.len(),
{
    if b.len() == 0 {
        assert(a + b =~= a);
        assert(spec_archive_entries(path, a) + spec_archive_entries(path, b)
            =~= spec_archive_entries(path, a));
    } else {
        assert((a + b).drop_last() =~= a + b.drop_last());
        assert((a + b).last() == b.last());
        lemma_archive_entries_concat(path, a, b.drop_last());
        assert(spec_archive_entries(path, a + b) =~= spec_archive_entries(path, a)
            + spec_archive_entries(path, b));
    }
}

/// Builds the relative-path prefix for one run directory.
fn archive_prefix(container_path: &Vec<String>, name: &str) -> (r: String)
    ensures
        r@ == spec_prefix(name_views(container_path@), name@),
{
    if container_path.len() >= 2 {
        let n = container_path.len();
        let mut s = String::new();
        s.append(container_path[n - 2].as_str());
        s.append("/");
        s.append(container_path[n - 1].as_str());
        s.append("/");
        s.append(name);
        proof {
            reveal_strlit("/");
            assert(s@ =~= spec_prefix(name_views(container_path@), name@));
        }
        s
    } else {
        String::new()
    }
}

/// Joins an entry's relative path onto the prefix.
fn joined_entry_path(prefix: &str, rel: &str) -> (r: String)
    ensures
        r@ == spec_entry_path(prefix@, rel@),
{
    if prefix.unicode_len() == 0 {
        let r = String::from_str(rel);
        proof {
            assert(prefix@.len() == 0);
        }
        r
    } else {
        let mut s = String::from_str(prefix);
        s.append("/");
        s.append(rel);
        proof {
            reveal_strlit("/");
            assert(s@ =~= spec_entry_path(prefix@, rel@));
        }
        s
    }
}

/// Builds one zip archive over `dirs`, rooted as [`spec_prefix`] says,
/// and returns its bytes.  An empty source list fails up front, before
/// any writer exists; a zip failure is surfaced with the offending entry
/// path and the underlying cause attached.  On success the bytes hold
/// exactly the planned entries — and success is owed whenever the
/// planned entries are well formed: paths pairwise distinct and every
/// entry within the format's bounds.
#[verifier::rlimit(100)]
pub fn create_archive(container_path: &Vec<String>, dirs: &Vec<RunDirectory>) -> (r: Result<
    Vec<u8>,
    ArchiveError,
>)
    ensures
        ({
            let entries = spec_archive_entries(
                name_views(container_path@),
                dirs@.map_values(|d: RunDirectory| d@),
            );
            match r {
                Ok(bytes) => zip_encodes(bytes@, entries) && bytes@.len() >= 22 && dirs@.len() > 0,
                Err(e) => e is EmptySources <==> dirs@.len() == 0,
            }
        }),
        ({
            let entries = spec_archive_entries(
                name_views(container_path@),
                dirs@.map_values(|d: RunDirectory| d@),
            );
            (dirs@.len() > 0 && entry_paths_distinct(entries) && entries_storable(entries))
                ==> r is Ok
        }),
{
    let ghost pv = name_views(container_path@);
    let ghost dv = dirs@.map_values(|d: RunDirectory| d@);
    let ghost full = spec_archive_entries(pv, dv);
    let ghost archivable = dirs@.len() > 0 && entry_paths_distinct(full) && entries_storable(full);
    if dirs.len() == 0 {
        return Err(ArchiveError::EmptySources);
    }
    let mut w = archive_writer_new();
    let mut i: usize = 0;
    while i < dirs.len()
        invariant
            pv == name_views(container_path@),
            dv == dirs@.map_values(|d: RunDirectory| d@),
            full == spec_archive_entries(pv, dv),
            archivable == (dirs@.len() > 0 && entry_paths_distinct(full) && entries_storable(
                full,
            )),
            dirs@.len() > 0,
            i <= dirs@.len(),
            archive_entries(&w) == spec_archive_entries(pv, dv.take(i as int)),
        decreases dirs@.len() - i,
    {
        proof {
            assert(dv.take(i + 1).drop_last() =~= dv.take(i as int));
            assert(dv.take(i + 1).last() == dv[i as int]);
            assert(dv[i as int] == (#[trigger] dirs@[i as int])@);
        }
        let ghost base = spec_archive_entries(pv, dv.take(i as int));
        let ghost dm = dv[i as int];
        let d = &dirs[i];
        let prefix = archive_prefix(container_path, d.name.as_str());
        let ghost pfx = spec_prefix(pv, dm.name);
        let ghost head: Seq<(Seq<char>, bool, Seq<u8>)> = if pfx.len() > 0 {
            seq![(dir_slash(pfx), true, Seq::<u8>::empty())]
        } else {
            Seq::empty()
        };
        let ghost subs = dm.subdirs.map_values(
            |s: Seq<char>| (dir_slash(spec_entry_path(pfx, s)), true, Seq::<u8>::empty()),
        );
        let ghost lockf: Seq<(Seq<char>, bool, Seq<u8>)> = if dm.lock_file {
            seq![(spec_entry_path(pfx, spec_lock_file_name()), false, Seq::<u8>::empty())]
        } else {
            Seq::empty()
        };
        let ghost fents = dm.files.map_values(
            |f: crate::run_dir::FileModel| (spec_entry_path(pfx, f.path), false, f.data),
        );
        let ghost tail = spec_archive_entries(pv, dv.skip(i + 1));
        proof {
            assert(dv.take(i as int) + dv.skip(i as int) =~= dv);
            lemma_archive_entries_concat(pv, dv.take(i as int), dv.skip(i as int));
            assert(dv.skip(i as int) =~= seq![dm] + dv.skip(i + 1));
            lemma_archive_entries_concat(pv, seq![dm], dv.skip(i + 1));
            assert(seq![dm].drop_last() =~= Seq::<DirModel>::empty());
            assert(seq![dm].last() == dm);
            assert(seq![dm].len() == 1);
            assert(spec_archive_entries(pv, Seq::<DirModel>::empty())
                =~= Seq::<(Seq<char>, bool, Seq<u8>)>::empty());
            assert(spec_archive_entries(pv, seq![dm]) == spec_archive_entries(
                pv,
                seq![dm].drop_last(),
            ) + spec_dir_entries(spec_prefix(pv, seq![dm].last().name), seq![dm].last()));
            assert(spec_archive_entries(pv, seq![dm]) =~= spec_dir_entries(
                spec_prefix(pv, dm.name),
                dm,
            ));
            assert(spec_dir_entries(pfx, dm) =~= head + subs + lockf + fents);
            assert(full =~= base + (head + subs + lockf + fents) + tail);
        }

        if prefix.unicode_len() > 0 {
            match archive_add_directory(&mut w, prefix.as_str()) {
                Ok(()) => {
                    proof {
                        assert(archive_entries(&w) =~= base + head);
                    }
                },
                Err(e) => {
                    proof {
                        if archivable {
                            assert(head.len() == 1);
                            assert(full[base.len() as int] == (
                                dir_slash(pfx),
                                true,
                                Seq::<u8>::empty(),
                            ));
                            assert forall|t: int| 0 <= t < base.len() implies (
                            #[trigger] base[t]).0 != dir_slash(prefix@) by {
                                assert(base[t] == full[t]);
                                assert(full[t].0 != full[base.len() as int].0);
                            }
                            assert(entries_storable(base)) by {
                                assert(forall|t: int|
                                    0 <= t < base.len() ==> #[trigger] base[t] == full[t]);
                            }
                            assert(vstd::utf8::encode_utf8(dir_slash(prefix@)).len() <= 65535);
                            assert(false);
                        }
                    }
                    return Err(failure_at_path(
                        "Cannot add directory '",
                        prefix.as_str(),
                        &zip_error_message(&e),
                    ));
                },
            }
        } else {
            proof {
                assert(archive_entries(&w) =~= base + head);
            }
        }

        let mut j: usize = 0;
        while j < d.subdirs.len()
            invariant
                dm == dirs@[i as int]@,
                i < dirs@.len(),
                d == dirs@[i as int],
                j <= d.subdirs@.len(),
                pfx == spec_prefix(pv, dm.name),
                prefix@ == pfx,
                pv == name_views(container_path@),
                dv == dirs@.map_values(|x: RunDirectory| x@),
                full == spec_archive_entries(pv, dv),
                dirs@.len() > 0,
                archivable == (dirs@.len() > 0 && entry_paths_distinct(full)
                    && entries_storable(full)),
                full == base + (head + subs + lockf + fents) + tail,
                head == (if pfx.len() > 0 {
                    seq![(dir_slash(pfx), true, Seq::<u8>::empty())]
                } else {
                    Seq::<(Seq<char>, bool, Seq<u8>)>::empty()
                }),
                subs == dm.subdirs.map_values(
                    |s: Seq<char>| (dir_slash(spec_entry_path(pfx, s)), true, Seq::<u8>::empty()),
                ),
                archive_entries(&w) == base + head + subs.take(j as int),
            decreases d.subdirs@.len() - j,
        {
            let p = joined_entry_path(prefix.as_str(), d.subdirs[j].as_str());
            proof {
                assert(dm.subdirs[j as int] == (#[trigger] d.subdirs@[j as int])@);
            }
            match archive_add_directory(&mut w, p.as_str()) {
                Ok(()) => {
                    proof {
                        assert(subs.take(j + 1) =~= subs.take(j as int).push(subs[j as int]));
                        assert(archive_entries(&w) =~= base + head + subs.take(j + 1));
                    }
                },
                Err(e) => {
                    proof {
                        if archivable {
                            let cur = base + head + subs.take(j as int);
                            let idx = cur.len() as int;
                            assert(full[idx] == subs[j as int]);
                            assert(subs[j as int].0 == dir_slash(p@));
                            assert forall|t: int| 0 <= t < cur.len() implies (
                            #[trigger] cur[t]).0 != dir_slash(p@) by {
                                assert(cur[t] == full[t]);
                                assert(full[t].0 != full[idx].0);
                            }
                            assert(entries_storable(cur)) by {
                                assert(forall|t: int|
                                    0 <= t < cur.len() ==> #[trigger] cur[t] == full[t]);
                            }
                            assert(vstd::utf8::encode_utf8(dir_slash(p@)).len() <= 65535);
                            assert(false);
                        }
                    }
                    return Err(failure_at_path(
                        "Cannot add directory '",
                        p.as_str(),
                        &zip_error_message(&e),
                    ));
                },
            }
            j = j + 1;
        }
        proof {
            assert(subs.take(dm.subdirs.len() as int) =~= subs);
        }

        if d.lock_file {
            let p = joined_entry_path(prefix.as_str(), lock_file_name());
            match archive_start_file(&mut w, p.as_str()) {
                Ok(()) => {
                    proof {
                        assert(archive_entries(&w) =~= base + head + subs + lockf);
                    }
                },
                Err(e) => {
                    proof {
                        if archivable {
                            let cur = base + head + subs;
                            let idx = cur.len() as int;
                            assert(lockf.len() == 1);
                            assert(full[idx] == lockf[0]);
                            assert(lockf[0].0 == p@);
                            assert forall|t: int| 0 <= t < cur.len() implies (
                            #[trigger] cur[t]).0 != p@ by {
                                assert(cur[t] == full[t]);
                                assert(full[t].0 != full[idx].0);
                            }
                            assert(entries_storable(cur)) by {
                                assert(forall|t: int|
                                    0 <= t < cur.len() ==> #[trigger] cur[t] == full[t]);
                            }
                            assert(vstd::utf8::encode_utf8(p@).len() <= 65535);
                            assert(false);
                        }
                    }
                    return Err(failure_at_path(
                        "Cannot add file '",
                        p.as_str(),
                        &zip_error_message(&e),
                    ));
                },
            }
        } else {
            proof {
                assert(archive_entries(&w) =~= base + head + subs + lockf);
            }
        }

        let mut k: usize = 0;
        while k < d.files.len()
            invariant
                dm == dirs@[i as int]@,
                i < dirs@.len(),
                d == dirs@[i as int],
                k <= d.files@.len(),
                pfx == spec_prefix(pv, dm.name),
                prefix@ == pfx,
                pv == name_views(container_path@),
                dv == dirs@.map_values(|x: RunDirectory| x@),
                full == spec_archive_entries(pv, dv),
                dirs@.len() > 0,
                archivable == (dirs@.len() > 0 && entry_paths_distinct(full)
                    && entries_storable(full)),
                full == base + (head + subs + lockf + fents) + tail,
                fents == dm.files.map_values(
                    |f: crate::run_dir::FileModel| (spec_entry_path(pfx, f.path), false, f.data),
                ),
                archive_entries(&w) == base + head + subs + lockf + fents.take(k as int),
            decreases d.files@.len() - k,
        {
            let p = joined_entry_path(prefix.as_str(), d.files[k].path.as_str());
            proof {
                assert(dm.files[k as int] == (#[trigger] d.files@[k as int])@);
            }
            let ghost upto = base + head + subs + lockf + fents.take(k as int);
            match archive_start_file(&mut w, p.as_str()) {
                Ok(()) => {},
                Err(e) => {
                    proof {
                        if archivable {
                            let idx = upto.len() as int;
                            assert(full[idx] == fents[k as int]);
                            assert(fents[k as int].0 == p@);
                            assert forall|t: int| 0 <= t < upto.len() implies (
                            #[trigger] upto[t]).0 != p@ by {
                                assert(upto[t] == full[t]);
                                assert(full[t].0 != full[idx].0);
                            }
                            assert(entries_storable(upto)) by {
                                assert(forall|t: int|
                                    0 <= t < upto.len() ==> #[trigger] upto[t] == full[t]);
                            }
                            assert(vstd::utf8::encode_utf8(p@).len() <= 65535);
                            assert(false);
                        }
                    }
                    return Err(failure_at_path(
                        "Cannot add file '",
                        p.as_str(),
                        &zip_error_message(&e),
                    ));
                },
            }
            let data = &d.files[k].data;
            let mut off: usize = 0;
            proof {
                assert(data@.take(0) =~= Seq::<u8>::empty());
                assert(archive_entries(&w) =~= upto.push(
                    (spec_entry_path(pfx, dm.files[k as int].path), false, data@.take(0)),
                ));
            }
            while off < data.len()
                invariant
                    off <= data@.len(),
                    data == &dirs@[i as int].files@[k as int].data,
                    i < dirs@.len(),
                    k < dirs@[i as int].files@.len(),
                    dm == dirs@[i as int]@,
                    pfx == spec_prefix(pv, dm.name),
                    pv == name_views(container_path@),
                    dv == dirs@.map_values(|x: RunDirectory| x@),
                    full == spec_archive_entries(pv, dv),
                    dirs@.len() > 0,
                    archivable == (dirs@.len() > 0 && entry_paths_distinct(full)
                        && entries_storable(full)),
                    full == base + (head + subs + lockf + fents) + tail,
                    fents == dm.files.map_values(
                        |f: crate::run_dir::FileModel| (
                            spec_entry_path(pfx, f.path),
                            false,
                            f.data,
                        ),
                    ),
                    upto == base + head + subs + lockf + fents.take(k as int),
                    open_for_write(&w),
                    archive_entries(&w) == upto.push(
                        (spec_entry_path(pfx, dm.files[k as int].path), false, data@.take(
                            off as int,
                        )),
                    ),
                decreases data@.len() - off,
            {
                let end = if data.len() - off > READ_CHUNK_SIZE {
                    off + READ_CHUNK_SIZE
                } else {
                    data.len()
                };
                let chunk = &data.as_slice()[off..end];
                match archive_write_chunk(&mut w, chunk) {
                    Ok(()) => {
                        proof {
                            assert(data@.take(off as int) + chunk@ =~= data@.take(end as int));
                            assert(archive_entries(&w) =~= upto.push(
                                (spec_entry_path(pfx, dm.files[k as int].path), false, data@.take(
                                    end as int,
                                )),
                            ));
                        }
                    },
                    Err(e) => {
                        proof {
                            if archivable {
                                let idx = upto.len() as int;
                                assert(full[idx] == fents[k as int]);
                                assert(fents[k as int].2 == data@);
                                assert(data@.len() < 0x80000000);
                                assert(false);
                            }
                        }
                        return Err(failure_at_path(
                            "Cannot write file buffer '",
                            p.as_str(),
                            &io_error_message(&e),
                        ));
                    },
                }
                off = end;
            }
            proof {
                assert(data@.take(data@.len() as int) =~= data@);
                assert(fents.take(k + 1) =~= fents.take(k as int).push(fents[k as int]));
                assert(archive_entries(&w) =~= base + head + subs + lockf + fents.take(k + 1));
            }
            k = k + 1;
        }
        proof {
            assert(fents.take(dm.files.len() as int) =~= fents);
            assert(base + head + subs + lockf + fents =~= base + spec_dir_entries(pfx, dm));
            assert(archive_entries(&w) =~= spec_archive_entries(pv, dv.take(i + 1)));
        }
        i = i + 1;
    }
    proof {
        assert(dv.take(dirs@.len() as int) =~= dv);
    }
    match archive_finish(w) {
        Ok(bytes) => Ok(bytes),
        Err(e) => {
            proof {
                if archivable {
                    assert(false);
                }
            }
            Err(failure_plain("Cannot finish archive: ", &zip_error_message(&e)))
        },
    }
}

} // verus!
