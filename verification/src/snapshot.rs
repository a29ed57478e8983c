//! A plain-value snapshot of the filesystem, as the pipeline sees it.
//!
//! The pipeline itself never touches the filesystem: the caller observes
//! whatever directories and regular files the run may need and hands them
//! over as one value. `dirs` lists the directories that exist and can be
//! listed; `failures` records, for a directory that could not be listed,
//! the underlying I/O detail, which an enumeration error then carries;
//! `files` lists the regular files, in the caller's traversal order — that
//! order is the pipeline's discovery order. A file the caller could not
//! open or fully read is handed over with `readable == false` and the
//! failure's detail in `detail`, and aborts the run with a read error when
//! discovered.

use vstd::prelude::*;
use crate::path_text::is_absolute;

verus! {

/// One regular file of the snapshot: its absolute path, its full byte
/// content, whether the content could actually be read, and — when it
/// could not — the underlying I/O detail.
#[derive(Debug, Clone, PartialEq, Eq)]
pub struct FsFile {
    pub path: String,
    pub content: Vec<u8>,
    pub readable: bool,
    pub detail: String,
}

/// The mathematical model of an [`FsFile`].
#[verifier::ext_equal]
pub struct FileModel {
    pub path: Seq<char>,
    pub content: Seq<u8>,
    pub readable: bool,
    pub detail: Seq<char>,
}

impl View for FsFile {
    type V = FileModel;

    open spec fn view(&self) -> FileModel {
        FileModel {
            path: self.path@,
            content: self.content@,
            readable: self.readable,
            detail: self.detail@,
        }
    }
}

/// A directory the caller tried to list and could not, with the underlying
/// I/O detail.
#[derive(Debug, Clone, PartialEq, Eq)]
pub struct DirFailure {
    pub path: String,
    pub detail: String,
}

/// The mathematical model of a [`DirFailure`].
#[verifier::ext_equal]
pub struct DirFailureModel {
    pub path: Seq<char>,
    pub detail: Seq<char>,
}

impl View for DirFailure {
    type V = DirFailureModel;

    open spec fn view(&self) -> DirFailureModel {
        DirFailureModel { path: self.path@, detail: self.detail@ }
    }
}

/// A snapshot of the filesystem: the listable directories, the recorded
/// listing failures, and the regular files, the latter in traversal
/// (= discovery) order.
#[derive(Debug, Clone, PartialEq, Eq)]
pub struct FsSnapshot {
    pub dirs: Vec<String>,
    pub failures: Vec<DirFailure>,
    pub files: Vec<FsFile>,
}

/// The mathematical model of an [`FsSnapshot`].
#[verifier::ext_equal]
pub struct SnapshotModel {
    pub dirs: Seq<Seq<char>>,
    pub failures: Seq<DirFailureModel>,
    pub files: Seq<FileModel>,
}

impl View for FsSnapshot {
    type V = SnapshotModel;

    open spec fn view(&self) -> SnapshotModel {
        SnapshotModel {
            dirs: self.dirs@.map_values(|d: String| d@),
            failures: self.failures@.map_values(|f: DirFailure| f@),
            files: self.files@.map_values(|f: FsFile| f@),
        }
    }
}

/// A well-formed snapshot, as any real filesystem traversal yields it:
/// every file path is absolute, does not end with the separator, and
/// occurs only once.
pub open spec fn snapshot_wf(s: SnapshotModel) -> bool {
    &&& forall|i: int| 0 <= i < s.files.len() ==> is_absolute(#[trigger] s.files[i].path)
    &&& forall|i: int|
        0 <= i < s.files.len() ==> (#[trigger] s.files[i].path)[s.files[i].path.len() - 1] != '/'
    &&& forall|i: int, j: int|
        0 <= i < j < s.files.len() ==> s.files[i].path != s.files[j].path
}

/// Whether the snapshot lists `path` as an existing, listable directory.
pub open spec fn dir_listed(dirs: Seq<Seq<char>>, path: Seq<char>) -> bool {
    exists|i: int| 0 <= i < dirs.len() && dirs[i] == path
}

/// The I/O detail that makes a directory unusable: the detail of the first
/// recorded listing failure for `path`, or the fixed text for a directory
/// the caller never saw.
pub open spec fn listing_detail(failures: Seq<DirFailureModel>, path: Seq<char>) -> Seq<char>
    decreases failures.len(),
{
    if failures.len() == 0 {
        "no such directory"@
    } else if failures[0].path == path {
        failures[0].detail
    } else {
        listing_detail(failures.drop_first(), path)
    }
}

/// Whether the snapshot lists the directory `path`.
pub fn snapshot_has_dir(snapshot: &FsSnapshot, path: &String) -> (r: bool)
    ensures
        r == dir_listed(snapshot@.dirs, path@),
{
    let n = snapshot.dirs.len();
    let mut i: usize = 0;
    while i < n
        invariant
            n == snapshot.dirs@.len(),
            i <= n,
            forall|j: int| 0 <= j < i ==> snapshot@.dirs[j] != path@,
        decreases n - i,
    {
        if snapshot.dirs[i].eq(path) {
            assert(snapshot@.dirs[i as int] == path@);
            return true;
        }
        i += 1;
    }
    false
}

/// The I/O detail the snapshot records for the unusable directory `path`.
pub fn snapshot_listing_detail(snapshot: &FsSnapshot, path: &String) -> (r: String)
    ensures
        r@ == listing_detail(snapshot@.failures, path@),
{
    let n = snapshot.failures.len();
    proof {
        assert(snapshot@.failures.skip(0) =~= snapshot@.failures);
    }
    let mut i: usize = 0;
    while i < n
        invariant
            n == snapshot.failures@.len(),
            i <= n,
            listing_detail(snapshot@.failures, path@) == listing_detail(
                snapshot@.failures.skip(i as int),
                path@,
            ),
        decreases n - i,
    {
        proof {
            assert(snapshot@.failures.skip(i as int)[0] == snapshot@.failures[i as int]);
            assert(snapshot@.failures.skip(i as int).drop_first() =~= snapshot@.failures.skip(
                i as int + 1,
            ));
        }
        if snapshot.failures[i].path.eq(path) {
            return snapshot.failures[i].detail.clone();
        }
        i += 1;
    }
    proof {
        assert(snapshot@.failures.skip(n as int) =~= Seq::<DirFailureModel>::empty());
    }
    String::from_str("no such directory")
}

} // verus!
