//! The file enumerator: expanding a resolved pattern into discovered files.
//!
//! Recursive-walk mode takes every snapshot file strictly beneath the base
//! directory; the base itself must be listed as an existing directory, or
//! the run aborts with an enumeration error. Glob mode takes every snapshot
//! file whose whole path matches the wildcard pattern; zero matches are not
//! an error. Both modes keep snapshot order, which is discovery order, and
//! both skip everything that is not a regular file simply because only
//! regular files are in the snapshot.

use vstd::prelude::*;
use crate::error::{Error, ErrorModel};
use crate::glob::{glob_match, text_glob_match};
use crate::path_text::{beneath, relative_name_of, text_beneath, text_relative_name};
use crate::snapshot::{FileModel, FsFile, FsSnapshot};

verus! {

/// One discovered file: its absolute path and content as the snapshot has
/// them, tied to the base directory it was discovered under (the anchor for
/// its relative name).
#[derive(Debug, Clone, PartialEq, Eq)]
pub struct DiscoveredFile {
    pub file: FsFile,
    pub base: String,
}

/// The mathematical model of a [`DiscoveredFile`].
#[verifier::ext_equal]
pub struct DiscoveredModel {
    pub file: FileModel,
    pub base: Seq<char>,
}

impl View for DiscoveredFile {
    type V = DiscoveredModel;

    open spec fn view(&self) -> DiscoveredModel {
        DiscoveredModel { file: self.file@, base: self.base@ }
    }
}

/// The files discovered by a recursive walk of `base`: every snapshot file
/// strictly beneath it, in snapshot order.
pub open spec fn walk_discovered(files: Seq<FileModel>, base: Seq<char>) -> Seq<DiscoveredModel>
    decreases files.len(),
{
    if files.len() == 0 {
        Seq::empty()
    } else {
        walk_discovered(files.drop_last(), base) + if beneath(files.last().path, base) {
            seq![DiscoveredModel { file: files.last(), base: base }]
        } else {
            Seq::empty()
        }
    }
}

/// The files discovered by expanding the glob pattern `pattern` whose fixed
/// prefix directory is `base`: every snapshot file whose whole path matches
/// the pattern, in snapshot order.
pub open spec fn glob_discovered(
    files: Seq<FileModel>,
    pattern: Seq<char>,
    base: Seq<char>,
) -> Seq<DiscoveredModel>
    decreases files.len(),
{
    if files.len() == 0 {
        Seq::empty()
    } else {
        glob_discovered(files.drop_last(), pattern, base) + if glob_match(
            pattern,
            files.last().path,
        ) {
            seq![DiscoveredModel { file: files.last(), base: base }]
        } else {
            Seq::empty()
        }
    }
}

/// Discovers, in snapshot order, every snapshot file strictly beneath the
/// base directory.
pub fn enumerate_walk(snapshot: &FsSnapshot, base: &String) -> (r: Vec<DiscoveredFile>)
    ensures
        r@.map_values(|d: DiscoveredFile| d@) =~= walk_discovered(snapshot@.files, base@),
{
    let n = snapshot.files.len();
    let mut out: Vec<DiscoveredFile> = Vec::new();
    let mut i: usize = 0;
    while i < n
        invariant
            n == snapshot.files@.len(),
            i <= n,
            out@.map_values(|d: DiscoveredFile| d@) =~= walk_discovered(
                snapshot@.files.take(i as int),
                base@,
            ),
        decreases n - i,
    {
        let ghost prefix = snapshot@.files.take(i as int + 1);
        proof {
            assert(prefix.drop_last() =~= snapshot@.files.take(i as int));
            assert(prefix.last() == snapshot@.files[i as int]);
        }
        if text_beneath(snapshot.files[i].path.as_str(), base.as_str()) {
            out.push(
                DiscoveredFile {
                    file: FsFile {
                        path: snapshot.files[i].path.clone(),
                        content: snapshot.files[i].content.clone(),
                        readable: snapshot.files[i].readable,
                        detail: snapshot.files[i].detail.clone(),
                    },
                    base: base.clone(),
                },
            );
        }
        i += 1;
    }
    proof {
        assert(snapshot@.files.take(n as int) =~= snapshot@.files);
    }
    out
}

/// Discovers, in snapshot order, every snapshot file whose whole path
/// matches the glob pattern, anchored at the pattern's fixed prefix
/// directory `base`.
pub fn enumerate_glob(snapshot: &FsSnapshot, pattern: &String, base: &String) -> (r: Vec<
    DiscoveredFile,
>)
    ensures
        r@.map_values(|d: DiscoveredFile| d@) =~= glob_discovered(
            snapshot@.files,
            pattern@,
            base@,
        ),
{
    let n = snapshot.files.len();
    let mut out: Vec<DiscoveredFile> = Vec::new();
    let mut i: usize = 0;
    while i < n
        invariant
            n == snapshot.files@.len(),
            i <= n,
            out@.map_values(|d: DiscoveredFile| d@) =~= glob_discovered(
                snapshot@.files.take(i as int),
                pattern@,
                base@,
            ),
        decreases n - i,
    {
        let ghost prefix = snapshot@.files.take(i as int + 1);
        proof {
            assert(prefix.drop_last() =~= snapshot@.files.take(i as int));
            assert(prefix.last() == snapshot@.files[i as int]);
        }
        if text_glob_match(pattern.as_str(), snapshot.files[i].path.as_str()) {
            out.push(
                DiscoveredFile {
                    file: FsFile {
                        path: snapshot.files[i].path.clone(),
                        content: snapshot.files[i].content.clone(),
                        readable: snapshot.files[i].readable,
                        detail: snapshot.files[i].detail.clone(),
                    },
                    base: base.clone(),
                },
            );
        }
        i += 1;
    }
    proof {
        assert(snapshot@.files.take(n as int) =~= snapshot@.files);
    }
    out
}

/// The relative name of a discovered file: its absolute path with the base
/// directory and the separator stripped off. A path that does not fall
/// strictly beneath its base is rejected defensively with an
/// internal-invariant error rather than silently mis-named.
pub fn relative_name(discovered: &DiscoveredFile) -> (r: Result<String, Error>)
    ensures
        match r {
            Ok(name) => {
                &&& beneath(discovered@.file.path, discovered@.base)
                &&& name@ == relative_name_of(discovered@.file.path, discovered@.base)
            },
            Err(e) => {
                &&& !beneath(discovered@.file.path, discovered@.base)
                &&& e@ == ErrorModel::InternalInvariant {
                    path: discovered@.file.path,
                    base: discovered@.base,
                }
            },
        },
{
    if !text_beneath(discovered.file.path.as_str(), discovered.base.as_str()) {
        return Err(
            Error::InternalInvariantError {
                path: discovered.file.path.clone(),
                base: discovered.base.clone(),
            },
        );
    }
    let base_len = discovered.base.as_str().unicode_len();
    Ok(text_relative_name(discovered.file.path.as_str(), base_len))
}

} // verus!
