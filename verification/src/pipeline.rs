//! The discovery-and-assembly pipeline.
//!
//! One run takes the raw build-time argument list, the invoking build
//! unit's directory, the process working directory and a filesystem
//! snapshot, and produces either a [`Bundle`] — the package of (relative
//! name, content) entries plus the list of absolute paths to register as
//! build dependencies — or the first error, which aborts the whole run:
//! there is no partial-success mode. The result is pinned exactly by
//! [`run_model`], a pure function of the inputs.

use vstd::prelude::*;
use crate::error::{Error, ErrorModel};
use crate::enumerator::{
    DiscoveredFile, DiscoveredModel, enumerate_glob, enumerate_walk, glob_discovered,
    relative_name, walk_discovered,
};
use crate::glob::{
    first_wildcard, glob_base, lemma_first_wildcard_bounds, lemma_last_slash_before_bounds,
    text_glob_base_len,
};
use crate::package::{EntryModel, Package, ResourceEntry};
use crate::path_resolver::{raw_candidate, resolve, resolve_candidate};
use crate::path_text::{
    beneath, has_wildcard, is_absolute, join, lemma_join_keeps_wildcard,
    lemma_normalize_preserves, relative_name_of, text_has_wildcard,
};
use crate::snapshot::{
    dir_listed, listing_detail, FsSnapshot, SnapshotModel, snapshot_has_dir,
    snapshot_listing_detail,
};
use crate::spec_parser::{Argument, parse_arguments, parse_result, PatternSpec};

verus! {

/// The output of one pipeline run: the assembled package, and the absolute
/// paths of the discovered files, each to be registered exactly once as a
/// build input dependency by the surrounding build system.
#[derive(Debug, Clone, PartialEq, Eq)]
pub struct Bundle {
    pub package: Package,
    pub dependencies: Vec<String>,
}

/// The mathematical model of a [`Bundle`].
#[verifier::ext_equal]
pub struct BundleModel {
    pub entries: Seq<EntryModel>,
    pub dependencies: Seq<Seq<char>>,
}

impl View for Bundle {
    type V = BundleModel;

    open spec fn view(&self) -> BundleModel {
        BundleModel {
            entries: self.package@,
            dependencies: self.dependencies@.map_values(|s: String| s@),
        }
    }
}

/// The bundle with no entries and no dependencies.
pub open spec fn empty_bundle() -> BundleModel {
    BundleModel { entries: Seq::empty(), dependencies: Seq::empty() }
}

/// The two bundles concatenated in order.
pub open spec fn bundle_concat(a: BundleModel, b: BundleModel) -> BundleModel {
    BundleModel { entries: a.entries + b.entries, dependencies: a.dependencies + b.dependencies }
}

/// Whether a discovered file can be packaged: it falls under its base (the
/// defensive internal invariant) and its content could be read.
pub open spec fn discovered_ok(d: DiscoveredModel) -> bool {
    beneath(d.file.path, d.base) && d.file.readable
}

/// The resource entry a packageable discovered file becomes: its path made
/// relative to its base, and its content byte for byte.
pub open spec fn entry_of(d: DiscoveredModel) -> EntryModel {
    EntryModel { name: relative_name_of(d.file.path, d.base), content: d.file.content }
}

/// The index of the first discovered file that cannot be packaged, or the
/// length if all can.
pub open spec fn first_bad(ds: Seq<DiscoveredModel>) -> int
    decreases ds.len(),
{
    if ds.len() == 0 {
        0
    } else if !discovered_ok(ds[0]) {
        0
    } else {
        1 + first_bad(ds.drop_first())
    }
}

pub proof fn lemma_first_bad_bounds(ds: Seq<DiscoveredModel>)
    ensures
        0 <= first_bad(ds) <= ds.len(),
        forall|j: int| 0 <= j < first_bad(ds) ==> discovered_ok(ds[j]),
        first_bad(ds) < ds.len() ==> !discovered_ok(ds[first_bad(ds)]),
    decreases ds.len(),
{
    if ds.len() == 0 {
    } else if !discovered_ok(ds[0]) {
    } else {
        lemma_first_bad_bounds(ds.drop_first());
        assert(forall|j: int| 1 <= j < ds.len() ==> ds[j] == ds.drop_first()[j - 1]);
    }
}

/// What loading the contents of a discovered sequence yields: the entries
/// and dependency paths in discovery order, or — at the first file that
/// cannot be packaged — the internal-invariant error if it escaped its
/// base, else the read error.
pub open spec fn load_result(ds: Seq<DiscoveredModel>) -> Result<BundleModel, ErrorModel> {
    let k = first_bad(ds);
    if k == ds.len() {
        Ok(
            BundleModel {
                entries: ds.map_values(|d: DiscoveredModel| entry_of(d)),
                dependencies: ds.map_values(|d: DiscoveredModel| d.file.path),
            },
        )
    } else if !beneath(ds[k].file.path, ds[k].base) {
        Err(ErrorModel::InternalInvariant { path: ds[k].file.path, base: ds[k].base })
    } else {
        Err(ErrorModel::Read { path: ds[k].file.path, detail: ds[k].file.detail })
    }
}

/// What one pattern contributes: its resolution error if no absolute base
/// can be derived; in glob mode, the loaded glob matches (zero matches are
/// legal); in recursive-walk mode, an enumeration error if the base is not
/// a listable directory, else the loaded files beneath it.
pub open spec fn run_one(
    pattern: Seq<char>,
    unit_dir: Seq<char>,
    cwd: Seq<char>,
    snap: SnapshotModel,
) -> Result<BundleModel, ErrorModel> {
    let resolved = resolve_candidate(pattern, unit_dir, cwd);
    if !is_absolute(resolved) {
        Err(ErrorModel::Resolution { pattern })
    } else if has_wildcard(pattern) {
        load_result(glob_discovered(snap.files, resolved, glob_base(resolved)))
    } else if !dir_listed(snap.dirs, resolved) {
        Err(
            ErrorModel::Enumeration {
                path: resolved,
                detail: listing_detail(snap.failures, resolved),
            },
        )
    } else {
        load_result(walk_discovered(snap.files, resolved))
    }
}

/// What a pattern list yields: each pattern's contribution concatenated in
/// list order, or the first pattern's error.
pub open spec fn run_patterns(
    patterns: Seq<Seq<char>>,
    unit_dir: Seq<char>,
    cwd: Seq<char>,
    snap: SnapshotModel,
) -> Result<BundleModel, ErrorModel>
    decreases patterns.len(),
{
    if patterns.len() == 0 {
        Ok(empty_bundle())
    } else {
        match run_one(patterns[0], unit_dir, cwd, snap) {
            Err(e) => Err(e),
            Ok(first) => match run_patterns(patterns.drop_first(), unit_dir, cwd, snap) {
                Err(e) => Err(e),
                Ok(rest) => Ok(bundle_concat(first, rest)),
            },
        }
    }
}

/// What one whole pipeline run yields for the given raw arguments,
/// directories and snapshot.
pub open spec fn run_model(
    args: Seq<Argument>,
    unit_dir: Seq<char>,
    cwd: Seq<char>,
    snap: SnapshotModel,
) -> Result<BundleModel, ErrorModel> {
    match parse_result(args) {
        Err(e) => Err(e),
        Ok(patterns) => run_patterns(patterns, unit_dir, cwd, snap),
    }
}

/// Loads the contents of the discovered files, in discovery order, into
/// resource entries and dependency paths; aborts at the first file that
/// cannot be packaged.
fn load_contents(discovered: &Vec<DiscoveredFile>) -> (r: Result<
    (Vec<ResourceEntry>, Vec<String>),
    Error,
>)
    ensures
        match r {
            Ok(out) => load_result(discovered@.map_values(|d: DiscoveredFile| d@))
                == Ok::<BundleModel, ErrorModel>(
                BundleModel {
                    entries: out.0@.map_values(|e: ResourceEntry| e@),
                    dependencies: out.1@.map_values(|s: String| s@),
                },
            ),
            Err(e) => load_result(discovered@.map_values(|d: DiscoveredFile| d@)) == Err::<BundleModel, ErrorModel>(e@),
        },
{
    let ghost ds = discovered@.map_values(|d: DiscoveredFile| d@);
    let n = discovered.len();
    let mut entries: Vec<ResourceEntry> = Vec::new();
    let mut deps: Vec<String> = Vec::new();
    let mut i: usize = 0;
    while i < n
        invariant
            ds == discovered@.map_values(|d: DiscoveredFile| d@),
            n == discovered@.len(),
            i <= n,
            forall|j: int| 0 <= j < i ==> discovered_ok(ds[j]),
            entries@.len() == i,
            forall|j: int| 0 <= j < i ==> entries@[j]@ == entry_of(ds[j]),
            deps@.len() == i,
            forall|j: int| 0 <= j < i ==> deps@[j]@ == ds[j].file.path,
        decreases n - i,
    {
        let d = &discovered[i];
        proof {
            assert(ds[i as int] == discovered@[i as int]@);
        }
        match relative_name(d) {
            Err(e) => {
                proof {
                    assert(!discovered_ok(ds[i as int]));
                    lemma_first_bad_bounds(ds);
                    assert(first_bad(ds) == i);
                }
                return Err(e);
            },
            Ok(name) => {
                if !d.file.readable {
                    proof {
                        assert(!discovered_ok(ds[i as int]));
                        lemma_first_bad_bounds(ds);
                        assert(first_bad(ds) == i);
                    }
                    return Err(
                        Error::ReadError {
                            path: d.file.path.clone(),
                            detail: d.file.detail.clone(),
                        },
                    );
                }
                entries.push(ResourceEntry { name, content: d.file.content.clone() });
                deps.push(d.file.path.clone());
            },
        }
        i += 1;
    }
    proof {
        lemma_first_bad_bounds(ds);
        assert(first_bad(ds) == n);
        assert(entries@.map_values(|e: ResourceEntry| e@) =~= ds.map_values(
            |d: DiscoveredModel| entry_of(d),
        ));
        assert(deps@.map_values(|s: String| s@) =~= ds.map_values(
            |d: DiscoveredModel| d.file.path,
        ));
    }
    Ok((entries, deps))
}

/// Runs one pattern: resolves it, enumerates in the mode its wildcard
/// content selects, and loads the discovered files.
fn run_one_pattern(
    pattern: &PatternSpec,
    unit_dir: &String,
    cwd: &String,
    snapshot: &FsSnapshot,
) -> (r: Result<(Vec<ResourceEntry>, Vec<String>), Error>)
    ensures
        match r {
            Ok(out) => run_one(pattern@, unit_dir@, cwd@, snapshot@)
                == Ok::<BundleModel, ErrorModel>(
                BundleModel {
                    entries: out.0@.map_values(|e: ResourceEntry| e@),
                    dependencies: out.1@.map_values(|s: String| s@),
                },
            ),
            Err(e) => run_one(pattern@, unit_dir@, cwd@, snapshot@) == Err::<BundleModel, ErrorModel>(e@),
        },
{
    let base = match resolve(&pattern.text, unit_dir, cwd) {
        Ok(base) => base,
        Err(e) => {
            return Err(e);
        },
    };
    if text_has_wildcard(pattern.text.as_str()) {
        proof {
            if !is_absolute(pattern@) {
                lemma_join_keeps_wildcard(unit_dir@, pattern@);
                if !is_absolute(join(unit_dir@, pattern@)) {
                    lemma_join_keeps_wildcard(cwd@, join(unit_dir@, pattern@));
                }
            }
            assert(has_wildcard(raw_candidate(pattern@, unit_dir@, cwd@)));
            lemma_normalize_preserves(raw_candidate(pattern@, unit_dir@, cwd@));
            assert(has_wildcard(base@));
            lemma_first_wildcard_bounds(base@);
            lemma_last_slash_before_bounds(base@, first_wildcard(base@));
        }
        let base_len = text_glob_base_len(base.path.as_str());
        let base_dir = String::from_str(base.path.as_str().substring_char(0, base_len));
        proof {
            assert(base_dir@ =~= glob_base(base@));
        }
        let discovered = enumerate_glob(snapshot, &base.path, &base_dir);
        load_contents(&discovered)
    } else {
        if !snapshot_has_dir(snapshot, &base.path) {
            let detail = snapshot_listing_detail(snapshot, &base.path);
            return Err(Error::EnumerationError { path: base.path, detail });
        }
        let discovered = enumerate_walk(snapshot, &base.path);
        load_contents(&discovered)
    }
}

/// Runs the whole pipeline: parses the raw argument list into patterns,
/// resolves and enumerates each pattern in list order, loads every
/// discovered file's content, and assembles the package and the dependency
/// list — or aborts with the first error. The result is exactly
/// [`run_model`] of the inputs.
pub fn run_pipeline(
    args: &Vec<Argument>,
    unit_dir: &String,
    cwd: &String,
    snapshot: &FsSnapshot,
) -> (r: Result<Bundle, Error>)
    ensures
        match r {
            Ok(bundle) => run_model(args@, unit_dir@, cwd@, snapshot@) == Ok::<
                BundleModel,
                ErrorModel,
            >(bundle@),
            Err(e) => run_model(args@, unit_dir@, cwd@, snapshot@) == Err::<BundleModel, ErrorModel>(e@),
        },
{
    let patterns = match parse_arguments(args) {
        Ok(patterns) => patterns,
        Err(e) => {
            return Err(e);
        },
    };
    let ghost pats = patterns@.map_values(|p: PatternSpec| p@);
    let n = patterns.len();
    let mut entries: Vec<ResourceEntry> = Vec::new();
    let mut deps: Vec<String> = Vec::new();
    proof {
        match run_patterns(pats.skip(0), unit_dir@, cwd@, snapshot@) {
            Ok(b) => {
                assert(bundle_concat(empty_bundle(), b) =~= b);
            },
            Err(_) => {},
        }
        assert(pats.skip(0) =~= pats);
    }
    let mut i: usize = 0;
    while i < n
        invariant
            parse_result(args@) == Ok::<Seq<Seq<char>>, ErrorModel>(pats),
            pats == patterns@.map_values(|p: PatternSpec| p@),
            n == patterns@.len(),
            i <= n,
            ({
                let acc = BundleModel {
                    entries: entries@.map_values(|e: ResourceEntry| e@),
                    dependencies: deps@.map_values(|s: String| s@),
                };
                match run_patterns(pats.skip(i as int), unit_dir@, cwd@, snapshot@) {
                    Ok(b) => run_patterns(pats, unit_dir@, cwd@, snapshot@) == Ok::<
                        BundleModel,
                        ErrorModel,
                    >(bundle_concat(acc, b)),
                    Err(e) => run_patterns(pats, unit_dir@, cwd@, snapshot@) == Err::<
                        BundleModel,
                        ErrorModel,
                    >(e),
                }
            }),
        decreases n - i,
    {
        proof {
            assert(pats.skip(i as int)[0] == pats[i as int]);
            assert(pats.skip(i as int).drop_first() =~= pats.skip(i as int + 1));
        }
        let ghost acc_old = BundleModel {
            entries: entries@.map_values(|e: ResourceEntry| e@),
            dependencies: deps@.map_values(|s: String| s@),
        };
        match run_one_pattern(&patterns[i], unit_dir, cwd, snapshot) {
            Err(e) => {
                return Err(e);
            },
            Ok(out) => {
                let (mut new_entries, mut new_deps) = out;
                let ghost step = BundleModel {
                    entries: new_entries@.map_values(|e: ResourceEntry| e@),
                    dependencies: new_deps@.map_values(|s: String| s@),
                };
                entries.append(&mut new_entries);
                deps.append(&mut new_deps);
                proof {
                    assert(entries@.map_values(|e: ResourceEntry| e@) =~= acc_old.entries
                        + step.entries);
                    assert(deps@.map_values(|s: String| s@) =~= acc_old.dependencies
                        + step.dependencies);
                    match run_patterns(pats.skip(i as int + 1), unit_dir@, cwd@, snapshot@) {
                        Ok(b) => {
                            assert(bundle_concat(acc_old, bundle_concat(step, b))
                                =~= bundle_concat(bundle_concat(acc_old, step), b));
                        },
                        Err(_) => {},
                    }
                }
            },
        }
        i += 1;
    }
    proof {
        assert(pats.skip(n as int) =~= Seq::<Seq<char>>::empty());
        let acc = BundleModel {
            entries: entries@.map_values(|e: ResourceEntry| e@),
            dependencies: deps@.map_values(|s: String| s@),
        };
        assert(bundle_concat(acc, empty_bundle()) =~= acc);
    }
    Ok(Bundle { package: Package { entries }, dependencies: deps })
}

} // verus!
