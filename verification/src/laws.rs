//! Laws of the pipeline, proved from its model.
//!
//! Each public proof function here states one guarantee of the bundler over
//! the spec functions that the executable functions' contracts use: what a
//! recursive walk packages, what a glob packages, that reruns agree, that
//! contents round-trip byte for byte, and that empty configurations are not
//! errors.

use vstd::prelude::*;
use crate::enumerator::{glob_discovered, walk_discovered, DiscoveredModel};
use crate::error::ErrorModel;
use crate::glob::{glob_base, glob_match, lemma_glob_match_beneath};
use crate::package::EntryModel;
use crate::path_text::{beneath, has_wildcard, is_absolute, relative_name_of};
use crate::pipeline::{
    bundle_concat, discovered_ok, entry_of, first_bad, lemma_first_bad_bounds, load_result,
    run_model, run_one, run_patterns, BundleModel, empty_bundle,
};
use crate::path_resolver::resolve_candidate;
use crate::snapshot::{dir_listed, FileModel, SnapshotModel, snapshot_wf};

verus! {

/// Two paths beneath the same base with the same relative name are the same
/// path.
pub proof fn lemma_relative_name_injective(p1: Seq<char>, p2: Seq<char>, base: Seq<char>)
    requires
        beneath(p1, base),
        beneath(p2, base),
        relative_name_of(p1, base) == relative_name_of(p2, base),
    ensures
        p1 == p2,
{
    let b = base.len() as int;
    assert(p1.len() == b + 1 + relative_name_of(p1, base).len());
    assert(p2.len() == b + 1 + relative_name_of(p2, base).len());
    assert forall|idx: int| 0 <= idx < p1.len() implies p1[idx] == p2[idx] by {
        if idx < b {
            assert(p1.subrange(0, b)[idx] == p1[idx]);
            assert(p2.subrange(0, b)[idx] == p2[idx]);
        } else if idx > b {
            assert(relative_name_of(p1, base)[idx - b - 1] == p1[idx]);
            assert(relative_name_of(p2, base)[idx - b - 1] == p2[idx]);
        }
    }
    assert(p1 =~= p2);
}

/// Every discovered file of a walk lies beneath the base and is a snapshot
/// file, and every snapshot file beneath the base is discovered.
pub proof fn lemma_walk_discovered_props(files: Seq<FileModel>, base: Seq<char>)
    ensures
        forall|k: int|
            0 <= k < walk_discovered(files, base).len() ==> {
                let d = #[trigger] walk_discovered(files, base)[k];
                &&& beneath(d.file.path, base)
                &&& d.base == base
                &&& exists|i: int| 0 <= i < files.len() && files[i] == d.file
            },
        forall|i: int|
            0 <= i < files.len() && beneath((#[trigger] files[i]).path, base) ==> exists|k: int|
                0 <= k < walk_discovered(files, base).len() && walk_discovered(files, base)[k].file
                    == files[i],
    decreases files.len(),
{
    if files.len() == 0 {
    } else {
        let prefix = files.drop_last();
        lemma_walk_discovered_props(prefix, base);
        let wd = walk_discovered(files, base);
        let wp = walk_discovered(prefix, base);
        assert(forall|i: int| 0 <= i < prefix.len() ==> prefix[i] == files[i]);
        assert forall|k: int| 0 <= k < wd.len() implies {
            let d = #[trigger] wd[k];
            &&& beneath(d.file.path, base)
            &&& d.base == base
            &&& exists|i: int| 0 <= i < files.len() && files[i] == d.file
        } by {
            if k < wp.len() {
                assert(wd[k] == wp[k]);
            } else {
                assert(beneath(files.last().path, base));
                assert(wd[k] == DiscoveredModel { file: files.last(), base: base });
                assert(files[files.len() - 1] == wd[k].file);
            }
        }
        assert forall|i: int|
            0 <= i < files.len() && beneath((#[trigger] files[i]).path, base) implies exists|k: int|
            0 <= k < wd.len() && wd[k].file == files[i] by {
            if i < files.len() - 1 {
                let k = choose|k: int| 0 <= k < wp.len() && wp[k].file == prefix[i];
                assert(wd[k] == wp[k]);
            } else {
                assert(wd[wd.len() - 1].file == files[i]);
            }
        }
    }
}

/// A walk over distinct snapshot paths discovers distinct paths.
pub proof fn lemma_walk_discovered_distinct(files: Seq<FileModel>, base: Seq<char>)
    requires
        forall|i: int, j: int| 0 <= i < j < files.len() ==> files[i].path != files[j].path,
    ensures
        forall|k1: int, k2: int|
            0 <= k1 < k2 < walk_discovered(files, base).len() ==> walk_discovered(files, base)[k1]
                .file.path != walk_discovered(files, base)[k2].file.path,
    decreases files.len(),
{
    if files.len() == 0 {
    } else {
        let prefix = files.drop_last();
        assert(forall|i: int| 0 <= i < prefix.len() ==> prefix[i] == files[i]);
        lemma_walk_discovered_distinct(prefix, base);
        lemma_walk_discovered_props(prefix, base);
        let wd = walk_discovered(files, base);
        let wp = walk_discovered(prefix, base);
        assert forall|k1: int, k2: int|
            0 <= k1 < k2 < wd.len() implies wd[k1].file.path != wd[k2].file.path by {
            if k2 < wp.len() {
                assert(wd[k1] == wp[k1]);
                assert(wd[k2] == wp[k2]);
            } else {
                assert(wd[k1] == wp[k1]);
                let i = choose|i: int| 0 <= i < prefix.len() && prefix[i] == wp[k1].file;
                assert(files[i].path != files.last().path);
                assert(wd[k2].file == files.last());
            }
        }
    }
}

/// Every discovered file of a glob expansion matches the pattern and is a
/// snapshot file, and every matching snapshot file is discovered.
pub proof fn lemma_glob_discovered_props(
    files: Seq<FileModel>,
    pattern: Seq<char>,
    base: Seq<char>,
)
    ensures
        forall|k: int|
            0 <= k < glob_discovered(files, pattern, base).len() ==> {
                let d = #[trigger] glob_discovered(files, pattern, base)[k];
                &&& glob_match(pattern, d.file.path)
                &&& d.base == base
                &&& exists|i: int| 0 <= i < files.len() && files[i] == d.file
            },
        forall|i: int|
            0 <= i < files.len() && glob_match(pattern, (#[trigger] files[i]).path) ==> exists|
                k: int,
            |
                0 <= k < glob_discovered(files, pattern, base).len() && glob_discovered(
                    files,
                    pattern,
                    base,
                )[k].file == files[i],
    decreases files.len(),
{
    if files.len() == 0 {
    } else {
        let prefix = files.drop_last();
        lemma_glob_discovered_props(prefix, pattern, base);
        let wd = glob_discovered(files, pattern, base);
        let wp = glob_discovered(prefix, pattern, base);
        assert(forall|i: int| 0 <= i < prefix.len() ==> prefix[i] == files[i]);
        assert forall|k: int| 0 <= k < wd.len() implies {
            let d = #[trigger] wd[k];
            &&& glob_match(pattern, d.file.path)
            &&& d.base == base
            &&& exists|i: int| 0 <= i < files.len() && files[i] == d.file
        } by {
            if k < wp.len() {
                assert(wd[k] == wp[k]);
            } else {
                assert(glob_match(pattern, files.last().path));
                assert(wd[k] == DiscoveredModel { file: files.last(), base: base });
                assert(files[files.len() - 1] == wd[k].file);
            }
        }
        assert forall|i: int|
            0 <= i < files.len() && glob_match(pattern, (#[trigger] files[i]).path) implies exists|
            k: int,
        | 0 <= k < wd.len() && wd[k].file == files[i] by {
            if i < files.len() - 1 {
                let k = choose|k: int| 0 <= k < wp.len() && wp[k].file == prefix[i];
                assert(wd[k] == wp[k]);
            } else {
                assert(wd[wd.len() - 1].file == files[i]);
            }
        }
    }
}

/// A glob expansion over distinct snapshot paths discovers distinct paths.
pub proof fn lemma_glob_discovered_distinct(
    files: Seq<FileModel>,
    pattern: Seq<char>,
    base: Seq<char>,
)
    requires
        forall|i: int, j: int| 0 <= i < j < files.len() ==> files[i].path != files[j].path,
    ensures
        forall|k1: int, k2: int|
            0 <= k1 < k2 < glob_discovered(files, pattern, base).len() ==> glob_discovered(
                files,
                pattern,
                base,
            )[k1].file.path != glob_discovered(files, pattern, base)[k2].file.path,
    decreases files.len(),
{
    if files.len() == 0 {
    } else {
        let prefix = files.drop_last();
        assert(forall|i: int| 0 <= i < prefix.len() ==> prefix[i] == files[i]);
        lemma_glob_discovered_distinct(prefix, pattern, base);
        lemma_glob_discovered_props(prefix, pattern, base);
        let wd = glob_discovered(files, pattern, base);
        let wp = glob_discovered(prefix, pattern, base);
        assert forall|k1: int, k2: int|
            0 <= k1 < k2 < wd.len() implies wd[k1].file.path != wd[k2].file.path by {
            if k2 < wp.len() {
                assert(wd[k1] == wp[k1]);
                assert(wd[k2] == wp[k2]);
            } else {
                assert(wd[k1] == wp[k1]);
                let i = choose|i: int| 0 <= i < prefix.len() && prefix[i] == wp[k1].file;
                assert(files[i].path != files.last().path);
                assert(wd[k2].file == files.last());
            }
        }
    }
}

/// Loading a discovered sequence whose files are all packageable succeeds.
pub proof fn lemma_load_all_ok(ds: Seq<DiscoveredModel>)
    requires
        forall|k: int| 0 <= k < ds.len() ==> discovered_ok(#[trigger] ds[k]),
    ensures
        load_result(ds) == Ok::<BundleModel, ErrorModel>(
            BundleModel {
                entries: ds.map_values(|d: DiscoveredModel| entry_of(d)),
                dependencies: ds.map_values(|d: DiscoveredModel| d.file.path),
            },
        ),
{
    lemma_first_bad_bounds(ds);
    assert(first_bad(ds) == ds.len());
}

/// Whether the bundle holds an entry with this name and this content.
pub open spec fn bundle_has_entry(b: BundleModel, name: Seq<char>, content: Seq<u8>) -> bool {
    exists|k: int|
        0 <= k < b.entries.len() && (#[trigger] b.entries[k]).name == name
            && b.entries[k].content == content
}

/// Whether the entry at position `k` of the bundle is sourced from a
/// snapshot file that lies beneath `base`: named by that file's path made
/// relative to the base, filled with that file's content, with the file's
/// absolute path recorded as the dependency at the same position.
pub open spec fn entry_sourced_beneath(
    snap: SnapshotModel,
    base: Seq<char>,
    b: BundleModel,
    k: int,
) -> bool {
    exists|i: int|
        0 <= i < snap.files.len() && beneath((#[trigger] snap.files[i]).path, base)
            && b.entries[k].name == relative_name_of(snap.files[i].path, base)
            && b.entries[k].content == snap.files[i].content && b.dependencies[k]
            == snap.files[i].path
}

/// Whether the entry at position `k` of the bundle is sourced from a
/// snapshot file whose whole path matches the glob pattern.
pub open spec fn entry_sourced_matching(
    snap: SnapshotModel,
    pattern: Seq<char>,
    base: Seq<char>,
    b: BundleModel,
    k: int,
) -> bool {
    exists|i: int|
        0 <= i < snap.files.len() && glob_match(pattern, (#[trigger] snap.files[i]).path)
            && b.entries[k].name == relative_name_of(snap.files[i].path, base)
            && b.entries[k].content == snap.files[i].content && b.dependencies[k]
            == snap.files[i].path
}

/// What a recursive walk packages, exactly: when the snapshot's paths are
/// distinct and every file beneath the base is readable, the walk succeeds;
/// every snapshot file strictly beneath the base appears in the package,
/// with its path made relative to the base as its name and its snapshot
/// content; every entry is sourced from such a file; and no two entries
/// share a name, so each file appears exactly once.
pub proof fn lemma_walk_packages_exactly(
    pattern: Seq<char>,
    unit_dir: Seq<char>,
    cwd: Seq<char>,
    snap: SnapshotModel,
)
    requires
        !has_wildcard(pattern),
        is_absolute(resolve_candidate(pattern, unit_dir, cwd)),
        dir_listed(snap.dirs, resolve_candidate(pattern, unit_dir, cwd)),
        forall|i: int, j: int|
            0 <= i < j < snap.files.len() ==> snap.files[i].path != snap.files[j].path,
        forall|i: int|
            0 <= i < snap.files.len() && beneath(
                (#[trigger] snap.files[i]).path,
                resolve_candidate(pattern, unit_dir, cwd),
            ) ==> snap.files[i].readable,
    ensures
        run_one(pattern, unit_dir, cwd, snap) is Ok,
        ({
            let base = resolve_candidate(pattern, unit_dir, cwd);
            let b = run_one(pattern, unit_dir, cwd, snap)->Ok_0;
            &&& forall|i: int|
                0 <= i < snap.files.len() && beneath((#[trigger] snap.files[i]).path, base)
                    ==> bundle_has_entry(
                    b,
                    relative_name_of(snap.files[i].path, base),
                    snap.files[i].content,
                )
            &&& forall|k: int| 0 <= k < b.entries.len() ==> entry_sourced_beneath(snap, base, b, k)
            &&& forall|k1: int, k2: int|
                0 <= k1 < k2 < b.entries.len() ==> b.entries[k1].name != b.entries[k2].name
        }),
{
    let base = resolve_candidate(pattern, unit_dir, cwd);
    let wd = walk_discovered(snap.files, base);
    lemma_walk_discovered_props(snap.files, base);
    lemma_walk_discovered_distinct(snap.files, base);
    assert forall|k: int| 0 <= k < wd.len() implies discovered_ok(#[trigger] wd[k]) by {
        let i = choose|i: int| 0 <= i < snap.files.len() && snap.files[i] == wd[k].file;
    }
    lemma_load_all_ok(wd);
    let b = run_one(pattern, unit_dir, cwd, snap)->Ok_0;
    assert(b.entries == wd.map_values(|d: DiscoveredModel| entry_of(d)));
    assert forall|i: int|
        0 <= i < snap.files.len() && beneath((#[trigger] snap.files[i]).path, base)
        implies bundle_has_entry(
        b,
        relative_name_of(snap.files[i].path, base),
        snap.files[i].content,
    ) by {
        let k = choose|k: int| 0 <= k < wd.len() && wd[k].file == snap.files[i];
        assert(b.entries[k] == entry_of(wd[k]));
        assert(0 <= k < b.entries.len() && b.entries[k].name == relative_name_of(
            snap.files[i].path,
            base,
        ) && b.entries[k].content == snap.files[i].content);
    }
    assert forall|k: int| 0 <= k < b.entries.len() implies entry_sourced_beneath(
        snap,
        base,
        b,
        k,
    ) by {
        assert(b.entries[k] == entry_of(wd[k]));
        assert(b.dependencies[k] == wd[k].file.path);
        let i = choose|i: int| 0 <= i < snap.files.len() && snap.files[i] == wd[k].file;
        assert(0 <= i < snap.files.len() && beneath(snap.files[i].path, base)
            && b.entries[k].name == relative_name_of(snap.files[i].path, base)
            && b.entries[k].content == snap.files[i].content && b.dependencies[k]
            == snap.files[i].path);
    }
    assert forall|k1: int, k2: int|
        0 <= k1 < k2 < b.entries.len() implies b.entries[k1].name != b.entries[k2].name by {
        assert(b.entries[k1] == entry_of(wd[k1]));
        assert(b.entries[k2] == entry_of(wd[k2]));
        if b.entries[k1].name == b.entries[k2].name {
            lemma_relative_name_injective(wd[k1].file.path, wd[k2].file.path, base);
            assert(false);
        }
    }
}

/// What a glob packages, exactly: over a well-formed snapshot whose
/// matching files are all readable, expansion succeeds; every snapshot file
/// whose whole path matches the pattern appears in the package, named
/// relative to the pattern's fixed base directory; every entry is sourced
/// from such a file — no more, no less — and no name is repeated.
pub proof fn lemma_glob_packages_exactly(
    pattern: Seq<char>,
    unit_dir: Seq<char>,
    cwd: Seq<char>,
    snap: SnapshotModel,
)
    requires
        has_wildcard(pattern),
        has_wildcard(resolve_candidate(pattern, unit_dir, cwd)),
        is_absolute(resolve_candidate(pattern, unit_dir, cwd)),
        snapshot_wf(snap),
        forall|i: int|
            0 <= i < snap.files.len() && glob_match(
                resolve_candidate(pattern, unit_dir, cwd),
                (#[trigger] snap.files[i]).path,
            ) ==> snap.files[i].readable,
    ensures
        run_one(pattern, unit_dir, cwd, snap) is Ok,
        ({
            let resolved = resolve_candidate(pattern, unit_dir, cwd);
            let base = glob_base(resolved);
            let b = run_one(pattern, unit_dir, cwd, snap)->Ok_0;
            &&& forall|i: int|
                0 <= i < snap.files.len() && glob_match(resolved, (#[trigger] snap.files[i]).path)
                    ==> bundle_has_entry(
                    b,
                    relative_name_of(snap.files[i].path, base),
                    snap.files[i].content,
                )
            &&& forall|k: int|
                0 <= k < b.entries.len() ==> entry_sourced_matching(snap, resolved, base, b, k)
            &&& forall|k1: int, k2: int|
                0 <= k1 < k2 < b.entries.len() ==> b.entries[k1].name != b.entries[k2].name
        }),
{
    let resolved = resolve_candidate(pattern, unit_dir, cwd);
    let base = glob_base(resolved);
    let wd = glob_discovered(snap.files, resolved, base);
    lemma_glob_discovered_props(snap.files, resolved, base);
    lemma_glob_discovered_distinct(snap.files, resolved, base);
    assert forall|k: int| 0 <= k < wd.len() implies discovered_ok(#[trigger] wd[k]) by {
        let i = choose|i: int| 0 <= i < snap.files.len() && snap.files[i] == wd[k].file;
        lemma_glob_match_beneath(resolved, wd[k].file.path);
    }
    lemma_load_all_ok(wd);
    let b = run_one(pattern, unit_dir, cwd, snap)->Ok_0;
    assert(b.entries == wd.map_values(|d: DiscoveredModel| entry_of(d)));
    assert forall|i: int|
        0 <= i < snap.files.len() && glob_match(resolved, (#[trigger] snap.files[i]).path)
        implies bundle_has_entry(
        b,
        relative_name_of(snap.files[i].path, base),
        snap.files[i].content,
    ) by {
        let k = choose|k: int| 0 <= k < wd.len() && wd[k].file == snap.files[i];
        assert(b.entries[k] == entry_of(wd[k]));
        assert(0 <= k < b.entries.len() && b.entries[k].name == relative_name_of(
            snap.files[i].path,
            base,
        ) && b.entries[k].content == snap.files[i].content);
    }
    assert forall|k: int| 0 <= k < b.entries.len() implies entry_sourced_matching(
        snap,
        resolved,
        base,
        b,
        k,
    ) by {
        assert(b.entries[k] == entry_of(wd[k]));
        assert(b.dependencies[k] == wd[k].file.path);
        let i = choose|i: int| 0 <= i < snap.files.len() && snap.files[i] == wd[k].file;
        assert(0 <= i < snap.files.len() && glob_match(resolved, snap.files[i].path)
            && b.entries[k].name == relative_name_of(snap.files[i].path, base)
            && b.entries[k].content == snap.files[i].content && b.dependencies[k]
            == snap.files[i].path);
    }
    assert forall|k1: int, k2: int|
        0 <= k1 < k2 < b.entries.len() implies b.entries[k1].name != b.entries[k2].name by {
        assert(b.entries[k1] == entry_of(wd[k1]));
        assert(b.entries[k2] == entry_of(wd[k2]));
        let i1 = choose|i: int| 0 <= i < snap.files.len() && snap.files[i] == wd[k1].file;
        let i2 = choose|i: int| 0 <= i < snap.files.len() && snap.files[i] == wd[k2].file;
        lemma_glob_match_beneath(resolved, wd[k1].file.path);
        lemma_glob_match_beneath(resolved, wd[k2].file.path);
        if b.entries[k1].name == b.entries[k2].name {
            lemma_relative_name_injective(wd[k1].file.path, wd[k2].file.path, base);
            assert(false);
        }
    }
}

/// Idempotence: the pipeline is a pure function of its configuration and
/// snapshot, so two runs against an unchanged filesystem yield bundles
/// whose entry sequences — and hence their (name, content) multisets — are
/// identical.
pub proof fn lemma_rerun_identical(
    r1: Result<BundleModel, ErrorModel>,
    r2: Result<BundleModel, ErrorModel>,
    args: Seq<crate::spec_parser::Argument>,
    unit_dir: Seq<char>,
    cwd: Seq<char>,
    snap: SnapshotModel,
)
    requires
        r1 == run_model(args, unit_dir, cwd, snap),
        r2 == run_model(args, unit_dir, cwd, snap),
    ensures
        r1 == r2,
        r1 matches Ok(b1) ==> (r2 matches Ok(b2) && b1.entries.to_multiset()
            == b2.entries.to_multiset()),
{
}

/// Whether some snapshot file has exactly this path and this content.
pub open spec fn snapshot_has(snap: SnapshotModel, path: Seq<char>, content: Seq<u8>) -> bool {
    exists|i: int|
        0 <= i < snap.files.len() && (#[trigger] snap.files[i]).path == path
            && snap.files[i].content == content
}

/// Round-trip: every entry of a successful run carries, byte for byte, the
/// snapshot content of the dependency path recorded at the same position —
/// no transformation, no encoding change.
pub proof fn lemma_contents_round_trip(
    patterns: Seq<Seq<char>>,
    unit_dir: Seq<char>,
    cwd: Seq<char>,
    snap: SnapshotModel,
    b: BundleModel,
)
    requires
        run_patterns(patterns, unit_dir, cwd, snap) == Ok::<BundleModel, ErrorModel>(b),
    ensures
        b.entries.len() == b.dependencies.len(),
        forall|k: int|
            0 <= k < b.entries.len() ==> snapshot_has(
                snap,
                b.dependencies[k],
                (#[trigger] b.entries[k]).content,
            ),
    decreases patterns.len(),
{
    if patterns.len() == 0 {
        assert(b == empty_bundle());
    } else {
        let first = run_one(patterns[0], unit_dir, cwd, snap)->Ok_0;
        let rest = run_patterns(patterns.drop_first(), unit_dir, cwd, snap)->Ok_0;
        lemma_contents_round_trip(patterns.drop_first(), unit_dir, cwd, snap, rest);
        lemma_run_one_round_trip(patterns[0], unit_dir, cwd, snap, first);
        assert(b == bundle_concat(first, rest));
        assert forall|k: int| 0 <= k < b.entries.len() implies snapshot_has(
            snap,
            b.dependencies[k],
            (#[trigger] b.entries[k]).content,
        ) by {
            if k < first.entries.len() {
                assert(b.entries[k] == first.entries[k]);
                assert(b.dependencies[k] == first.dependencies[k]);
                assert(snapshot_has(snap, first.dependencies[k], first.entries[k].content));
            } else {
                let k0 = k - first.entries.len();
                assert(b.entries[k] == rest.entries[k0]);
                assert(b.dependencies[k] == rest.dependencies[k0]);
                assert(snapshot_has(snap, rest.dependencies[k0], rest.entries[k0].content));
            }
        }
    }
}

/// Round-trip for one pattern's contribution.
pub proof fn lemma_run_one_round_trip(
    pattern: Seq<char>,
    unit_dir: Seq<char>,
    cwd: Seq<char>,
    snap: SnapshotModel,
    b: BundleModel,
)
    requires
        run_one(pattern, unit_dir, cwd, snap) == Ok::<BundleModel, ErrorModel>(b),
    ensures
        b.entries.len() == b.dependencies.len(),
        forall|k: int|
            0 <= k < b.entries.len() ==> snapshot_has(
                snap,
                b.dependencies[k],
                (#[trigger] b.entries[k]).content,
            ),
{
    let resolved = resolve_candidate(pattern, unit_dir, cwd);
    let wd = if has_wildcard(pattern) {
        glob_discovered(snap.files, resolved, glob_base(resolved))
    } else {
        walk_discovered(snap.files, resolved)
    };
    if has_wildcard(pattern) {
        lemma_glob_discovered_props(snap.files, resolved, glob_base(resolved));
    } else {
        lemma_walk_discovered_props(snap.files, resolved);
    }
    lemma_first_bad_bounds(wd);
    assert(first_bad(wd) == wd.len());
    assert forall|k: int| 0 <= k < b.entries.len() implies snapshot_has(
        snap,
        b.dependencies[k],
        (#[trigger] b.entries[k]).content,
    ) by {
        assert(b.entries[k] == entry_of(wd[k]));
        assert(b.dependencies[k] == wd[k].file.path);
        let i = choose|i: int| 0 <= i < snap.files.len() && snap.files[i] == wd[k].file;
        assert(0 <= i < snap.files.len() && snap.files[i].path == b.dependencies[k]
            && snap.files[i].content == b.entries[k].content);
    }
}

/// Boundary: a configuration of zero patterns yields an empty bundle, not
/// an error.
pub proof fn lemma_zero_patterns_empty(
    args: Seq<crate::spec_parser::Argument>,
    unit_dir: Seq<char>,
    cwd: Seq<char>,
    snap: SnapshotModel,
)
    requires
        args.len() == 1,
        args[0] is List,
        args[0]->List_0@.len() == 0,
    ensures
        run_model(args, unit_dir, cwd, snap) == Ok::<BundleModel, ErrorModel>(empty_bundle()),
{
    assert(crate::spec_parser::patterns_of(args[0]) =~= Seq::<Seq<char>>::empty());
}

/// Boundary: a glob pattern that matches zero files yields an empty
/// contribution, not an error.
pub proof fn lemma_zero_matches_empty(
    pattern: Seq<char>,
    unit_dir: Seq<char>,
    cwd: Seq<char>,
    snap: SnapshotModel,
)
    requires
        has_wildcard(pattern),
        is_absolute(resolve_candidate(pattern, unit_dir, cwd)),
        forall|i: int|
            0 <= i < snap.files.len() ==> !glob_match(
                resolve_candidate(pattern, unit_dir, cwd),
                (#[trigger] snap.files[i]).path,
            ),
    ensures
        run_one(pattern, unit_dir, cwd, snap) == Ok::<BundleModel, ErrorModel>(empty_bundle()),
{
    let resolved = resolve_candidate(pattern, unit_dir, cwd);
    let base = glob_base(resolved);
    let wd = glob_discovered(snap.files, resolved, base);
    lemma_glob_discovered_props(snap.files, resolved, base);
    if wd.len() > 0 {
        assert(exists|i: int| 0 <= i < snap.files.len() && snap.files[i] == wd[0].file);
        assert(false);
    }
    lemma_first_bad_bounds(wd);
    assert(run_one(pattern, unit_dir, cwd, snap) == Ok::<BundleModel, ErrorModel>(
        BundleModel {
            entries: wd.map_values(|d: DiscoveredModel| entry_of(d)),
            dependencies: wd.map_values(|d: DiscoveredModel| d.file.path),
        },
    ));
    assert(wd.map_values(|d: DiscoveredModel| entry_of(d)) =~= Seq::<EntryModel>::empty());
    assert(wd.map_values(|d: DiscoveredModel| d.file.path) =~= Seq::<Seq<char>>::empty());
    assert(BundleModel {
        entries: wd.map_values(|d: DiscoveredModel| entry_of(d)),
        dependencies: wd.map_values(|d: DiscoveredModel| d.file.path),
    } =~= empty_bundle());
}

} // verus!
