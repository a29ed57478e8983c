use resources_package::error::Error;
use resources_package::pipeline::run_pipeline;
use resources_package::snapshot::{DirFailure, FsFile, FsSnapshot};
use resources_package::spec_parser::{parse_arguments, Argument};

fn file(path: &str, content: &[u8]) -> FsFile {
    FsFile {
        path: path.to_string(),
        content: content.to_vec(),
        readable: true,
        detail: String::new(),
    }
}

fn snapshot_of(dirs: Vec<&str>, files: Vec<FsFile>) -> FsSnapshot {
    FsSnapshot {
        dirs: dirs.into_iter().map(|d| d.to_string()).collect(),
        failures: vec![],
        files,
    }
}

fn run(
    args: Vec<Argument>,
    unit_dir: &str,
    cwd: &str,
    snapshot: &FsSnapshot,
) -> Result<resources_package::pipeline::Bundle, Error> {
    run_pipeline(&args, &unit_dir.to_string(), &cwd.to_string(), snapshot)
}

#[test]
fn parser_keeps_input_order() {
    let args = vec![Argument::List(vec![
        Argument::Str("zz".to_string()),
        Argument::Str("aa".to_string()),
        Argument::Str("mm".to_string()),
    ])];
    let pats = parse_arguments(&args).unwrap();
    let texts: Vec<&str> = pats.iter().map(|p| p.text.as_str()).collect();
    assert_eq!(texts, vec!["zz", "aa", "mm"]);
}

#[test]
fn parser_accepts_single_string() {
    let args = vec![Argument::Str("dir".to_string())];
    let pats = parse_arguments(&args).unwrap();
    assert_eq!(pats.len(), 1);
    assert_eq!(pats[0].text, "dir");
}

#[test]
fn parser_rejects_wrong_arity() {
    let none: Vec<Argument> = vec![];
    assert_eq!(parse_arguments(&none), Err(Error::ArityError { count: 0 }));
    let two = vec![
        Argument::Str("a".to_string()),
        Argument::Str("b".to_string()),
    ];
    assert_eq!(parse_arguments(&two), Err(Error::ArityError { count: 2 }));
}

#[test]
fn parser_rejects_wrong_shape() {
    assert_eq!(parse_arguments(&vec![Argument::Other]), Err(Error::ShapeError));
    let nested = vec![Argument::List(vec![
        Argument::Str("ok".to_string()),
        Argument::Other,
    ])];
    assert_eq!(parse_arguments(&nested), Err(Error::ShapeError));
}

#[test]
fn zero_patterns_yield_empty_package() {
    let snapshot = snapshot_of(vec![], vec![file("/d/x", b"x")]);
    let bundle = run(
        vec![Argument::List(vec![])],
        "/unit",
        "/",
        &snapshot,
    )
    .unwrap();
    assert_eq!(bundle.package.len(), 0);
    assert_eq!(bundle.dependencies.len(), 0);
}

#[test]
fn zero_glob_matches_yield_empty_package() {
    let snapshot = snapshot_of(vec!["/d"], vec![file("/d/x.rs", b"x")]);
    let bundle = run(
        vec![Argument::Str("/d/*.txt".to_string())],
        "/unit",
        "/",
        &snapshot,
    )
    .unwrap();
    assert_eq!(bundle.package.len(), 0);
}

#[test]
fn unresolvable_pattern_is_resolution_error() {
    let snapshot = snapshot_of(vec![], vec![]);
    let r = run(vec![Argument::Str("rel".to_string())], "unit", "cwd", &snapshot);
    assert_eq!(r, Err(Error::ResolutionError { pattern: "rel".to_string() }));
}

#[test]
fn unreadable_file_is_read_error() {
    let snapshot = snapshot_of(
        vec!["/d"],
        vec![
            file("/d/ok.txt", b"fine"),
            FsFile {
                path: "/d/bad.txt".to_string(),
                content: vec![],
                readable: false,
                detail: "permission denied".to_string(),
            },
        ],
    );
    let r = run(vec![Argument::Str("/d".to_string())], "/unit", "/", &snapshot);
    assert_eq!(
        r,
        Err(Error::ReadError {
            path: "/d/bad.txt".to_string(),
            detail: "permission denied".to_string(),
        })
    );
}

#[test]
fn match_outside_base_is_internal_invariant_error() {
    // A path ending in the separator can match the pattern while its name
    // would be empty; the pipeline rejects it instead of mis-naming it.
    let snapshot = snapshot_of(
        vec![],
        vec![FsFile {
            path: "/a/".to_string(),
            content: vec![],
            readable: true,
            detail: String::new(),
        }],
    );
    let r = run(vec![Argument::Str("/a/*".to_string())], "/unit", "/", &snapshot);
    assert_eq!(
        r,
        Err(Error::InternalInvariantError { path: "/a/".to_string(), base: "/a".to_string() })
    );
}

#[test]
fn find_returns_first_match_in_discovery_order() {
    let snapshot = snapshot_of(
        vec!["/one", "/two"],
        vec![file("/one/same.txt", b"first"), file("/two/same.txt", b"second")],
    );
    let args = vec![Argument::List(vec![
        Argument::Str("/one".to_string()),
        Argument::Str("/two".to_string()),
    ])];
    let bundle = run(args, "/unit", "/", &snapshot).unwrap();
    assert_eq!(bundle.package.len(), 2);
    assert_eq!(
        bundle.package.find(&"same.txt".to_string()).map(|c| &c[..]),
        Some(&b"first"[..])
    );
}

#[test]
fn patterns_concatenate_in_list_order() {
    let snapshot = snapshot_of(
        vec!["/two", "/one"],
        vec![file("/two/t.txt", b"t"), file("/one/o.txt", b"o")],
    );
    let args = vec![Argument::List(vec![
        Argument::Str("/one".to_string()),
        Argument::Str("/two".to_string()),
    ])];
    let bundle = run(args, "/unit", "/", &snapshot).unwrap();
    let names: Vec<&str> =
        bundle.package.iterate().iter().map(|e| e.name.as_str()).collect();
    assert_eq!(names, vec!["o.txt", "t.txt"]);
}

#[test]
fn question_mark_matches_one_character() {
    let snapshot = snapshot_of(
        vec!["/d"],
        vec![file("/d/ab.txt", b"1"), file("/d/abc.txt", b"2")],
    );
    let bundle = run(
        vec![Argument::Str("/d/a?.txt".to_string())],
        "/unit",
        "/",
        &snapshot,
    )
    .unwrap();
    assert_eq!(bundle.package.len(), 1);
    assert_eq!(bundle.package.iterate()[0].name, "ab.txt");
}

#[test]
fn star_does_not_cross_separators() {
    let snapshot = snapshot_of(
        vec!["/d"],
        vec![file("/d/top.txt", b"t"), file("/d/sub/deep.txt", b"d")],
    );
    let bundle = run(
        vec![Argument::Str("/d/*".to_string())],
        "/unit",
        "/",
        &snapshot,
    )
    .unwrap();
    assert_eq!(bundle.package.len(), 1);
    assert_eq!(bundle.package.iterate()[0].name, "top.txt");
}

#[test]
fn absolute_pattern_is_used_verbatim() {
    let snapshot = snapshot_of(
        vec!["/abs"],
        vec![file("/abs/a.bin", &[0u8, 255u8, 7u8])],
    );
    let bundle = run(
        vec![Argument::Str("/abs".to_string())],
        "/elsewhere",
        "/",
        &snapshot,
    )
    .unwrap();
    assert_eq!(
        bundle.package.find(&"a.bin".to_string()).map(|c| &c[..]),
        Some(&[0u8, 255u8, 7u8][..])
    );
}

#[test]
fn rerun_on_same_snapshot_is_identical() {
    let snapshot = snapshot_of(
        vec!["/d"],
        vec![file("/d/a", b"a"), file("/d/b", b"b")],
    );
    let args1 = vec![Argument::Str("/d".to_string())];
    let args2 = vec![Argument::Str("/d".to_string())];
    let b1 = run(args1, "/u", "/", &snapshot).unwrap();
    let b2 = run(args2, "/u", "/", &snapshot).unwrap();
    assert_eq!(b1, b2);
}

#[test]
fn contents_round_trip_byte_for_byte() {
    let raw: &[u8] = &[0u8, 1u8, 2u8, 254u8, 255u8, 10u8, 13u8];
    let snapshot = snapshot_of(vec!["/d"], vec![file("/d/blob", raw)]);
    let bundle = run(vec![Argument::Str("/d".to_string())], "/u", "/", &snapshot).unwrap();
    assert_eq!(bundle.package.find(&"blob".to_string()).map(|c| &c[..]), Some(raw));
}

#[test]
fn errors_describe_their_offending_path() {
    let e = Error::EnumerationError {
        path: "/x/y".to_string(),
        detail: "no such directory".to_string(),
    };
    assert_eq!(e.describe(), "cannot list directory: /x/y: no such directory");
    let e = Error::ReadError {
        path: "/x/z".to_string(),
        detail: "interrupted".to_string(),
    };
    assert_eq!(e.describe(), "cannot read file: /x/z: interrupted");
    let e = Error::ShapeError;
    assert_eq!(e.describe(), "expected a string or an array of strings");
    let e = Error::ResolutionError { pattern: "p".to_string() };
    assert_eq!(e.describe(), "cannot resolve pattern to an absolute path: p");
    let e = Error::ArityError { count: 2 };
    assert_eq!(e.describe(), "expected exactly 1 argument");
    let e = Error::InternalInvariantError { path: "/a/".to_string(), base: "/a".to_string() };
    assert_eq!(e.describe(), "discovered file does not fall under its base: /a/");
}

#[test]
fn enumeration_error_carries_recorded_io_detail() {
    let snapshot = FsSnapshot {
        dirs: vec![],
        failures: vec![DirFailure {
            path: "/locked".to_string(),
            detail: "permission denied".to_string(),
        }],
        files: vec![],
    };
    let r = run(vec![Argument::Str("/locked".to_string())], "/unit", "/", &snapshot);
    assert_eq!(
        r,
        Err(Error::EnumerationError {
            path: "/locked".to_string(),
            detail: "permission denied".to_string(),
        })
    );
}

#[test]
fn trailing_slash_names_the_same_base() {
    let snapshot = snapshot_of(vec!["/unit/fixture"], vec![file("/unit/fixture/a.txt", b"a")]);
    let bundle = run(
        vec![Argument::Str("fixture/".to_string())],
        "/unit",
        "/",
        &snapshot,
    )
    .unwrap();
    assert_eq!(bundle.package.len(), 1);
    assert_eq!(bundle.package.iterate()[0].name, "a.txt");
}

#[test]
fn dot_segment_names_the_same_base() {
    let snapshot = snapshot_of(vec!["/unit/fixture"], vec![file("/unit/fixture/a.txt", b"a")]);
    let bundle = run(
        vec![Argument::Str("./fixture".to_string())],
        "/unit",
        "/",
        &snapshot,
    )
    .unwrap();
    assert_eq!(bundle.package.len(), 1);
    assert_eq!(
        bundle.package.find(&"a.txt".to_string()).map(|c| &c[..]),
        Some(&b"a"[..])
    );
}
