use resources_package::error::Error;
use resources_package::pipeline::run_pipeline;
use resources_package::snapshot::{FsFile, FsSnapshot};
use resources_package::spec_parser::Argument;

fn file(path: &str, content: &[u8]) -> FsFile {
    FsFile {
        path: path.to_string(),
        content: content.to_vec(),
        readable: true,
        detail: String::new(),
    }
}

fn fixture_snapshot() -> FsSnapshot {
    FsSnapshot {
        dirs: vec![
            "/build/unit/fixture".to_string(),
            "/build/unit/fixture/subdir".to_string(),
        ],
        failures: vec![],
        files: vec![
            file("/build/unit/fixture/aaa.txt", b"aaa\naaa"),
            file("/build/unit/fixture/b.txt", b"b b b"),
            file("/build/unit/fixture/subdir/cc.txt", b"ccc"),
        ],
    }
}

#[test]
fn test() {
    let args = vec![Argument::Str("fixture".to_string())];
    let bundle = run_pipeline(
        &args,
        &"/build/unit".to_string(),
        &"/build".to_string(),
        &fixture_snapshot(),
    )
    .unwrap();
    let package = bundle.package;

    assert_eq!(package.iterate().iter().count(), 3);

    assert_eq!(
        package.iterate().iter().find(|e| e.name == "aaa.txt").map(|e| &e.content[..]),
        Some(&b"aaa\naaa"[..])
    );

    assert_eq!(
        package.iterate().iter().find(|e| e.name == "b.txt").map(|e| &e.content[..]),
        Some(&b"b b b"[..])
    );

    assert_eq!(
        package.iterate().iter().find(|e| e.name == "subdir/cc.txt").map(|e| &e.content[..]),
        Some(&b"ccc"[..])
    );

    assert_eq!(
        package.find(&"aaa.txt".to_string()).map(|c| &c[..]),
        Some(&b"aaa\naaa"[..])
    );
    assert_eq!(
        package.find(&"b.txt".to_string()).map(|c| &c[..]),
        Some(&b"b b b"[..])
    );
    assert_eq!(
        package.find(&"subdir/cc.txt".to_string()).map(|c| &c[..]),
        Some(&b"ccc"[..])
    );
}

#[test]
fn walk_missing_name_is_not_found() {
    let args = vec![Argument::Str("fixture".to_string())];
    let bundle = run_pipeline(
        &args,
        &"/build/unit".to_string(),
        &"/build".to_string(),
        &fixture_snapshot(),
    )
    .unwrap();
    assert_eq!(bundle.package.find(&"missing.txt".to_string()), None);
    assert_eq!(bundle.package.len(), 3);
    assert_eq!(
        bundle.dependencies,
        vec![
            "/build/unit/fixture/aaa.txt".to_string(),
            "/build/unit/fixture/b.txt".to_string(),
            "/build/unit/fixture/subdir/cc.txt".to_string(),
        ]
    );
}

#[test]
fn glob_packages_only_matching_files() {
    let args = vec![Argument::Str("fixture/*.txt".to_string())];
    let bundle = run_pipeline(
        &args,
        &"/build/unit".to_string(),
        &"/build".to_string(),
        &fixture_snapshot(),
    )
    .unwrap();
    let package = bundle.package;
    assert_eq!(package.len(), 2);
    assert_eq!(package.iterate()[0].name, "aaa.txt");
    assert_eq!(package.iterate()[1].name, "b.txt");
    assert_eq!(
        package.find(&"aaa.txt".to_string()).map(|c| &c[..]),
        Some(&b"aaa\naaa"[..])
    );
    assert_eq!(package.find(&"subdir/cc.txt".to_string()), None);
    assert_eq!(package.find(&"cc.txt".to_string()), None);
}

#[test]
fn missing_walk_base_is_enumeration_error() {
    let args = vec![Argument::Str("no_such_dir".to_string())];
    let r = run_pipeline(
        &args,
        &"/build/unit".to_string(),
        &"/build".to_string(),
        &fixture_snapshot(),
    );
    assert_eq!(
        r,
        Err(Error::EnumerationError {
            path: "/build/unit/no_such_dir".to_string(),
            detail: "no such directory".to_string(),
        })
    );
}
