use betterty::typescript::dependencies::{
    analyze_package_json, classify, find, find_file, get_core_module, is_core_module,
    search_node_modules, Answer, Kind,
};
use betterty::typescript::snapshot::{PackageDescriptor, Request, Snapshot};

fn sealed(files: &[(&str, &str)]) -> Snapshot {
    let mut fs = Snapshot::new();
    for (probe, canonical) in files {
        fs.record_path(probe, Some(canonical.to_string()));
    }
    fs.seal();
    fs
}

fn resolved(path: &str) -> Answer {
    Answer::Resolved(Some(path.to_string()))
}

fn types(target: &str) -> PackageDescriptor {
    PackageDescriptor { types: Some(target.to_string()), typings: None }
}

#[test]
fn relative_prefers_the_file_with_the_extension() {
    let fs = sealed(&[("/a/./x.ts", "/a/x.ts"), ("/a/./x/index.ts", "/a/x/index.ts")]);
    assert_eq!(find(&fs, "/a/b.ts", "./x"), resolved("/a/x.ts"));
}

#[test]
fn relative_falls_back_to_the_index_file() {
    let fs = sealed(&[("/a/./x/index.ts", "/a/x/index.ts")]);
    assert_eq!(find(&fs, "/a/b.ts", "./x"), resolved("/a/x/index.ts"));
}

#[test]
fn relative_prefers_declarations_over_the_index_file() {
    let fs = sealed(&[("/a/./x.d.ts", "/a/x.d.ts"), ("/a/./x/index.ts", "/a/x/index.ts")]);
    assert_eq!(find(&fs, "/a/b.ts", "./x"), resolved("/a/x.d.ts"));
}

#[test]
fn relative_with_extension_is_tried_as_it_stands() {
    let fs = sealed(&[("/a/./x.ts", "/a/x.ts"), ("/a/./x.ts.ts", "/a/x.ts.ts")]);
    assert_eq!(find(&fs, "/a/b.ts", "./x.ts"), resolved("/a/x.ts"));
    let fs = sealed(&[("/a/./x.ts.ts", "/a/x.ts.ts")]);
    assert_eq!(find(&fs, "/a/b.ts", "./x.ts"), resolved("/a/x.ts.ts"));
}

#[test]
fn relative_to_the_directory_above() {
    let fs = sealed(&[("/a/b/../x.ts", "/a/x.ts")]);
    assert_eq!(find(&fs, "/a/b/c.ts", "../x"), resolved("/a/x.ts"));
}

#[test]
fn relative_from_the_root_directory() {
    let fs = sealed(&[("/./x.ts", "/x.ts")]);
    assert_eq!(find(&fs, "/b.ts", "./x"), resolved("/x.ts"));
}

#[test]
fn relative_unresolved() {
    let fs = sealed(&[]);
    assert_eq!(find(&fs, "/a/b.ts", "./x"), Answer::Resolved(None));
}

#[test]
fn bare_prefers_the_file_in_node_modules() {
    let fs = sealed(&[
        ("/proj/node_modules/foo.ts", "/proj/node_modules/foo.ts"),
        ("/proj/node_modules/foo/index.ts", "/proj/node_modules/foo/index.ts"),
    ]);
    assert_eq!(find(&fs, "/proj/src/a.ts", "foo"), resolved("/proj/node_modules/foo.ts"));
}

#[test]
fn bare_falls_back_to_the_index_file() {
    let fs = sealed(&[("/proj/node_modules/foo/index.ts", "/proj/node_modules/foo/index.ts")]);
    assert_eq!(find(&fs, "/proj/src/a.ts", "foo"), resolved("/proj/node_modules/foo/index.ts"));
}

#[test]
fn bare_goes_up_to_the_root() {
    let fs = sealed(&[("/node_modules/foo.ts", "/node_modules/foo.ts")]);
    assert_eq!(find(&fs, "/proj/src/a.ts", "foo"), resolved("/node_modules/foo.ts"));
}

#[test]
fn bare_nearest_directory_wins() {
    let fs = sealed(&[
        ("/node_modules/foo.ts", "/node_modules/foo.ts"),
        ("/proj/src/node_modules/foo/index.d.ts", "/proj/src/node_modules/foo/index.d.ts"),
    ]);
    assert_eq!(
        find(&fs, "/proj/src/a.ts", "foo"),
        resolved("/proj/src/node_modules/foo/index.d.ts")
    );
}

#[test]
fn bare_absent_everywhere() {
    let fs = sealed(&[("/proj/node_modules/bar.ts", "/proj/node_modules/bar.ts")]);
    assert_eq!(find(&fs, "/proj/src/a.ts", "foo"), Answer::Resolved(None));
}

#[test]
fn bare_prefers_platform_declarations() {
    let fs = sealed(&[
        ("/proj/node_modules/@types/node/path.d.ts", "/proj/node_modules/@types/node/path.d.ts"),
        ("/proj/node_modules/@types/path/index.d.ts", "/proj/node_modules/@types/path/index.d.ts"),
        ("/proj/node_modules/path.ts", "/proj/node_modules/path.ts"),
    ]);
    assert_eq!(
        find(&fs, "/proj/src/a.ts", "path"),
        resolved("/proj/node_modules/@types/node/path.d.ts")
    );
}

#[test]
fn bare_prefers_declaration_packages_over_the_package() {
    let fs = sealed(&[
        ("/proj/node_modules/@types/rimraf/index.d.ts", "/proj/node_modules/@types/rimraf/index.d.ts"),
        ("/proj/node_modules/rimraf.ts", "/proj/node_modules/rimraf.ts"),
    ]);
    assert_eq!(
        find(&fs, "/proj/src/a.ts", "rimraf"),
        resolved("/proj/node_modules/@types/rimraf/index.d.ts")
    );
}

#[test]
fn manifest_redirect() {
    let mut fs = Snapshot::new();
    fs.record_manifest("/proj/node_modules/bar", Some(types("lib/index.d.ts")));
    fs.record_path(
        "/proj/node_modules/bar/lib/index.d.ts",
        Some("/proj/node_modules/bar/lib/index.d.ts".to_string()),
    );
    fs.seal();
    assert_eq!(
        find(&fs, "/proj/src/a.ts", "bar"),
        resolved("/proj/node_modules/bar/lib/index.d.ts")
    );
}

#[test]
fn manifest_redirect_without_extension() {
    let mut fs = Snapshot::new();
    fs.record_manifest("/proj/node_modules/agent", Some(types("dist/index")));
    fs.record_path(
        "/proj/node_modules/agent/dist/index.d.ts",
        Some("/proj/node_modules/agent/dist/index.d.ts".to_string()),
    );
    fs.seal();
    assert_eq!(
        find(&fs, "/proj/src/a.ts", "agent"),
        resolved("/proj/node_modules/agent/dist/index.d.ts")
    );
}

#[test]
fn manifest_redirect_goes_before_the_plain_guess() {
    let mut fs = Snapshot::new();
    fs.record_manifest("/proj/node_modules/bar", Some(types("lib/index.d.ts")));
    fs.record_path(
        "/proj/node_modules/bar/lib/index.d.ts",
        Some("/proj/node_modules/bar/lib/index.d.ts".to_string()),
    );
    fs.record_path(
        "/proj/node_modules/bar/index.ts",
        Some("/proj/node_modules/bar/index.ts".to_string()),
    );
    fs.seal();
    assert_eq!(
        find(&fs, "/proj/src/a.ts", "bar"),
        resolved("/proj/node_modules/bar/lib/index.d.ts")
    );
}

#[test]
fn plain_guess_where_the_redirect_names_no_file() {
    let mut fs = Snapshot::new();
    fs.record_manifest("/proj/node_modules/bar", Some(types("lib/missing")));
    fs.record_path(
        "/proj/node_modules/bar/index.ts",
        Some("/proj/node_modules/bar/index.ts".to_string()),
    );
    fs.seal();
    assert_eq!(find(&fs, "/proj/src/a.ts", "bar"), resolved("/proj/node_modules/bar/index.ts"));
}

#[test]
fn manifest_typings_where_types_is_empty() {
    let mut fs = Snapshot::new();
    fs.record_manifest(
        "/proj/node_modules/bar",
        Some(PackageDescriptor { types: Some(String::new()), typings: Some("t.d.ts".to_string()) }),
    );
    fs.record_path("/proj/node_modules/bar/t.d.ts", Some("/proj/node_modules/bar/t.d.ts".to_string()));
    fs.seal();
    assert_eq!(find(&fs, "/proj/src/a.ts", "bar"), resolved("/proj/node_modules/bar/t.d.ts"));
}

#[test]
fn manifest_types_goes_before_typings() {
    let d = PackageDescriptor { types: Some("a".to_string()), typings: Some("b".to_string()) };
    assert_eq!(d.redirect(), Some(&"a".to_string()));
    let d = PackageDescriptor { types: None, typings: Some("b".to_string()) };
    assert_eq!(d.redirect(), Some(&"b".to_string()));
    let d = PackageDescriptor { types: Some(String::new()), typings: Some(String::new()) };
    assert_eq!(d.redirect(), None);
    let d = PackageDescriptor { types: None, typings: None };
    assert_eq!(d.redirect(), None);
}

#[test]
fn absolute_ignores_the_importing_file() {
    let fs = sealed(&[("/x.ts", "/x.ts"), ("/a/./x.ts", "/a/x.ts")]);
    assert_eq!(find(&fs, "/a/b.ts", "/x"), resolved("/x.ts"));
    assert_eq!(find(&fs, "/c/d/e.ts", "/x"), resolved("/x.ts"));
}

#[test]
fn subpath_imports_are_unresolved() {
    let fs = sealed(&[("/a/#x.ts", "/a/#x.ts"), ("/a/node_modules/#x.ts", "/a/node_modules/#x.ts")]);
    assert_eq!(find(&fs, "/a/b.ts", "#x"), Answer::Resolved(None));
}

#[test]
fn core_modules_are_searched_like_packages() {
    assert_eq!(get_core_module("fs"), None);
    let fs = sealed(&[("/p/node_modules/@types/node/fs.d.ts", "/p/node_modules/@types/node/fs.d.ts")]);
    assert_eq!(find(&fs, "/p/a.ts", "fs"), resolved("/p/node_modules/@types/node/fs.d.ts"));
}

#[test]
fn file_without_directory_imports_nothing() {
    let fs = sealed(&[("/x.ts", "/x.ts")]);
    assert_eq!(find(&fs, "/", "/x"), Answer::Resolved(None));
    assert_eq!(find(&fs, "", "/x"), Answer::Resolved(None));
}

#[test]
fn open_snapshot_asks_for_what_it_lacks() {
    let mut fs = Snapshot::new();
    assert_eq!(find(&fs, "/a/b.ts", "./x"), Answer::Need(Request::Path("/a/./x.ts".to_string())));
    fs.record_path("/a/./x.ts", None);
    assert_eq!(find(&fs, "/a/b.ts", "./x"), Answer::Need(Request::Path("/a/./x.d.ts".to_string())));
    fs.record_path("/a/./x.d.ts", Some("/a/x.d.ts".to_string()));
    assert_eq!(find(&fs, "/a/b.ts", "./x"), resolved("/a/x.d.ts"));
}

#[test]
fn open_snapshot_asks_for_the_manifest_before_the_plain_guess() {
    let mut fs = Snapshot::new();
    for dir in ["/p/node_modules/@types/node/m", "/p/node_modules/@types/m"] {
        for tail in [".ts", ".d.ts", "/index.ts", "/index.d.ts"] {
            fs.record_path(&format!("{}{}", dir, tail), None);
        }
    }
    assert_eq!(find(&fs, "/p/a.ts", "m"), Answer::Need(Request::Manifest("/p/node_modules/m".to_string())));
    fs.record_manifest("/p/node_modules/m", None);
    assert_eq!(find(&fs, "/p/a.ts", "m"), Answer::Need(Request::Path("/p/node_modules/m.ts".to_string())));
}

#[test]
fn first_recorded_answer_stands() {
    let mut fs = Snapshot::new();
    fs.record_path("/x.ts", Some("/x.ts".to_string()));
    fs.record_path("/x.ts", None);
    assert_eq!(find_file(&fs, "/x"), resolved("/x.ts"));
}

#[test]
fn find_file_order() {
    let fs = sealed(&[("/p/index.d.ts", "/p/index.d.ts")]);
    assert_eq!(find_file(&fs, "/p"), resolved("/p/index.d.ts"));
    let fs = sealed(&[("/p/index.d.ts", "/p/index.d.ts"), ("/p/index.ts", "/p/index.ts")]);
    assert_eq!(find_file(&fs, "/p"), resolved("/p/index.ts"));
    let fs = sealed(&[("/p.d.ts", "/real/p.d.ts"), ("/p/index.ts", "/p/index.ts")]);
    assert_eq!(find_file(&fs, "/p"), resolved("/real/p.d.ts"));
    let fs = sealed(&[("/p.d.ts", "/real/p.d.ts")]);
    assert_eq!(find_file(&fs, "/p.d.ts"), resolved("/real/p.d.ts"));
}

#[test]
fn package_manifest_answers() {
    let mut fs = Snapshot::new();
    assert_eq!(analyze_package_json(&fs, "/p"), Answer::Need(Request::Manifest("/p".to_string())));
    fs.record_manifest("/p", Some(PackageDescriptor { types: None, typings: None }));
    assert_eq!(analyze_package_json(&fs, "/p"), Answer::Resolved(None));
    fs.record_manifest("/q", None);
    assert_eq!(analyze_package_json(&fs, "/q"), Answer::Resolved(None));
}

#[test]
fn search_from_a_directory() {
    let fs = sealed(&[("/a/node_modules/m.ts", "/a/node_modules/m.ts")]);
    assert_eq!(search_node_modules(&fs, "/a/b/c", "m"), resolved("/a/node_modules/m.ts"));
    assert_eq!(search_node_modules(&fs, "/z", "m"), Answer::Resolved(None));
    let fs = sealed(&[("node_modules/m.ts", "/cwd/node_modules/m.ts")]);
    assert_eq!(search_node_modules(&fs, "a/b", "m"), resolved("/cwd/node_modules/m.ts"));
}

#[test]
fn core_module_names() {
    for name in ["fs", "path", "http", "assert", "zlib", "child_process", "v8"] {
        assert!(is_core_module(name));
        assert_eq!(get_core_module(name), None);
    }
    for name in ["", "rimraf", "FS", "fs/promises", "./fs", "/fs", "#fs", "fs "] {
        assert!(!is_core_module(name));
    }
}

#[test]
fn specifiers_are_classified_by_their_text() {
    assert_eq!(classify("fs"), Kind::Core);
    assert_eq!(classify("/x"), Kind::Absolute);
    assert_eq!(classify("/"), Kind::Absolute);
    assert_eq!(classify("./x"), Kind::Relative);
    assert_eq!(classify("../x"), Kind::Relative);
    assert_eq!(classify("#x"), Kind::Subpath);
    assert_eq!(classify("foo"), Kind::Bare);
    assert_eq!(classify("@types/foo"), Kind::Bare);
    assert_eq!(classify(""), Kind::Bare);
    assert_eq!(classify("."), Kind::Bare);
    assert_eq!(classify(".."), Kind::Bare);
    assert_eq!(classify(".x"), Kind::Bare);
}

#[test]
fn bare_dots_are_searched_like_packages() {
    let fs = sealed(&[("/p/node_modules/...ts", "/p/node_modules/...ts")]);
    assert_eq!(find(&fs, "/p/a.ts", ".."), resolved("/p/node_modules/...ts"));
}
