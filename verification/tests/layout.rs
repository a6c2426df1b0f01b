use betterty::path::{components, render, Component};
use betterty::{
    consume_node_modules, destinations, eat_dots, is_without_repeats, place, relative, same_path,
};

#[test]
fn can_eat_dots() {
    assert_eq!(
        eat_dots(components("../utils/st.ts")),
        [Component::Normal("utils".to_string()), Component::Normal("st.ts".to_string())]
    );
}

#[test]
fn can_consume() {
    {
        let mut c = components("/foo/node_modules/bar/hoge");
        consume_node_modules(&mut c);
        let p = render(&c);
        assert_eq!(p, "bar/hoge");
    }
    {
        let mut c = components("/foo/bar/hoge");
        consume_node_modules(&mut c);
        let p = render(&c);
        assert_eq!(p, "");
    }
}

#[test]
fn can_relative() {
    assert_eq!(relative("/foo.ts", "/bar.ts"), "bar.ts");
    assert_eq!(relative("/foo.ts", "/foo/bar.ts"), "foo/bar.ts");
    assert_eq!(relative("/foo/bar.ts", "/bar.ts"), "../bar.ts");
}

#[test]
fn relative_climbs_once_for_each_directory() {
    assert_eq!(relative("/a/b/c/d.ts", "/a/x.ts"), "../../x.ts");
    assert_eq!(relative("/a/b/c/d.ts", "/x.ts"), "../../../x.ts");
    assert_eq!(relative("/a/b.ts", "/a/b.ts"), "");
    assert_eq!(relative("a/b.ts", "/x.ts"), "/x.ts");
}

#[test]
fn consume_stops_at_the_first_node_modules() {
    let mut c = components("/a/node_modules/b/node_modules/c");
    consume_node_modules(&mut c);
    assert_eq!(render(&c), "b/node_modules/c");
    let mut c = components("node_modules");
    consume_node_modules(&mut c);
    assert_eq!(c, []);
}

#[test]
fn eat_dots_keeps_later_dots() {
    assert_eq!(
        eat_dots(components("./../a/../b")),
        [
            Component::Normal("a".to_string()),
            Component::ParentDir,
            Component::Normal("b".to_string())
        ]
    );
    assert_eq!(eat_dots(components("/a")), components("/a"));
    assert_eq!(eat_dots(components("../..")), []);
}

#[test]
fn entry_becomes_lib_rs() {
    assert_eq!(place("/p/src/index.ts", "/p/src/index.ts", "/out"), "/out/lib.rs");
    assert_eq!(place("/p/src/index.ts", "/p/src//index.ts", "/"), "/lib.rs");
}

#[test]
fn package_files_keep_their_path_below_node_modules() {
    assert_eq!(
        place("/p/src/index.ts", "/p/node_modules/@types/node/fs.d.ts", "/out"),
        "/out/@types/node/fs.d.ts"
    );
}

#[test]
fn other_files_keep_their_relative_path() {
    assert_eq!(place("/p/src/index.ts", "/p/src/a/b.ts", "/out"), "/out/a/b.ts");
    assert_eq!(place("/p/src/index.ts", "/p/lib/b.ts", "/out"), "/out/lib/b.ts");
}

#[test]
fn destinations_follow_the_files() {
    let files = vec![
        "/p/src/index.ts".to_string(),
        "/p/src/a.ts".to_string(),
        "/p/node_modules/m/index.d.ts".to_string(),
    ];
    assert_eq!(
        destinations("/p/src/index.ts", &files, "/out"),
        [
            ("/p/src/index.ts".to_string(), "/out/lib.rs".to_string()),
            ("/p/src/a.ts".to_string(), "/out/a.ts".to_string()),
            ("/p/node_modules/m/index.d.ts".to_string(), "/out/m/index.d.ts".to_string()),
        ]
    );
    assert_eq!(destinations("/p/src/index.ts", &Vec::new(), "/out"), []);
}

#[test]
fn same_path_compares_components() {
    assert!(same_path("/a/b", "/a//b/"));
    assert!(same_path("/a/./b", "/a/b"));
    assert!(!same_path("/a/b", "a/b"));
    assert!(!same_path("/a/b", "/a/b/c"));
    assert!(!same_path("./a", "a"));
}

#[test]
fn repeated_files_are_found() {
    assert!(is_without_repeats(&Vec::new()));
    assert!(is_without_repeats(&vec!["/a.ts".to_string(), "/b.ts".to_string()]));
    assert!(!is_without_repeats(&vec!["/a.ts".to_string(), "/a.ts".to_string()]));
    assert!(!is_without_repeats(&vec![
        "/a.ts".to_string(),
        "/b.ts".to_string(),
        "//a.ts".to_string()
    ]));
}
