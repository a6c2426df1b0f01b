use betterty::path::{
    components, join, render, render_range, same_component, split, starts_at_root, Component,
};
use betterty::text::{chain, chain3, chars_of, has_prefix, has_suffix, same_text};

fn normal(name: &str) -> Component {
    Component::Normal(name.to_string())
}

#[test]
fn split_keeps_empty_pieces() {
    assert_eq!(split(""), [""]);
    assert_eq!(split("/"), ["", ""]);
    assert_eq!(split("a"), ["a"]);
    assert_eq!(split("/a//b/"), ["", "a", "", "b", ""]);
}

#[test]
fn components_of_absolute_paths() {
    assert_eq!(components("/"), [Component::RootDir]);
    assert_eq!(components("/a/b.ts"), [Component::RootDir, normal("a"), normal("b.ts")]);
    assert_eq!(components("//a///b/"), [Component::RootDir, normal("a"), normal("b")]);
    assert_eq!(components("/./a/./b/."), [Component::RootDir, normal("a"), normal("b")]);
    assert_eq!(components("/a/../b"), [Component::RootDir, normal("a"), Component::ParentDir, normal("b")]);
}

#[test]
fn components_of_relative_paths() {
    assert_eq!(components(""), []);
    assert_eq!(components("a/b"), [normal("a"), normal("b")]);
    assert_eq!(components("./a"), [Component::CurDir, normal("a")]);
    assert_eq!(components("."), [Component::CurDir]);
    assert_eq!(components("a/./b"), [normal("a"), normal("b")]);
    assert_eq!(components("../a"), [Component::ParentDir, normal("a")]);
    assert_eq!(components("..."), [normal("...")]);
    assert_eq!(components("é/ü"), [normal("é"), normal("ü")]);
}

#[test]
fn components_agree_with_std() {
    for p in ["", "/", "a", "/a/b", "./a", "a/./b", "../a/..", "//x//y/", ".", "./.", "/.", "a/", ".a/b."] {
        let expected: Vec<Component> = std::path::Path::new(p)
            .components()
            .map(|c| match c {
                std::path::Component::RootDir => Component::RootDir,
                std::path::Component::CurDir => Component::CurDir,
                std::path::Component::ParentDir => Component::ParentDir,
                std::path::Component::Normal(n) => normal(n.to_str().unwrap()),
                std::path::Component::Prefix(_) => unreachable!(),
            })
            .collect();
        assert_eq!(components(p), expected);
        let collected: std::path::PathBuf = std::path::Path::new(p).components().collect();
        assert_eq!(render(&components(p)), collected.to_str().unwrap());
    }
}

#[test]
fn render_spells_components() {
    assert_eq!(render(&components("/a/b")), "/a/b");
    assert_eq!(render(&components("//a//b/")), "/a/b");
    assert_eq!(render(&components("./a")), "./a");
    assert_eq!(render(&components("/")), "/");
    assert_eq!(render(&Vec::new()), "");
    let parts = components("/a/b/c");
    assert_eq!(render_range(&parts, 1, 3), "a/b");
    assert_eq!(render_range(&parts, 0, 1), "/");
    assert_eq!(render_range(&parts, 2, 2), "");
}

#[test]
fn join_puts_one_separator() {
    assert_eq!(join("/a", "b"), "/a/b");
    assert_eq!(join("/a/", "b"), "/a/b");
    assert_eq!(join("/", "b"), "/b");
    assert_eq!(join("", "b"), "b");
    assert_eq!(join("/a", "/b"), "/b");
    assert_eq!(join("/a", ""), "/a/");
    for (base, rel) in [("/a", "b"), ("/a/", "b"), ("/", "b"), ("", "b"), ("/a", "/b"), ("/a", ""), ("a", "./b")] {
        assert_eq!(join(base, rel), std::path::Path::new(base).join(rel).to_str().unwrap());
    }
}

#[test]
fn absolute_paths_start_at_the_root() {
    assert!(starts_at_root("/"));
    assert!(starts_at_root("/a"));
    assert!(!starts_at_root(""));
    assert!(!starts_at_root("a/"));
}

#[test]
fn text_helpers() {
    assert_eq!(chain("a", "b"), "ab");
    assert_eq!(chain3("a", "/", "b"), "a/b");
    assert!(same_text("é", "é"));
    assert!(!same_text("a", "ab"));
    assert!(!same_text("ab", "ac"));
    assert!(has_prefix("./x", "./"));
    assert!(!has_prefix(".", "./"));
    assert!(has_prefix("x", ""));
    assert!(has_suffix("a.d.ts", ".ts"));
    assert!(!has_suffix("ts", ".ts"));
}

#[test]
fn characters_of_a_text() {
    assert_eq!(chars_of(""), Vec::<char>::new());
    assert_eq!(chars_of("a/é"), ['a', '/', 'é']);
}

#[test]
fn components_are_compared_by_what_they_are() {
    assert!(same_component(&Component::RootDir, &Component::RootDir));
    assert!(same_component(&normal("a"), &normal("a")));
    assert!(!same_component(&normal("a"), &normal("b")));
    assert!(!same_component(&normal(".."), &Component::ParentDir));
    assert!(!same_component(&Component::CurDir, &Component::ParentDir));
}
