use betterty::typescript::dependencies::{find, Answer};
use betterty::typescript::parser::{judge, Parsed, Source};
use betterty::typescript::snapshot::{PackageDescriptor, Request, Snapshot};
use betterty::typescript::{
    analyze_module, file_name, load, Analysis, Load, LoadError, Loader, Progress,
};
use swc_common::comments::SingleThreadedComments;
use swc_common::sync::Lrc;
use swc_common::{FileName, SourceMap};
use swc_ecma_dep_graph::analyze_dependencies;
use swc_ecma_parser::{Parser, Syntax, TsConfig};

fn read(path: &str, text: &str) -> Source {
    let source_map: Lrc<SourceMap> = Default::default();
    let file = source_map.new_source_file(FileName::Custom(file_name(path)), text.to_string());
    let comments = SingleThreadedComments::default();
    let config = TsConfig { decorators: true, no_early_errors: true, ..Default::default() };
    let mut parser = Parser::new(Syntax::Typescript(config), (&*file).into(), Some(&comments));
    let module = parser.parse_module();
    let recorded = parser.take_errors().iter().map(|e| format!("{:?}", e)).collect();
    match module {
        Err(e) => judge(Err(format!("{:?}", e)), recorded),
        Ok(ast) => {
            let specifiers = analyze_dependencies(&ast, &comments)
                .iter()
                .map(|d| d.specifier.to_string())
                .collect();
            judge(Ok(Parsed { ast, source_map, comments, specifiers }), recorded)
        }
    }
}

fn fixture(sources: &[(&str, &str)], paths: &[(&str, &str)]) -> Snapshot {
    let mut fs = Snapshot::new();
    for (path, text) in sources {
        fs.record_source(path, read(path, text));
    }
    for (probe, canonical) in paths {
        fs.record_path(probe, Some(canonical.to_string()));
    }
    fs.seal();
    fs
}

fn finished(progress: Progress) -> Load {
    match progress {
        Progress::Finished(load) => load,
        Progress::Failed(LoadError::Io(path)) => panic!("cannot read {}", path),
        Progress::Failed(LoadError::Parse(path, e)) => panic!("cannot parse {}: {}", path, e),
        Progress::Waiting(_, request) => panic!("waiting for {:?}", request),
    }
}

fn paths(load: &Load) -> Vec<String> {
    load.entries.iter().map(|e| e.path.clone()).collect()
}

fn some(path: &str) -> Option<String> {
    Some(path.to_string())
}

#[test]
fn entry_without_imports() {
    let fs = fixture(&[("/p/index.ts", "export const x = 1;")], &[]);
    let load = finished(load(fs, "/p/index.ts"));
    assert_eq!(load.root, "/p/index.ts");
    assert_eq!(load.size(), 1);
    assert_eq!(load.children("/p/index.ts"), Some(&vec![]));
    assert!(load.parsed("/p/index.ts").unwrap().specifiers.is_empty());
    assert!(load.entries[0].specifiers.is_empty());
}

#[test]
fn empty_entry() {
    let fs = fixture(&[("/p/index.ts", "")], &[]);
    let load = finished(load(fs, "/p/index.ts"));
    assert_eq!(load.size(), 1);
    assert_eq!(load.children("/p/index.ts"), Some(&vec![]));
}

#[test]
fn cycle_is_visited_once() {
    let fs = fixture(
        &[("/p/a.ts", "import './b';"), ("/p/b.ts", "import './a';")],
        &[("/p/./b.ts", "/p/b.ts"), ("/p/./a.ts", "/p/a.ts")],
    );
    let load = finished(load(fs, "/p/a.ts"));
    assert_eq!(paths(&load), ["/p/a.ts", "/p/b.ts"]);
    assert_eq!(load.children("/p/a.ts"), Some(&vec![some("/p/b.ts")]));
    assert_eq!(load.children("/p/b.ts"), Some(&vec![some("/p/a.ts")]));
}

#[test]
fn file_that_imports_itself() {
    let fs = fixture(&[("/p/a.ts", "import './a';")], &[("/p/./a.ts", "/p/a.ts")]);
    let load = finished(load(fs, "/p/a.ts"));
    assert_eq!(paths(&load), ["/p/a.ts"]);
    assert_eq!(load.children("/p/a.ts"), Some(&vec![some("/p/a.ts")]));
}

#[test]
fn diamond_is_visited_once() {
    let fs = fixture(
        &[
            ("/p/e.ts", "import './a'; import './b';"),
            ("/p/a.ts", "import './c';"),
            ("/p/b.ts", "import './c';"),
            ("/p/c.ts", ""),
        ],
        &[("/p/./a.ts", "/p/a.ts"), ("/p/./b.ts", "/p/b.ts"), ("/p/./c.ts", "/p/c.ts")],
    );
    let load = finished(load(fs, "/p/e.ts"));
    assert_eq!(paths(&load), ["/p/e.ts", "/p/a.ts", "/p/b.ts", "/p/c.ts"]);
    assert_eq!(load.children("/p/a.ts"), Some(&vec![some("/p/c.ts")]));
    assert_eq!(load.children("/p/b.ts"), Some(&vec![some("/p/c.ts")]));
    assert_eq!(load.children("/p/a.ts").unwrap()[0], load.children("/p/b.ts").unwrap()[0]);
    assert_eq!(load.children("/p/c.ts"), Some(&vec![]));
}

#[test]
fn files_are_visited_breadth_first() {
    let fs = fixture(
        &[
            ("/p/e.ts", "import './a'; import './b';"),
            ("/p/a.ts", "import './a1';"),
            ("/p/b.ts", "import './b1';"),
            ("/p/a1.ts", ""),
            ("/p/b1.ts", ""),
        ],
        &[
            ("/p/./a.ts", "/p/a.ts"),
            ("/p/./b.ts", "/p/b.ts"),
            ("/p/./a1.ts", "/p/a1.ts"),
            ("/p/./b1.ts", "/p/b1.ts"),
        ],
    );
    let load = finished(load(fs, "/p/e.ts"));
    assert_eq!(paths(&load), ["/p/e.ts", "/p/a.ts", "/p/b.ts", "/p/a1.ts", "/p/b1.ts"]);
}

#[test]
fn children_are_aligned_with_specifiers() {
    let fs = fixture(
        &[("/p/e.ts", "import './a'; import 'missing'; import './a'; import '#sub';"), ("/p/a.ts", "")],
        &[("/p/./a.ts", "/p/a.ts")],
    );
    let load = finished(load(fs, "/p/e.ts"));
    assert_eq!(
        load.parsed("/p/e.ts").unwrap().specifiers,
        ["./a", "missing", "./a", "#sub"]
    );
    assert_eq!(
        load.children("/p/e.ts"),
        Some(&vec![some("/p/a.ts"), None, some("/p/a.ts"), None])
    );
    assert_eq!(paths(&load), ["/p/e.ts", "/p/a.ts"]);
    assert_eq!(load.children("/p/other.ts"), None);
    assert!(load.parsed("/p/other.ts").is_none());
}

#[test]
fn unreadable_file_fails_the_load() {
    let fs = fixture(&[("/p/e.ts", "import './a';")], &[("/p/./a.ts", "/p/a.ts")]);
    match load(fs, "/p/e.ts") {
        Progress::Failed(LoadError::Io(path)) => assert_eq!(path, "/p/a.ts"),
        _ => panic!("the load went on"),
    }
    let mut fs = Snapshot::new();
    fs.record_source("/p/e.ts", Source::Unreadable);
    match load(fs, "/p/e.ts") {
        Progress::Failed(LoadError::Io(path)) => assert_eq!(path, "/p/e.ts"),
        _ => panic!("the load went on"),
    }
}

#[test]
fn malformed_file_fails_the_load() {
    let fs = fixture(
        &[("/p/e.ts", "import './a';"), ("/p/a.ts", "function (")],
        &[("/p/./a.ts", "/p/a.ts")],
    );
    match load(fs, "/p/e.ts") {
        Progress::Failed(LoadError::Parse(path, message)) => {
            assert_eq!(path, "/p/a.ts");
            assert!(!message.is_empty());
        }
        _ => panic!("the load went on"),
    }
}

#[test]
fn manifest_leads_to_declarations() {
    let mut fs = Snapshot::new();
    fs.record_source("/p/src/e.ts", read("/p/src/e.ts", "import bar from 'bar';"));
    fs.record_source(
        "/p/node_modules/bar/lib/index.d.ts",
        read("/p/node_modules/bar/lib/index.d.ts", "export declare const x: number;"),
    );
    fs.record_manifest(
        "/p/node_modules/bar",
        Some(PackageDescriptor { types: Some("lib/index.d.ts".to_string()), typings: None }),
    );
    fs.record_path("/p/node_modules/bar/lib/index.d.ts", some("/p/node_modules/bar/lib/index.d.ts"));
    fs.seal();
    let load = finished(load(fs, "/p/src/e.ts"));
    assert_eq!(paths(&load), ["/p/src/e.ts", "/p/node_modules/bar/lib/index.d.ts"]);
}

#[test]
fn loader_asks_for_what_it_lacks() {
    let mut loader = Loader::new(Snapshot::new(), "/p/e.ts");
    let mut asked = Vec::new();
    let load = loop {
        match loader.advance() {
            Progress::Finished(load) => break load,
            Progress::Failed(_) => panic!("the load failed"),
            Progress::Waiting(l, request) => {
                loader = l;
                match &request {
                    Request::Source(path) => {
                        let text = match path.as_str() {
                            "/p/e.ts" => "import './a'; import './a';",
                            "/p/a.ts" => "",
                            _ => panic!("no such file"),
                        };
                        loader.record_source(path, read(path, text));
                    }
                    Request::Path(probe) => {
                        let canonical = if probe == "/p/./a.d.ts" { some("/p/a.ts") } else { None };
                        loader.record_path(probe, canonical);
                    }
                    Request::Manifest(dir) => loader.record_manifest(dir, None),
                }
                asked.push(request);
            }
        }
    };
    assert_eq!(
        asked,
        [
            Request::Source("/p/e.ts".to_string()),
            Request::Path("/p/./a.ts".to_string()),
            Request::Path("/p/./a.d.ts".to_string()),
            Request::Source("/p/a.ts".to_string()),
        ]
    );
    assert_eq!(paths(&load), ["/p/e.ts", "/p/a.ts"]);
    assert_eq!(load.children("/p/e.ts"), Some(&vec![some("/p/a.ts"), some("/p/a.ts")]));
}

#[test]
fn sealed_snapshot_takes_no_more_answers() {
    let mut fs = Snapshot::new();
    fs.record_path("/x.ts", None);
    fs.seal();
    assert!(fs.is_sealed());
    fs.record_path("/y.ts", some("/y.ts"));
    assert_eq!(fs.path("/y.ts"), Some(None));
    assert_eq!(fs.path("/x.ts"), Some(None));
    fs.record_source("/y.ts", read("/y.ts", ""));
    assert!(matches!(fs.source("/y.ts"), Some(None)));
    fs.record_manifest("/m", Some(PackageDescriptor { types: None, typings: None }));
    assert_eq!(fs.manifest("/m"), Some(None));
}

#[test]
fn snapshot_answers() {
    let mut fs = Snapshot::new();
    assert!(!fs.is_sealed());
    assert_eq!(fs.path("/x.ts"), None);
    assert!(fs.source("/x.ts").is_none());
    assert_eq!(fs.manifest("/m"), None);
    fs.record_path("/x.ts", some("/real/x.ts"));
    fs.record_source("/x.ts", read("/x.ts", "import 'text';"));
    fs.record_source("/r.ts", Source::Rejected("no".to_string()));
    fs.record_source("/u.ts", Source::Unreadable);
    let d = PackageDescriptor { types: some("t"), typings: None };
    fs.record_manifest("/m", Some(d.clone()));
    assert_eq!(fs.path("/x.ts"), Some(Some(&"/real/x.ts".to_string())));
    match fs.source("/x.ts") {
        Some(Some(Source::Parsed(parsed))) => assert_eq!(parsed.specifiers, ["text"]),
        _ => panic!("not parsed"),
    }
    assert!(matches!(fs.source("/r.ts"), Some(Some(Source::Rejected(m))) if m == "no"));
    assert!(matches!(fs.source("/u.ts"), Some(Some(Source::Unreadable))));
    assert_eq!(fs.manifest("/m"), Some(Some(&d)));
    assert_eq!(fs.path("/y.ts"), None);
}

#[test]
fn analyze_one_module() {
    let mut fs = Snapshot::new();
    fs.record_path("/p/./a.ts", some("/p/a.ts"));
    fs.seal();
    let specifiers = vec!["./a".to_string(), "./b".to_string()];
    match analyze_module(&fs, "/p/e.ts", &specifiers) {
        Analysis::Analyzed(children) => assert_eq!(children, [some("/p/a.ts"), None]),
        _ => panic!("not analyzed"),
    }
    let open = Snapshot::new();
    match analyze_module(&open, "/p/e.ts", &specifiers) {
        Analysis::Waiting(request) => assert_eq!(request, Request::Path("/p/./a.ts".to_string())),
        _ => panic!("not waiting"),
    }
    assert_eq!(find(&open, "/p/e.ts", "./a"), Answer::Need(Request::Path("/p/./a.ts".to_string())));
    assert!(matches!(analyze_module(&open, "/p/e.ts", &Vec::new()), Analysis::Analyzed(c) if c.is_empty()));
}

#[test]
fn rejected_file_fails_the_load_with_its_message() {
    let mut fs = Snapshot::new();
    fs.record_source("/p/e.ts", Source::Rejected("line 1".to_string()));
    match load(fs, "/p/e.ts") {
        Progress::Failed(LoadError::Parse(path, message)) => {
            assert_eq!(path, "/p/e.ts");
            assert_eq!(message, "line 1");
        }
        _ => panic!("the load went on"),
    }
}

#[test]
fn parsed_files_are_those_recorded() {
    let fs = fixture(
        &[("/p/e.ts", "import './a'; function f(){}"), ("/p/a.ts", "function g(){}"), ("/p/z.ts", "")],
        &[("/p/./a.ts", "/p/a.ts")],
    );
    let load = finished(load(fs, "/p/e.ts"));
    assert_eq!(load.parsed("/p/e.ts").unwrap().specifiers, ["./a"]);
    assert_eq!(load.parsed("/p/e.ts").unwrap().ast.body.len(), 2);
    assert_eq!(load.parsed("/p/a.ts").unwrap().ast.body.len(), 1);
    assert!(load.parsed("/p/z.ts").is_none());
}

#[test]
fn file_names() {
    assert_eq!(file_name("/p/a.d.ts"), "a.d.ts");
    assert_eq!(file_name("a.ts"), "a.ts");
    assert_eq!(file_name("/p/a/"), "a");
    assert_eq!(file_name("/"), "");
    assert_eq!(file_name("/p/.."), "");
    assert_eq!(file_name(""), "");
}

#[test]
fn declaration_files_are_loaded() {
    let fs = fixture(
        &[
            ("/p/e.tsx", "import './v'; export const a = 1;"),
            ("/p/v.d.ts", "export declare const v: number;"),
        ],
        &[("/p/./v.d.ts", "/p/v.d.ts")],
    );
    let load = finished(load(fs, "/p/e.tsx"));
    assert_eq!(paths(&load), ["/p/e.tsx", "/p/v.d.ts"]);
}

#[test]
fn long_chain_of_files() {
    let count = 300;
    let mut loader = Loader::new(Snapshot::new(), "/p/a/b/c/f0.ts");
    let mut asked = 0;
    let load = loop {
        match loader.advance() {
            Progress::Finished(load) => break load,
            Progress::Failed(_) => panic!("the load failed"),
            Progress::Waiting(l, request) => {
                loader = l;
                asked += 1;
                match &request {
                    Request::Source(path) => {
                        let n: usize = path["/p/a/b/c/f".len()..path.len() - 3].parse().unwrap();
                        let text = if n + 1 < count {
                            format!("import './f{}'; import 'shared';", n + 1)
                        } else {
                            String::new()
                        };
                        loader.record_source(path, read(path, &text));
                    }
                    Request::Path(probe) => {
                        let canonical = if let Some(rest) = probe.strip_prefix("/p/a/b/c/./") {
                            if rest.ends_with(".ts.ts") || !rest.ends_with(".ts") || rest.contains('/') {
                                None
                            } else {
                                Some(format!("/p/a/b/c/{}", rest))
                            }
                        } else {
                            None
                        };
                        loader.record_path(probe, canonical);
                    }
                    Request::Manifest(dir) => loader.record_manifest(dir, None),
                }
            }
        }
    };
    assert_eq!(load.size(), count);
    assert_eq!(load.entries[count - 1].path, format!("/p/a/b/c/f{}.ts", count - 1));
    assert_eq!(load.children("/p/a/b/c/f0.ts"), Some(&vec![some("/p/a/b/c/f1.ts"), None]));
    assert!(asked < count * 4 + 100);
}

#[test]
fn any_error_rejects_a_file() {
    let parsed = || match read("/a.ts", "import './a';") {
        Source::Parsed(parsed) => parsed,
        _ => panic!("not parsed"),
    };
    match judge(Ok(parsed()), Vec::new()) {
        Source::Parsed(p) => assert_eq!(p.specifiers, ["./a"]),
        _ => panic!("not parsed"),
    }
    let recorded = vec!["first".to_string(), "second".to_string()];
    assert!(matches!(judge(Ok(parsed()), recorded.clone()), Source::Rejected(m) if m == "first"));
    assert!(matches!(judge(Err("stopped".to_string()), recorded), Source::Rejected(m) if m == "stopped"));
    assert!(matches!(judge(Err("stopped".to_string()), Vec::new()), Source::Rejected(m) if m == "stopped"));
}
