use betterty::typescript::parser::{Parsed, Source};
use betterty::typescript::snapshot::Snapshot;
use betterty::typescript::{load, Load, Progress};
use betterty::{convert, tmp, RustFile};
use swc_common::comments::SingleThreadedComments;
use swc_common::sync::Lrc;
use swc_common::{FileName, SourceMap};
use swc_ecma_parser::{Parser, Syntax, TsConfig};

fn tree(text: &str, specifiers: &[&str]) -> Source {
    let source_map: Lrc<SourceMap> = Default::default();
    let file = source_map.new_source_file(FileName::Anon, text.to_string());
    let comments = SingleThreadedComments::default();
    let config = TsConfig { decorators: true, no_early_errors: true, ..Default::default() };
    let mut parser = Parser::new(Syntax::Typescript(config), (&*file).into(), Some(&comments));
    let ast = parser.parse_module().unwrap();
    let specifiers = specifiers.iter().map(|s| s.to_string()).collect();
    Source::Parsed(Parsed { ast, source_map, comments, specifiers })
}

fn loaded(path: &str, source: &str) -> Load {
    let mut fs = Snapshot::new();
    fs.record_source(path, tree(source, &[]));
    fs.seal();
    match load(fs, path) {
        Progress::Finished(load) => load,
        _ => panic!("the load did not finish"),
    }
}

#[test]
fn can_convert_blank() {
    let p = "/tmp/betterty/index.ts";
    let loaded = loaded(p, "");
    let rs = convert(&loaded, "/");
    assert_eq!(rs, [("/lib.rs".to_string(), RustFile { functions: Vec::new() })]);
}

#[test]
fn can_convert_function() {
    let p = "/tmp/betterty/index.ts";
    let loaded = loaded(p, r#"function foo(){}"#);
    let rs = convert(&loaded, "/");
    assert_eq!(rs, [("/lib.rs".to_string(), RustFile { functions: vec!["foo".to_string()] })]);
}

#[test]
fn can_convert_basic() {
    let root = "/tmp/betterty/can_convert_basic/src/client/events.ts";
    let loaded = loaded(root, "export const Events = { Page: { Close: 'close' } };");
    let result = convert(&loaded, "/");
    assert_eq!(result.len(), 1);
}

#[test]
fn only_top_level_function_declarations_count() {
    let source = "function a(){ function inner(){} }\nconst b = function named(){};\nclass C { m(){} }\nexport function e(){}\nfunction z(x: number): number { return x; }\nlet f = () => {};";
    let loaded = loaded("/p/index.ts", source);
    assert_eq!(
        tmp(loaded.parsed("/p/index.ts").unwrap()),
        RustFile { functions: vec!["a".to_string(), "z".to_string()] }
    );
}

#[test]
fn graphs_of_several_files_are_not_converted() {
    let mut fs = Snapshot::new();
    fs.record_source("/p/a.ts", tree("import './b';", &["./b"]));
    fs.record_source("/p/b.ts", tree("", &[]));
    fs.record_path("/p/./b.ts", Some("/p/b.ts".to_string()));
    fs.seal();
    match load(fs, "/p/a.ts") {
        Progress::Finished(load) => assert_eq!(convert(&load, "/out"), []),
        _ => panic!("the load did not finish"),
    }
}
