//! The dependency graph of a tree of TypeScript files, and where each file of
//! such a graph is put in a tree of generated files.
//!
//! The library reads no file, asks no operating system and parses no text.
//! What it knows of the file system it is told, and so is what the parser
//! made of a file: the answers are recorded in a
//! [`typescript::snapshot::Snapshot`], and a function that lacks an answer
//! says which one. So every function is a function of its arguments, and its
//! contract says which.
//!
//! - [`typescript::dependencies`] resolves one specifier: `find`.
//! - [`typescript`] loads the graph of an entry file: `load`, or a `Loader`
//!   that is told the answers as it asks for them.
//! - [`typescript::parser`] holds what the parser made of a file.
//! - [`typescript::graph`] says what the graph of a file system is, and
//!   [`typescript::laws`] and [`typescript::distance`] what follows from it.
//! - [`path`] and [`text`] are what the rest is written in.
//! - This module places the files of a graph in a tree of Rust files.

pub mod path;
pub mod text;
pub mod typescript;

use crate::path::{
    components, components_of, join, joined, render, render_range, rendered, same_component,
    Component, Part,
};
use crate::text::same_text;
use crate::typescript::graph::{somes, syntax, Graph};
use crate::typescript::snapshot::Knowledge;
use crate::typescript::parser::Parsed;
use crate::typescript::Load;
use swc_ecma_ast::{Decl, Module, ModuleItem, Stmt};
use vstd::prelude::*;

verus! {

/// The components that follow the first `node_modules` among `parts`: none
/// where no component has that name.
pub open spec fn after_node_modules(parts: Seq<Part>) -> Seq<Part>
    decreases parts.len(),
{
    if parts.len() == 0 {
        parts
    } else if parts[0] == Part::Normal("node_modules"@) {
        parts.skip(1)
    } else {
        after_node_modules(parts.skip(1))
    }
}

/// `parts` without the `.` and `..` that it starts with.
pub open spec fn without_leading_dots(parts: Seq<Part>) -> Seq<Part>
    decreases parts.len(),
{
    if parts.len() > 0 && (parts[0] is CurDir || parts[0] is ParentDir) {
        without_leading_dots(parts.skip(1))
    } else {
        parts
    }
}

/// How many components `a` and `b` start with in common.
pub open spec fn shared_len(a: Seq<Part>, b: Seq<Part>) -> nat
    decreases a.len(),
{
    if a.len() > 0 && b.len() > 0 && a[0] == b[0] {
        1 + shared_len(a.skip(1), b.skip(1))
    } else {
        0
    }
}

/// The path that goes `n` directories up.
pub open spec fn climb(n: nat) -> Seq<char>
    decreases n,
{
    if n == 0 {
        Seq::empty()
    } else {
        climb((n - 1) as nat) + "../"@
    }
}

/// The path that leads from the directory of the file `root` to `file`:
/// up, past the components of the directory that `file` does not share with
/// it, then down the components of `file` that `root` does not share.
pub open spec fn relative_path(root: Seq<char>, file: Seq<char>) -> Seq<char> {
    let from = components_of(root);
    let to = components_of(file);
    let shared = shared_len(from, to);
    let up = if from.len() - shared <= 1 {
        0
    } else {
        from.len() - shared - 1
    };
    joined(climb(up as nat), rendered(to.skip(shared as int)))
}

/// Where the file `file` of a graph with entry `root` is put below `dir`.
/// The entry becomes `lib.rs`. A file of a package keeps its path below
/// `node_modules`. Any other file keeps its path relative to the entry. A
/// path that would leave `dir` loses the components that lead out of it.
pub open spec fn destination(root: Seq<char>, file: Seq<char>, dir: Seq<char>) -> Seq<char> {
    let placed = if components_of(file) == components_of(root) {
        "lib.rs"@
    } else if after_node_modules(components_of(file)).len() == 0 {
        relative_path(root, file)
    } else {
        rendered(after_node_modules(components_of(file)))
    };
    joined(dir, rendered(without_leading_dots(components_of(placed))))
}

/// Takes the components up to and with the first `node_modules` away: all of
/// them where no component has that name.
pub fn consume_node_modules(components: &mut Vec<Component>)
    ensures
        final(components).deep_view() == after_node_modules(old(components).deep_view()),
{
    while components.len() > 0
        invariant
            after_node_modules(old(components).deep_view()) == after_node_modules(
                components.deep_view(),
            ),
        decreases components.len(),
    {
        let ghost before = components.deep_view();
        let first = components.remove(0);
        assert(components.deep_view() =~= before.skip(1));
        assert(before[0] == first@);
        if let Component::Normal(name) = first {
            if same_text(name.as_str(), "node_modules") {
                return ;
            }
        }
    }
}

/// Takes the `.` and `..` that `components` start with away.
pub fn eat_dots(components: Vec<Component>) -> (r: Vec<Component>)
    ensures
        r.deep_view() == without_leading_dots(components.deep_view()),
{
    let mut rest = components;
    loop
        invariant
            without_leading_dots(components.deep_view()) == without_leading_dots(rest.deep_view()),
        decreases rest.len(),
    {
        if rest.len() == 0 {
            return rest;
        }
        match rest[0] {
            Component::CurDir | Component::ParentDir => {},
            _ => {
                return rest;
            },
        }
        let ghost before = rest.deep_view();
        rest.remove(0);
        assert(rest.deep_view() =~= before.skip(1));
    }
}

/// The path that leads from the directory of the file `root` to `file`.
pub fn relative(root: &str, file: &str) -> (r: String)
    ensures
        r@ == relative_path(root@, file@),
{
    let from = components(root);
    let to = components(file);
    let ghost a = from.deep_view();
    let ghost b = to.deep_view();
    let mut shared: usize = 0;
    assert(a.skip(0) =~= a && b.skip(0) =~= b);
    while shared < from.len() && shared < to.len() && same_component(&from[shared], &to[shared])
        invariant
            shared <= from.len(),
            shared <= to.len(),
            a == from.deep_view(),
            b == to.deep_view(),
            shared_len(a, b) == shared + shared_len(a.skip(shared as int), b.skip(shared as int)),
        decreases from.len() - shared,
    {
        assert(a.skip(shared as int).skip(1) =~= a.skip(shared + 1));
        assert(b.skip(shared as int).skip(1) =~= b.skip(shared + 1));
        shared = shared + 1;
    }
    let up: usize = if from.len() - shared <= 1 {
        0
    } else {
        from.len() - shared - 1
    };
    let mut prefix = String::new();
    let mut i: usize = 0;
    while i < up
        invariant
            i <= up,
            prefix@ == climb(i as nat),
        decreases up - i,
    {
        prefix.append("../");
        i = i + 1;
    }
    assert(b.subrange(shared as int, to.len() as int) =~= b.skip(shared as int));
    let tail = render_range(&to, shared, to.len());
    join(prefix.as_str(), tail.as_str())
}

/// Whether two paths have the same components.
pub fn same_path(a: &str, b: &str) -> (r: bool)
    ensures
        r == (components_of(a@) == components_of(b@)),
{
    let x = components(a);
    let y = components(b);
    let ghost xs = x.deep_view();
    let ghost ys = y.deep_view();
    if x.len() != y.len() {
        assert(xs.len() != ys.len());
        return false;
    }
    let mut i: usize = 0;
    while i < x.len()
        invariant
            i <= x.len(),
            x.len() == y.len(),
            xs == x.deep_view(),
            ys == y.deep_view(),
            xs == components_of(a@),
            ys == components_of(b@),
            forall|j: int| 0 <= j < i ==> xs[j] == ys[j],
        decreases x.len() - i,
    {
        if !same_component(&x[i], &y[i]) {
            assert(xs[i as int] != ys[i as int]);
            return false;
        }
        i = i + 1;
    }
    assert(xs =~= ys);
    true
}

/// Where the file `file` of a graph with entry `root` is put below `dir`.
pub fn place(root: &str, file: &str, dir: &str) -> (r: String)
    ensures
        r@ == destination(root@, file@, dir@),
{
    let placed = if same_path(file, root) {
        String::from_str("lib.rs")
    } else {
        let mut tail = components(file);
        consume_node_modules(&mut tail);
        if tail.len() == 0 {
            relative(root, file)
        } else {
            render(&tail)
        }
    };
    let kept = eat_dots(components(placed.as_str()));
    join(dir, render(&kept).as_str())
}

/// Whether no two of `files` are the same file: no two have the same
/// components.
pub open spec fn no_file_twice(files: Seq<Seq<char>>) -> bool {
    forall|i: int, j: int|
        0 <= i < j < files.len() ==> components_of(#[trigger] files[i]) != components_of(
            #[trigger] files[j],
        )
}

/// Whether no two of `files` are the same file.
pub fn is_without_repeats(files: &Vec<String>) -> (r: bool)
    ensures
        r == no_file_twice(files.deep_view()),
{
    let ghost all = files.deep_view();
    let mut j: usize = 0;
    while j < files.len()
        invariant
            j <= files.len(),
            all == files.deep_view(),
            forall|a: int, b: int|
                0 <= a < b < j ==> components_of(#[trigger] all[a]) != components_of(
                    #[trigger] all[b],
                ),
        decreases files.len() - j,
    {
        let mut i: usize = 0;
        while i < j
            invariant
                i <= j < files.len(),
                all == files.deep_view(),
                forall|a: int|
                    0 <= a < i ==> components_of(#[trigger] all[a]) != components_of(
                        all[j as int],
                    ),
            decreases j - i,
        {
            if same_path(files[i].as_str(), files[j].as_str()) {
                assert(components_of(all[i as int]) == components_of(all[j as int]));
                return false;
            }
            i = i + 1;
        }
        j = j + 1;
    }
    true
}

/// Where each of `files`, of a graph with entry `root`, is put below `dir`:
/// for each file, in the order of `files`, the file and its place. No file
/// may stand in `files` twice.
pub fn destinations(root: &str, files: &Vec<String>, dir: &str) -> (r: Vec<(String, String)>)
    requires
        no_file_twice(files.deep_view()),
    ensures
        r.len() == files.len(),
        forall|i: int|
            0 <= i < files.len() ==> #[trigger] r[i].0@ == files[i]@ && r[i].1@ == destination(
                root@,
                files[i]@,
                dir@,
            ),
{
    let mut out: Vec<(String, String)> = Vec::new();
    let mut i: usize = 0;
    while i < files.len()
        invariant
            i <= files.len(),
            out.len() == i,
            forall|j: int|
                0 <= j < i ==> #[trigger] out[j].0@ == files[j]@ && out[j].1@ == destination(
                    root@,
                    files[j]@,
                    dir@,
                ),
        decreases files.len() - i,
    {
        let to = place(root, files[i].as_str(), dir);
        let file = files[i].clone();
        let ghost before = out@;
        out.push((file, to));
        assert(forall|j: int| 0 <= j < i ==> out[j] == before[j]);
        i = i + 1;
    }
    out
}

/// A Rust source file that is to be written: the functions that it declares,
/// in order. Each of them is declared private, without parameters and with an
/// empty body.
#[derive(Clone, Debug, PartialEq, Eq)]
pub struct RustFile {
    /// The names of the functions.
    pub functions: Vec<String>,
}

impl View for RustFile {
    type V = Seq<Seq<char>>;

    open spec fn view(&self) -> Seq<Seq<char>> {
        self.functions.deep_view()
    }
}

impl DeepView for RustFile {
    type V = Seq<Seq<char>>;

    open spec fn deep_view(&self) -> Seq<Seq<char>> {
        self@
    }
}

/// For each top-level item of the module `ast`, in order: the name of the
/// function that it declares, or `None` where it is no function declaration.
pub uninterp spec fn declared_functions(ast: Module) -> Seq<Option<Seq<char>>>;

/// Reads the field `body` of a `swc_ecma_ast::Module`.
///
/// Trusted: the result has one element for each item of the body, in order,
/// which is what `declared_functions` names: the identifier of a statement
/// that is a function declaration, and `None` for any other item.
#[verifier::external_body]
fn function_of_each_item(ast: &Module) -> (r: Vec<Option<String>>)
    ensures
        r.deep_view() == declared_functions(*ast),
{
    ast.body.iter().map(|item| match item {
        ModuleItem::Stmt(Stmt::Decl(Decl::Fn(f))) => Some(f.ident.sym.to_string()),
        _ => None,
    }).collect()
}

/// The Rust file that the module `parsed` becomes: one function for each
/// function that the module declares at its top level, under the same name.
pub fn tmp(parsed: &Parsed) -> (r: RustFile)
    ensures
        r@ == somes(declared_functions(parsed.ast)),
{
    let items = function_of_each_item(&parsed.ast);
    let ghost all = items.deep_view();
    let mut functions: Vec<String> = Vec::new();
    let mut i: usize = 0;
    assert(all.take(0) =~= Seq::empty());
    assert(functions.deep_view() =~= somes(all.take(0)));
    while i < items.len()
        invariant
            i <= items.len(),
            all == items.deep_view(),
            functions.deep_view() == somes(all.take(i as int)),
        decreases items.len() - i,
    {
        assert(all.take(i + 1).drop_last() =~= all.take(i as int));
        assert(all.take(i + 1).last() == items[i as int].deep_view());
        let ghost before = functions.deep_view();
        if let Some(name) = &items[i] {
            functions.push(name.clone());
            assert(functions.deep_view() =~= before.push(name@));
        }
        i = i + 1;
    }
    assert(all.take(items.len() as int) =~= all);
    RustFile { functions }
}

/// The Rust files that the graph `g` of the file system `k` becomes below
/// `dir`, each with the path where it is put. A graph that holds a single
/// file, of which `k` has the syntax tree, becomes one Rust file; any other
/// graph becomes none.
pub open spec fn converted(g: Graph, k: Knowledge, dir: Seq<char>) -> Seq<
    (Seq<char>, Seq<Seq<char>>),
> {
    if g.nodes.len() == 1 && syntax(k, g.nodes[0].path) is Some {
        seq![
            (
                destination(g.root, g.nodes[0].path, dir),
                somes(declared_functions(syntax(k, g.nodes[0].path)->0)),
            ),
        ]
    } else {
        Seq::empty()
    }
}

/// The Rust files that the graph `ts` becomes below `dir`, each with the path
/// where it is put.
pub fn convert(ts: &Load, dir: &str) -> (r: Vec<(String, RustFile)>)
    ensures
        r.deep_view() == converted(ts@, ts.knowledge(), dir@),
{
    let mut out: Vec<(String, RustFile)> = Vec::new();
    if ts.entries.len() != 1 {
        assert(out.deep_view() =~= Seq::empty());
        return out;
    }
    assert(ts@.nodes[0].path == ts.entries[0].path@);
    match ts.parsed(ts.entries[0].path.as_str()) {
        Some(parsed) => {
            let to = place(ts.root.as_str(), ts.entries[0].path.as_str(), dir);
            let file = tmp(parsed);
            out.push((to, file));
            assert(out.deep_view() =~= seq![(to@, file@)]);
        },
        None => {
            assert(out.deep_view() =~= Seq::empty());
        },
    }
    out
}

} // verus!
