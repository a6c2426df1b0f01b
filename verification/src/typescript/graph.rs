//! The import graph that a state of knowledge describes, and what it means
//! for a list of files to be that graph.

use crate::typescript::dependencies::{resolution_stands, resolve, Outcome};
use crate::typescript::parser::Reading;
use crate::typescript::snapshot::{Knowledge, Query};
use swc_ecma_ast::Module;
use vstd::prelude::*;

verus! {

/// One file of a graph, as the contracts speak of it.
pub struct Node {
    /// The canonical path of the file.
    pub path: Seq<char>,
    /// The specifiers that the file holds, in source order.
    pub specifiers: Seq<Seq<char>>,
    /// For each specifier, the file that it names, or `None`.
    pub children: Seq<Option<Seq<char>>>,
}

/// A graph, as the contracts speak of it: the entry file and, in the order in
/// which they were visited, the files.
pub struct Graph {
    /// The path of the entry file.
    pub root: Seq<char>,
    /// The files.
    pub nodes: Seq<Node>,
}

/// The specifiers of the file `path`: `None` where it is not known what
/// became of the file, where it could not be read, and where the parser
/// rejected it.
pub open spec fn listing(k: Knowledge, path: Seq<char>) -> Option<Seq<Seq<char>>> {
    match k.source(path) {
        Some(Reading::Parsed { specifiers, .. }) => Some(specifiers),
        _ => None,
    }
}

/// The syntax tree of the file `path`: `None` where `listing` is.
pub open spec fn syntax(k: Knowledge, path: Seq<char>) -> Option<Module> {
    match k.source(path) {
        Some(Reading::Parsed { ast, .. }) => Some(ast),
        _ => None,
    }
}

/// The file that each of `specifiers` names in `file`, or, where `k` cannot
/// tell them all, what the first that it cannot tell waits for.
pub open spec fn edges(k: Knowledge, file: Seq<char>, specifiers: Seq<Seq<char>>) -> Result<
    Seq<Option<Seq<char>>>,
    Query,
>
    decreases specifiers.len(),
{
    if specifiers.len() == 0 {
        Ok(Seq::empty())
    } else {
        match edges(k, file, specifiers.drop_last()) {
            Err(need) => Err(need),
            Ok(before) => match resolve(k, file, specifiers.last()) {
                Outcome::Resolved(found) => Ok(before.push(found)),
                Outcome::Need(q) => Err(q),
            },
        }
    }
}

/// Whether `node` is what `k` says of the file at its path.
pub open spec fn describes(k: Knowledge, node: Node) -> bool {
    &&& listing(k, node.path) == Some(node.specifiers)
    &&& edges(k, node.path, node.specifiers) == Ok::<_, Query>(node.children)
}

/// Whether the file `from` holds a specifier that names the file `to`.
pub open spec fn imports(k: Knowledge, from: Seq<char>, to: Seq<char>) -> bool {
    &&& listing(k, from) matches Some(specifiers)
    &&& edges(k, from, specifiers) matches Ok(children)
    &&& children.contains(Some(to))
}

/// Whether each file of `chain` imports the next.
pub open spec fn is_chain(k: Knowledge, chain: Seq<Seq<char>>) -> bool {
    &&& chain.len() > 0
    &&& forall|i: int| 0 <= i < chain.len() - 1 ==> imports(k, #[trigger] chain[i], chain[i + 1])
}

/// Whether the file `to` can be reached from the file `root` by following
/// imports.
pub open spec fn reachable(k: Knowledge, root: Seq<char>, to: Seq<char>) -> bool {
    exists|chain: Seq<Seq<char>>| #[trigger]
        is_chain(k, chain) && chain[0] == root && chain.last() == to
}

/// Whether one of `nodes` is the file `path`.
pub open spec fn holds(nodes: Seq<Node>, path: Seq<char>) -> bool {
    exists|i: int| 0 <= i < nodes.len() && #[trigger] nodes[i].path == path
}

/// Whether one of the first `upto` of `nodes` imports the file `path`.
pub open spec fn found_by(nodes: Seq<Node>, upto: int, path: Seq<char>) -> bool {
    exists|j: int|
        0 <= j < upto && j < nodes.len() && #[trigger] nodes[j].children.contains(Some(path))
}

/// Whether no file occurs twice among `nodes`.
pub open spec fn distinct(nodes: Seq<Node>) -> bool {
    forall|i: int, j: int| 0 <= i < j < nodes.len() ==> nodes[i].path != nodes[j].path
}

/// Whether each of `nodes` has one child for each of its specifiers.
pub open spec fn aligned(nodes: Seq<Node>) -> bool {
    forall|i: int|
        0 <= i < nodes.len() ==> (#[trigger] nodes[i]).children.len() == nodes[i].specifiers.len()
}

/// The files among `children`, in order.
pub open spec fn somes(children: Seq<Option<Seq<char>>>) -> Seq<Seq<char>>
    decreases children.len(),
{
    if children.len() == 0 {
        Seq::empty()
    } else {
        match children.last() {
            Some(c) => somes(children.drop_last()).push(c),
            None => somes(children.drop_last()),
        }
    }
}

/// The paths of `nodes`, in order.
pub open spec fn paths_of(nodes: Seq<Node>) -> Seq<Seq<char>> {
    Seq::new(nodes.len(), |i: int| nodes[i].path)
}

/// The files that `nodes` import, in order: those of the first node, then
/// those of the second, and so on, each as often as it is imported.
pub open spec fn found(nodes: Seq<Node>) -> Seq<Seq<char>>
    decreases nodes.len(),
{
    if nodes.len() == 0 {
        Seq::empty()
    } else {
        found(nodes.drop_last()) + somes(nodes.last().children)
    }
}

/// `paths` without what occurred before: of each path, the first occurrence.
pub open spec fn firsts(paths: Seq<Seq<char>>) -> Seq<Seq<char>>
    decreases paths.len(),
{
    if paths.len() == 0 {
        Seq::empty()
    } else {
        let before = firsts(paths.drop_last());
        if before.contains(paths.last()) {
            before
        } else {
            before.push(paths.last())
        }
    }
}

/// Whether `g` is the graph of the imports that `k` describes, from the
/// entry file `root`.
///
/// The entry comes first, no file occurs twice, each file is as `k` says,
/// with one child for each specifier, a file that one of them imports is
/// there, and each but the entry is imported by one that comes before it.
/// The files stand in the order in which a breadth-first walk finds them:
/// their paths are the entry and then what each file in turn imports, every
/// path where it occurs first.
pub open spec fn is_graph_of(g: Graph, k: Knowledge, root: Seq<char>) -> bool {
    &&& g.root == root
    &&& g.nodes.len() > 0
    &&& g.nodes[0].path == root
    &&& distinct(g.nodes)
    &&& aligned(g.nodes)
    &&& forall|i: int| 0 <= i < g.nodes.len() ==> describes(k, #[trigger] g.nodes[i])
    &&& forall|i: int, c: Seq<char>|
        0 <= i < g.nodes.len() && #[trigger] g.nodes[i].children.contains(Some(c)) ==> holds(
            g.nodes,
            c,
        )
    &&& forall|i: int| 0 < i < g.nodes.len() ==> found_by(g.nodes, i, #[trigger] g.nodes[i].path)
    &&& paths_of(g.nodes) == firsts(seq![root] + found(g.nodes))
}

/// Where the first of `specifiers` cannot be told, none of the list can, and
/// it waits for the same.
pub proof fn edges_stop(k: Knowledge, file: Seq<char>, specifiers: Seq<Seq<char>>, upto: int)
    requires
        0 <= upto <= specifiers.len(),
        edges(k, file, specifiers.take(upto)) is Err,
    ensures
        edges(k, file, specifiers) == edges(k, file, specifiers.take(upto)),
    decreases specifiers.len() - upto,
{
    if upto < specifiers.len() {
        assert(specifiers.take(upto + 1).drop_last() =~= specifiers.take(upto));
        edges_stop(k, file, specifiers, upto + 1);
    } else {
        assert(specifiers.take(upto) =~= specifiers);
    }
}

/// The files that imports name are as many as the specifiers.
pub proof fn edges_are_aligned(k: Knowledge, file: Seq<char>, specifiers: Seq<Seq<char>>)
    ensures
        edges(k, file, specifiers) matches Ok(children) ==> {
            &&& children.len() == specifiers.len()
            &&& forall|i: int|
                0 <= i < specifiers.len() ==> resolve(k, file, specifiers[i]) == Outcome::Resolved(
                    #[trigger] children[i],
                )
        },
    decreases specifiers.len(),
{
    if specifiers.len() > 0 {
        edges_are_aligned(k, file, specifiers.drop_last());
    }
}

/// Imports that are all resolved stay so, and to the same files, whatever
/// more is learnt of the file system.
pub proof fn edges_stand(k: Knowledge, more: Knowledge, file: Seq<char>, specifiers: Seq<Seq<char>>)
    requires
        more.extends(k),
        edges(k, file, specifiers) is Ok,
    ensures
        edges(more, file, specifiers) == edges(k, file, specifiers),
    decreases specifiers.len(),
{
    if specifiers.len() > 0 {
        edges_stand(k, more, file, specifiers.drop_last());
        resolution_stands(k, more, file, specifiers.last());
    }
}

/// What is known of a file stays so, whatever more is learnt of the file
/// system.
pub proof fn description_stands(k: Knowledge, more: Knowledge, node: Node)
    requires
        more.extends(k),
        describes(k, node),
    ensures
        describes(more, node),
{
    assert(k.source(node.path) is Some);
    edges_stand(k, more, node.path, node.specifiers);
}

} // verus!
