//! The order of a graph and the distance from its entry: a file never stands
//! before one that is nearer to the entry.

use crate::typescript::graph::{
    describes, distinct, firsts, found, imports, is_chain, is_graph_of, paths_of,
    Graph, Node,
};
use crate::typescript::laws::{
    finder, firsts_holds, firsts_of_prefix, found_holds, found_of_prefix, place_of_child,
};
use crate::typescript::snapshot::Knowledge;
use vstd::prelude::*;

verus! {

/// Whether the file `to` can be reached from the file `root` by following at
/// most `d` imports.
pub open spec fn reaches_within(k: Knowledge, root: Seq<char>, to: Seq<char>, d: nat) -> bool {
    exists|chain: Seq<Seq<char>>| #[trigger]
        is_chain(k, chain) && chain[0] == root && chain.last() == to && chain.len() <= d + 1
}

/// The place of the first of `nodes`, from the place `from` on, that imports
/// the file `x`: the number of nodes where none does.
spec fn importer(nodes: Seq<Node>, x: Seq<char>, from: int) -> int
    decreases nodes.len() - from,
{
    if from < 0 || from >= nodes.len() {
        nodes.len() as int
    } else if nodes[from].children.contains(Some(x)) {
        from
    } else {
        importer(nodes, x, from + 1)
    }
}

/// `importer` finds the first node that imports `x`.
proof fn importer_is_first(nodes: Seq<Node>, x: Seq<char>, from: int, j: int)
    requires
        0 <= from <= j < nodes.len(),
        nodes[j].children.contains(Some(x)),
    ensures
        from <= importer(nodes, x, from) <= j,
        nodes[importer(nodes, x, from)].children.contains(Some(x)),
    decreases j - from,
{
    if !nodes[from].children.contains(Some(x)) {
        importer_is_first(nodes, x, from + 1, j);
    }
}

/// No node before the one that `importer` finds imports `x`.
proof fn importer_is_least(nodes: Seq<Node>, x: Seq<char>, from: int, t: int)
    requires
        0 <= from <= t < nodes.len(),
        nodes[t].children.contains(Some(x)),
    ensures
        importer(nodes, x, from) <= t,
    decreases t - from,
{
    if !nodes[from].children.contains(Some(x)) {
        importer_is_least(nodes, x, from + 1, t);
    }
}

/// How many imports lead to the file at the place `i` of `nodes`, going
/// from each file back to the first that imports it.
spec fn depth(nodes: Seq<Node>, i: int) -> nat
    decreases i,
{
    if i <= 0 || i >= nodes.len() {
        0
    } else {
        let p = importer(nodes, nodes[i].path, 0);
        if 0 <= p < i {
            depth(nodes, p) + 1
        } else {
            0
        }
    }
}

/// Every file of a graph but the entry has a first importer, which comes
/// before it.
proof fn importer_comes_before(g: Graph, k: Knowledge, root: Seq<char>, i: int)
    requires
        is_graph_of(g, k, root),
        0 < i < g.nodes.len(),
    ensures
        0 <= importer(g.nodes, g.nodes[i].path, 0) < i,
        g.nodes[importer(g.nodes, g.nodes[i].path, 0)].children.contains(Some(g.nodes[i].path)),
        depth(g.nodes, i) == depth(g.nodes, importer(g.nodes, g.nodes[i].path, 0)) + 1,
{
    let j = finder(g, k, root, i);
    importer_is_first(g.nodes, g.nodes[i].path, 0, j);
}

/// The files of a graph are distinct, and the entry is the first.
proof fn places_differ(g: Graph, k: Knowledge, root: Seq<char>, i: int, j: int)
    requires
        is_graph_of(g, k, root),
        0 <= i < g.nodes.len(),
        0 <= j < g.nodes.len(),
        g.nodes[i].path == g.nodes[j].path,
    ensures
        i == j,
        paths_of(g.nodes) == firsts(seq![root] + found(g.nodes)),
        g.nodes[0].path == root,
{
}

/// In a list of distinct files that stand in the order in which they are
/// first imported, a file that stands before one that the file at `p`
/// imports is first imported at `p` or before.
proof fn first_importers_keep_order(nodes: Seq<Node>, root: Seq<char>, i: int, j: int, p: int)
    requires
        distinct(nodes),
        nodes.len() > 0,
        nodes[0].path == root,
        paths_of(nodes) == firsts(seq![root] + found(nodes)),
        0 < i < j < nodes.len(),
        0 <= p < j,
        nodes[p].children.contains(Some(nodes[j].path)),
    ensures
        importer(nodes, nodes[i].path, 0) <= p,
{
    let x = nodes[i].path;
    let y = nodes[j].path;
    if importer(nodes, x, 0) > p {
        let before = nodes.take(p + 1);
        let part = seq![root] + found(before);
        let all = seq![root] + found(nodes);
        found_of_prefix(nodes, p + 1);
        assert(part =~= all.take(part.len() as int));
        firsts_of_prefix(all, part.len() as int);
        // `y` is among the first occurrences of `part`, at its own place.
        assert(before[p].children.contains(Some(y)));
        found_holds(before, y);
        let at = choose|at: int| 0 <= at < found(before).len() && found(before)[at] == y;
        assert(part[at + 1] == y);
        firsts_holds(part, y);
        let t = choose|t: int| 0 <= t < firsts(part).len() && firsts(part)[t] == y;
        assert(firsts(part)[t] == firsts(all).subrange(0, firsts(part).len() as int)[t]);
        assert(paths_of(nodes)[t] == nodes[t].path);
        assert(t == j);
        // So `x`, which stands before `y`, is among them too.
        assert(firsts(part)[i] == firsts(all).subrange(0, firsts(part).len() as int)[i]);
        assert(paths_of(nodes)[i] == x);
        assert(firsts(part).contains(x));
        firsts_holds(part, x);
        let u = choose|u: int| 0 <= u < part.len() && part[u] == x;
        if u == 0 {
            assert(nodes[0].path == nodes[i].path);
        } else {
            assert(found(before)[u - 1] == x);
            found_holds(before, x);
            let w = choose|w: int|
                0 <= w < before.len() && #[trigger] before[w].children.contains(Some(x));
            assert(nodes[w].children.contains(Some(x)));
            importer_is_least(nodes, x, 0, w);
        }
    }
}

/// Of two files of a graph, the one that comes first has the first importer
/// that comes first.
proof fn importers_keep_order(g: Graph, k: Knowledge, root: Seq<char>, i: int, j: int)
    requires
        is_graph_of(g, k, root),
        0 < i < j < g.nodes.len(),
    ensures
        importer(g.nodes, g.nodes[i].path, 0) <= importer(g.nodes, g.nodes[j].path, 0),
{
    importer_comes_before(g, k, root, j);
    first_importers_keep_order(g.nodes, root, i, j, importer(g.nodes, g.nodes[j].path, 0));
}

/// A file of a graph is no deeper than a file that comes after it.
proof fn depth_keeps_order(g: Graph, k: Knowledge, root: Seq<char>, i: int, j: int)
    requires
        is_graph_of(g, k, root),
        0 <= i <= j < g.nodes.len(),
    ensures
        depth(g.nodes, i) <= depth(g.nodes, j),
    decreases j,
{
    if 0 < i && i < j {
        importer_comes_before(g, k, root, i);
        importer_comes_before(g, k, root, j);
        importers_keep_order(g, k, root, i, j);
        depth_keeps_order(
            g,
            k,
            root,
            importer(g.nodes, g.nodes[i].path, 0),
            importer(g.nodes, g.nodes[j].path, 0),
        );
    }
}

/// A file of a graph is as `k` says.
proof fn node_is_described(g: Graph, k: Knowledge, root: Seq<char>, i: int)
    requires
        is_graph_of(g, k, root),
        0 <= i < g.nodes.len(),
    ensures
        describes(k, g.nodes[i]),
        i == 0 ==> g.nodes[i].path == root,
{
}

/// A file of a graph can be reached by as many imports as it is deep.
proof fn depth_is_enough(g: Graph, k: Knowledge, root: Seq<char>, i: int)
    requires
        is_graph_of(g, k, root),
        0 <= i < g.nodes.len(),
    ensures
        reaches_within(k, root, g.nodes[i].path, depth(g.nodes, i)),
    decreases i,
{
    if i == 0 {
        node_is_described(g, k, root, 0);
        let chain = seq![root];
        assert(is_chain(k, chain) && chain[0] == root && chain.last() == g.nodes[0].path
            && chain.len() <= 1);
    } else {
        importer_comes_before(g, k, root, i);
        let p = importer(g.nodes, g.nodes[i].path, 0);
        depth_is_enough(g, k, root, p);
        node_is_described(g, k, root, p);
        let chain = choose|chain: Seq<Seq<char>>| #[trigger]
            is_chain(k, chain) && chain[0] == root && chain.last() == g.nodes[p].path
                && chain.len() <= depth(g.nodes, p) + 1;
        let longer = chain.push(g.nodes[i].path);
        assert(imports(k, g.nodes[p].path, g.nodes[i].path));
        assert forall|t: int| 0 <= t < longer.len() - 1 implies imports(
            k,
            #[trigger] longer[t],
            longer[t + 1],
        ) by {
            if t < chain.len() - 1 {
                assert(imports(k, chain[t], chain[t + 1]));
            }
        }
        assert(is_chain(k, longer) && longer[0] == root && longer.last() == g.nodes[i].path
            && longer.len() <= depth(g.nodes, i) + 1);
    }
}

/// The place of the file that stands at the place `m` of a chain from the
/// entry: it is no deeper than `m`.
proof fn chain_is_deep_enough(
    g: Graph,
    k: Knowledge,
    root: Seq<char>,
    chain: Seq<Seq<char>>,
    m: int,
) -> (i: int)
    requires
        is_graph_of(g, k, root),
        is_chain(k, chain),
        chain[0] == root,
        0 <= m < chain.len(),
    ensures
        0 <= i < g.nodes.len(),
        g.nodes[i].path == chain[m],
        depth(g.nodes, i) <= m,
    decreases m,
{
    if m == 0 {
        node_is_described(g, k, root, 0);
        0
    } else {
        let y = chain_is_deep_enough(g, k, root, chain, m - 1);
        node_is_described(g, k, root, y);
        assert(imports(k, chain[m - 1], chain[m]));
        assert(g.nodes[y].children.contains(Some(chain[m])));
        let i = place_of_child(g, k, root, y, chain[m]);
        if i > 0 {
            importer_comes_before(g, k, root, i);
            importer_is_least(g.nodes, chain[m], 0, y);
            depth_keeps_order(g, k, root, importer(g.nodes, chain[m], 0), y);
        }
        i
    }
}

/// The files of a graph stand in the order of their distance from the
/// entry: a file that can be reached by following `d` imports or fewer
/// stands after no file that cannot.
pub proof fn graph_is_breadth_first(
    g: Graph,
    k: Knowledge,
    root: Seq<char>,
    i: int,
    j: int,
    d: nat,
)
    requires
        is_graph_of(g, k, root),
        0 <= i <= j < g.nodes.len(),
        reaches_within(k, root, g.nodes[j].path, d),
    ensures
        reaches_within(k, root, g.nodes[i].path, d),
{
    let chain = choose|chain: Seq<Seq<char>>| #[trigger]
        is_chain(k, chain) && chain[0] == root && chain.last() == g.nodes[j].path && chain.len()
            <= d + 1;
    let at = chain_is_deep_enough(g, k, root, chain, chain.len() - 1);
    places_differ(g, k, root, at, j);
    depth_keeps_order(g, k, root, i, j);
    depth_is_enough(g, k, root, i);
    let short = choose|short: Seq<Seq<char>>| #[trigger]
        is_chain(k, short) && short[0] == root && short.last() == g.nodes[i].path && short.len()
            <= depth(g.nodes, i) + 1;
    assert(is_chain(k, short) && short[0] == root && short.last() == g.nodes[i].path
        && short.len() <= d + 1);
}

} // verus!
