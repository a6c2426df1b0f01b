//! What holds of every graph that a load hands out.

use crate::typescript::dependencies::{resolve, Outcome};
use crate::typescript::graph::{
    describes, description_stands, distinct, edges, edges_are_aligned, firsts, found, found_by,
    holds, imports, is_chain, is_graph_of, listing, paths_of, reachable, somes, Graph, Node,
};
use crate::typescript::parser::Reading;
use crate::typescript::snapshot::{Knowledge, Query};
use crate::typescript::traversal::{
    consistent, queue_is_reachable, rests_at, somes_holds, step_is_reachable, walk_reopens, Walk,
};
use crate::typescript::{follows, stops_at, LoadError, Progress};
use vstd::prelude::*;

verus! {

/// The graph of a file system holds the files that can be reached from the
/// entry by following imports, each once, and no other file.
pub proof fn graph_is_what_is_reachable(g: Graph, k: Knowledge, root: Seq<char>)
    requires
        is_graph_of(g, k, root),
    ensures
        distinct(g.nodes),
        forall|f: Seq<char>| reachable(k, root, f) <==> holds(g.nodes, f),
{
    assert forall|f: Seq<char>| holds(g.nodes, f) implies reachable(k, root, f) by {
        let i = choose|i: int| 0 <= i < g.nodes.len() && #[trigger] g.nodes[i].path == f;
        graph_node_is_reachable(g, k, root, i);
    }
    assert forall|f: Seq<char>| reachable(k, root, f) implies holds(g.nodes, f) by {
        let chain = choose|chain: Seq<Seq<char>>| #[trigger]
            is_chain(k, chain) && chain[0] == root && chain.last() == f;
        chain_stays_inside(g, k, root, chain, chain.len() - 1);
    }
}

/// The graph of a file system stays its graph whatever more is learnt of the
/// file system.
pub proof fn graph_stands(g: Graph, k: Knowledge, more: Knowledge, root: Seq<char>)
    requires
        is_graph_of(g, k, root),
        more.extends(k),
    ensures
        is_graph_of(g, more, root),
{
    assert forall|i: int| 0 <= i < g.nodes.len() implies describes(more, #[trigger] g.nodes[i]) by {
        description_stands(k, more, g.nodes[i]);
    }
}

/// A graph whose entry imports nothing holds the entry alone.
pub proof fn graph_of_a_leaf(g: Graph, k: Knowledge, root: Seq<char>)
    requires
        is_graph_of(g, k, root),
        listing(k, root) == Some(Seq::<Seq<char>>::empty()),
    ensures
        g.nodes.len() == 1,
        g.nodes[0].path == root,
        g.nodes[0].children == Seq::<Option<Seq<char>>>::empty(),
{
    assert(describes(k, g.nodes[0]));
    assert(g.nodes[0].children =~= Seq::empty());
    if g.nodes.len() > 1 {
        assert(found_by(g.nodes, 1, g.nodes[1].path));
    }
}

/// In the graph of a file system, each file has one child for each of its
/// specifiers: the file that the specifier resolves to.
pub proof fn graph_is_aligned(g: Graph, k: Knowledge, root: Seq<char>)
    requires
        is_graph_of(g, k, root),
    ensures
        forall|i: int|
            0 <= i < g.nodes.len() ==> (#[trigger] g.nodes[i]).children.len()
                == g.nodes[i].specifiers.len(),
        forall|i: int, x: int|
            0 <= i < g.nodes.len() && 0 <= x < g.nodes[i].specifiers.len() ==> resolve(
                k,
                g.nodes[i].path,
                g.nodes[i].specifiers[x],
            ) == Outcome::Resolved(#[trigger] g.nodes[i].children[x]),
{
    assert forall|i: int, x: int|
        0 <= i < g.nodes.len() && 0 <= x < g.nodes[i].specifiers.len() implies resolve(
        k,
        g.nodes[i].path,
        g.nodes[i].specifiers[x],
    ) == Outcome::Resolved(#[trigger] g.nodes[i].children[x]) by {
        assert(describes(k, g.nodes[i]));
        edges_are_aligned(k, g.nodes[i].path, g.nodes[i].specifiers);
    }
}

/// Every file of a graph can be reached from the entry.
proof fn graph_node_is_reachable(g: Graph, k: Knowledge, root: Seq<char>, i: int)
    requires
        is_graph_of(g, k, root),
        0 <= i < g.nodes.len(),
    ensures
        reachable(k, root, g.nodes[i].path),
    decreases i,
{
    if i == 0 {
        let chain = seq![root];
        assert(is_chain(k, chain) && chain[0] == root && chain.last() == g.nodes[0].path);
    } else {
        assert(found_by(g.nodes, i, g.nodes[i].path));
        let j = choose|j: int|
            0 <= j < i && j < g.nodes.len() && #[trigger] g.nodes[j].children.contains(
                Some(g.nodes[i].path),
            );
        graph_node_is_reachable(g, k, root, j);
        assert(describes(k, g.nodes[j]));
        step_is_reachable(k, root, g.nodes[j].path, g.nodes[i].path);
    }
}

/// A chain of imports from the entry of a graph stays among its files.
proof fn chain_stays_inside(g: Graph, k: Knowledge, root: Seq<char>, chain: Seq<Seq<char>>, n: int)
    requires
        is_graph_of(g, k, root),
        is_chain(k, chain),
        chain[0] == root,
        0 <= n < chain.len(),
    ensures
        holds(g.nodes, chain[n]),
    decreases n,
{
    if n == 0 {
        assert(g.nodes[0].path == chain[0]);
    } else {
        chain_stays_inside(g, k, root, chain, n - 1);
        let i = choose|i: int| 0 <= i < g.nodes.len() && #[trigger] g.nodes[i].path == chain[n - 1];
        assert(describes(k, g.nodes[i]));
        assert(imports(k, chain[n - 1], chain[n]));
        assert(g.nodes[i].children.contains(Some(chain[n])));
    }
}

/// What `k` says of the file at a path, it says in one way.
proof fn node_by_path(k: Knowledge, a: Node, b: Node)
    requires
        describes(k, a),
        describes(k, b),
        a.path == b.path,
    ensures
        a == b,
{
}

/// `firsts` holds what `paths` holds.
pub proof fn firsts_holds(paths: Seq<Seq<char>>, x: Seq<char>)
    ensures
        firsts(paths).contains(x) <==> paths.contains(x),
    decreases paths.len(),
{
    if paths.len() > 0 {
        let before = paths.drop_last();
        firsts_holds(before, x);
        firsts_holds(before, paths.last());
        if paths.contains(x) {
            let i = choose|i: int| 0 <= i < paths.len() && paths[i] == x;
            if i < before.len() {
                assert(before[i] == x);
                let j = choose|j: int| 0 <= j < firsts(before).len() && firsts(before)[j] == x;
                assert(firsts(paths)[j] == x);
            } else if firsts(before).contains(x) {
            } else {
                assert(firsts(paths).last() == x);
            }
        }
        if firsts(paths).contains(x) {
            let j = choose|j: int| 0 <= j < firsts(paths).len() && firsts(paths)[j] == x;
            if j < firsts(before).len() {
                assert(firsts(before)[j] == x);
                let i = choose|i: int| 0 <= i < before.len() && before[i] == x;
                assert(paths[i] == x);
            } else {
                assert(paths[paths.len() - 1] == x);
            }
        }
    }
}

/// The first occurrences among the first `n` of `paths` come first among the
/// first occurrences of all of `paths`.
pub proof fn firsts_of_prefix(paths: Seq<Seq<char>>, n: int)
    requires
        0 <= n <= paths.len(),
    ensures
        firsts(paths.take(n)).is_prefix_of(firsts(paths)),
    decreases paths.len() - n,
{
    if n < paths.len() {
        firsts_of_prefix(paths, n + 1);
        assert(paths.take(n + 1).drop_last() =~= paths.take(n));
        let shorter = firsts(paths.take(n));
        let longer = firsts(paths.take(n + 1));
        assert(shorter.is_prefix_of(longer));
        assert(shorter =~= firsts(paths).subrange(0, shorter.len() as int)) by {
            assert forall|i: int| 0 <= i < shorter.len() implies shorter[i] == firsts(paths)[i] by {
                assert(shorter[i] == longer.subrange(0, shorter.len() as int)[i]);
                assert(longer[i] == firsts(paths).subrange(0, longer.len() as int)[i]);
            }
        }
    } else {
        assert(paths.take(n) =~= paths);
    }
}

/// What the first `n` of `nodes` import comes first among what all of them
/// import.
pub proof fn found_of_prefix(nodes: Seq<Node>, n: int)
    requires
        0 <= n <= nodes.len(),
    ensures
        found(nodes.take(n)).is_prefix_of(found(nodes)),
    decreases nodes.len() - n,
{
    if n < nodes.len() {
        found_of_prefix(nodes, n + 1);
        assert(nodes.take(n + 1).drop_last() =~= nodes.take(n));
        let shorter = found(nodes.take(n));
        let longer = found(nodes.take(n + 1));
        assert(shorter.is_prefix_of(longer));
        assert(shorter =~= found(nodes).subrange(0, shorter.len() as int)) by {
            assert forall|i: int| 0 <= i < shorter.len() implies shorter[i] == found(nodes)[i] by {
                assert(shorter[i] == longer.subrange(0, shorter.len() as int)[i]);
                assert(longer[i] == found(nodes).subrange(0, longer.len() as int)[i]);
            }
        }
    } else {
        assert(nodes.take(n) =~= nodes);
    }
}

/// What `nodes` import is what one of them imports.
pub proof fn found_holds(nodes: Seq<Node>, x: Seq<char>)
    ensures
        found(nodes).contains(x) <==> found_by(nodes, nodes.len() as int, x),
    decreases nodes.len(),
{
    if nodes.len() > 0 {
        let before = nodes.drop_last();
        let more = somes(nodes.last().children);
        found_holds(before, x);
        somes_holds(nodes.last().children, x);
        if found(nodes).contains(x) {
            let i = choose|i: int| 0 <= i < found(nodes).len() && found(nodes)[i] == x;
            if i < found(before).len() {
                assert(found(before)[i] == x);
                let j = choose|j: int|
                    0 <= j < before.len() && #[trigger] before[j].children.contains(Some(x));
                assert(nodes[j].children.contains(Some(x)));
            } else {
                assert(more[i - found(before).len()] == x);
                assert(nodes[nodes.len() - 1].children.contains(Some(x)));
            }
        }
        if found_by(nodes, nodes.len() as int, x) {
            let j = choose|j: int|
                0 <= j < nodes.len() && #[trigger] nodes[j].children.contains(Some(x));
            if j < before.len() {
                assert(before[j].children.contains(Some(x)));
                let i = choose|i: int| 0 <= i < found(before).len() && found(before)[i] == x;
                assert(found(nodes)[i] == x);
            } else {
                let i = choose|i: int| 0 <= i < more.len() && more[i] == x;
                assert(found(nodes)[found(before).len() + i] == x);
            }
        }
    }
}

/// The files that come before a file of a graph tell which file it is: the
/// first that they import and that is not among them.
#[verifier::rlimit(40)]
proof fn next_is_told(g: Graph, k: Knowledge, root: Seq<char>, m: int)
    requires
        is_graph_of(g, k, root),
        0 < m < g.nodes.len(),
    ensures
        firsts(seq![root] + found(g.nodes.take(m))).len() > m,
        firsts(seq![root] + found(g.nodes.take(m)))[m] == g.nodes[m].path,
{
    let all = seq![root] + found(g.nodes);
    let part = seq![root] + found(g.nodes.take(m));
    let x = g.nodes[m].path;
    found_of_prefix(g.nodes, m);
    assert(part =~= all.take(part.len() as int));
    firsts_of_prefix(all, part.len() as int);
    assert(found_by(g.nodes, m, x));
    let j = choose|j: int|
        0 <= j < m && j < g.nodes.len() && #[trigger] g.nodes[j].children.contains(Some(x));
    assert(g.nodes.take(m)[j].children.contains(Some(x)));
    found_holds(g.nodes.take(m), x);
    let i = choose|i: int|
        0 <= i < found(g.nodes.take(m)).len() && found(g.nodes.take(m))[i] == x;
    assert(part[i + 1] == x);
    firsts_holds(part, x);
    let at = choose|at: int| 0 <= at < firsts(part).len() && firsts(part)[at] == x;
    assert(firsts(part)[at] == firsts(all).subrange(0, firsts(part).len() as int)[at]);
    assert(paths_of(g.nodes)[at] == g.nodes[at].path);
    assert(at == m);
}

/// The path that stands at the place `m` of a graph, told from the files
/// before it.
spec fn told(root: Seq<char>, before: Seq<Node>, m: int) -> Seq<char> {
    if m == 0 {
        root
    } else {
        firsts(seq![root] + found(before))[m]
    }
}

/// Whether `a` and `b` are graphs of one file system and one entry.
#[verifier::opaque]
spec fn twins(a: Graph, b: Graph, k: Knowledge, root: Seq<char>) -> bool {
    is_graph_of(a, k, root) && is_graph_of(b, k, root)
}

/// A file of a graph is as `k` says, at the path that the files before it
/// tell.
proof fn node_is_told(g: Graph, k: Knowledge, root: Seq<char>, m: int)
    requires
        is_graph_of(g, k, root),
        0 <= m < g.nodes.len(),
    ensures
        describes(k, g.nodes[m]),
        g.nodes[m].path == told(root, g.nodes.take(m), m),
{
    if m > 0 {
        next_is_told(g, k, root, m);
    }
}

/// Two lists that agree on their first `m` elements and on the next agree on
/// their first `m + 1`.
proof fn one_more_agrees(a: Seq<Node>, b: Seq<Node>, m: int)
    requires
        0 <= m < a.len(),
        m < b.len(),
        a.take(m) == b.take(m),
        a[m] == b[m],
    ensures
        a.take(m + 1) == b.take(m + 1),
{
    assert(a.take(m + 1) =~= a.take(m).push(a[m]));
    assert(b.take(m + 1) =~= b.take(m).push(b[m]));
}

/// Two graphs of one file system and one entry agree on their first `n`
/// files.
#[verifier::rlimit(40)]
proof fn graphs_agree(a: Graph, b: Graph, k: Knowledge, root: Seq<char>, n: int)
    requires
        twins(a, b, k, root),
        0 <= n <= a.nodes.len(),
        n <= b.nodes.len(),
    ensures
        a.nodes.take(n) == b.nodes.take(n),
    decreases n,
{
    if n == 0 {
        assert(a.nodes.take(0) =~= b.nodes.take(0));
    } else {
        let m = n - 1;
        graphs_agree(a, b, k, root, m);
        assert(describes(k, a.nodes[m]) && describes(k, b.nodes[m]) && a.nodes[m].path
            == b.nodes[m].path) by {
            reveal(twins);
            node_is_told(a, k, root, m);
            node_is_told(b, k, root, m);
        }
        node_by_path(k, a.nodes[m], b.nodes[m]);
        one_more_agrees(a.nodes, b.nodes, m);
    }
}

/// The place of a file that imports the file at the place `n` of a graph and
/// comes before it.
pub proof fn finder(g: Graph, k: Knowledge, root: Seq<char>, n: int) -> (j: int)
    requires
        is_graph_of(g, k, root),
        0 < n < g.nodes.len(),
    ensures
        0 <= j < n,
        g.nodes[j].children.contains(Some(g.nodes[n].path)),
{
    assert(found_by(g.nodes, n, g.nodes[n].path));
    choose|j: int|
        0 <= j < n && j < g.nodes.len() && #[trigger] g.nodes[j].children.contains(
            Some(g.nodes[n].path),
        )
}

/// The place of a file that a file of a graph imports.
pub proof fn place_of_child(g: Graph, k: Knowledge, root: Seq<char>, j: int, x: Seq<char>) -> (i:
    int)
    requires
        is_graph_of(g, k, root),
        0 <= j < g.nodes.len(),
        g.nodes[j].children.contains(Some(x)),
    ensures
        0 <= i < g.nodes.len(),
        g.nodes[i].path == x,
{
    assert(holds(g.nodes, x));
    choose|i: int| 0 <= i < g.nodes.len() && #[trigger] g.nodes[i].path == x
}

/// A graph that starts with all the files of another graph of the same file
/// system ends with them.
#[verifier::rlimit(40)]
proof fn longer_is_equal(a: Graph, b: Graph, k: Knowledge, root: Seq<char>)
    requires
        twins(a, b, k, root),
        a.nodes.len() >= b.nodes.len(),
        a.nodes.take(b.nodes.len() as int) == b.nodes.take(b.nodes.len() as int),
    ensures
        a.nodes.len() == b.nodes.len(),
{
    let n = b.nodes.len() as int;
    if a.nodes.len() > n {
        assert(is_graph_of(a, k, root) && is_graph_of(b, k, root)) by {
            reveal(twins);
        }
        assert(n > 0) by {
            reveal(twins);
        }
        let x = a.nodes[n].path;
        let j = finder(a, k, root, n);
        assert(a.nodes[j] == a.nodes.take(n)[j]);
        assert(b.nodes[j] == b.nodes.take(n)[j]);
        let i = place_of_child(b, k, root, j, x);
        assert(a.nodes[i] == a.nodes.take(n)[i]);
        assert(b.nodes[i] == b.nodes.take(n)[i]);
        assert(a.nodes[i].path != a.nodes[n].path) by {
            reveal(twins);
        }
    }
}

/// No graph of a file system has more files than another.
proof fn graph_is_no_longer(a: Graph, b: Graph, k: Knowledge, root: Seq<char>)
    requires
        is_graph_of(a, k, root),
        is_graph_of(b, k, root),
    ensures
        a.nodes.len() <= b.nodes.len(),
{
    if a.nodes.len() > b.nodes.len() {
        assert(twins(a, b, k, root)) by {
            reveal(twins);
        }
        graphs_agree(a, b, k, root, b.nodes.len() as int);
        longer_is_equal(a, b, k, root);
    }
}

/// A file system and an entry have one graph: the same files, with the same
/// specifiers and children, in the same order.
pub proof fn graph_is_unique(a: Graph, b: Graph, k: Knowledge, root: Seq<char>)
    requires
        is_graph_of(a, k, root),
        is_graph_of(b, k, root),
    ensures
        a == b,
{
    graph_is_no_longer(a, b, k, root);
    graph_is_no_longer(b, a, k, root);
    assert(twins(a, b, k, root)) by {
        reveal(twins);
    }
    graphs_agree(a, b, k, root, a.nodes.len() as int);
    assert(a.nodes.take(a.nodes.len() as int) =~= a.nodes);
    assert(b.nodes.take(b.nodes.len() as int) =~= b.nodes);
}

/// Whether the file `path` can stand in a graph: the parser is known to have
/// taken it, and each of its imports is resolved.
pub open spec fn loadable(k: Knowledge, path: Seq<char>) -> bool {
    listing(k, path) is Some && edges(k, path, listing(k, path)->0) is Ok
}

/// The files of a walk that come before one of its files tell which file it
/// is.
#[verifier::rlimit(40)]
proof fn walk_next_is_told(k: Knowledge, w: Walk, m: int)
    requires
        consistent(k, w),
        0 < m < w.nodes.len(),
    ensures
        firsts(seq![w.root] + found(w.nodes.take(m))).len() > m,
        firsts(seq![w.root] + found(w.nodes.take(m)))[m] == w.nodes[m].path,
{
    reveal(consistent);
    let part = seq![w.root] + found(w.nodes.take(m));
    let taken = w.queue.take(w.handled());
    let x = w.nodes[m].path;
    found_of_prefix(w.nodes, m);
    assert(part =~= w.queue.take(part.len() as int));
    assert(paths_of(w.nodes)[m] == x);
    if part.len() <= w.handled() {
        assert(part =~= taken.take(part.len() as int));
        firsts_of_prefix(taken, part.len() as int);
        assert(found_by(w.nodes, m, x));
        let j = choose|j: int|
            0 <= j < m && j < w.nodes.len() && #[trigger] w.nodes[j].children.contains(Some(x));
        assert(w.nodes.take(m)[j].children.contains(Some(x)));
        found_holds(w.nodes.take(m), x);
        let i = choose|i: int|
            0 <= i < found(w.nodes.take(m)).len() && found(w.nodes.take(m))[i] == x;
        assert(part[i + 1] == x);
        firsts_holds(part, x);
        let at = choose|at: int| 0 <= at < firsts(part).len() && firsts(part)[at] == x;
        assert(firsts(part)[at] == firsts(taken).subrange(0, firsts(part).len() as int)[at]);
        assert(paths_of(w.nodes)[at] == w.nodes[at].path);
        assert(at == m);
    } else {
        assert(taken =~= part.take(w.handled()));
        firsts_of_prefix(part, w.handled());
        assert(firsts(taken)[m] == firsts(part).subrange(0, firsts(taken).len() as int)[m]);
    }
}

/// Whether `a` and `b` are sound walks from one entry.
#[verifier::opaque]
spec fn fellows(k: Knowledge, a: Walk, b: Walk) -> bool {
    consistent(k, a) && consistent(k, b) && a.root == b.root
}

/// A file of a walk is as `k` says, at the path that the files before it
/// tell.
proof fn walk_node_is_told(k: Knowledge, w: Walk, m: int)
    requires
        consistent(k, w),
        0 <= m < w.nodes.len(),
    ensures
        describes(k, w.nodes[m]),
        w.nodes[m].path == told(w.root, w.nodes.take(m), m),
{
    reveal(consistent);
    if m > 0 {
        walk_next_is_told(k, w, m);
    }
}

/// Two sound walks from one entry agree on their first `n` files.
#[verifier::rlimit(40)]
proof fn walks_agree(k: Knowledge, a: Walk, b: Walk, n: int)
    requires
        fellows(k, a, b),
        0 <= n <= a.nodes.len(),
        n <= b.nodes.len(),
    ensures
        a.nodes.take(n) == b.nodes.take(n),
    decreases n,
{
    if n == 0 {
        assert(a.nodes.take(0) =~= b.nodes.take(0));
    } else {
        let m = n - 1;
        walks_agree(k, a, b, m);
        assert(describes(k, a.nodes[m]) && describes(k, b.nodes[m]) && a.nodes[m].path
            == b.nodes[m].path) by {
            reveal(fellows);
            walk_node_is_told(k, a, m);
            walk_node_is_told(k, b, m);
        }
        node_by_path(k, a.nodes[m], b.nodes[m]);
        one_more_agrees(a.nodes, b.nodes, m);
    }
}

/// The file that a walk rests before is the first in its queue that it has
/// not visited.
proof fn rest_is_told(k: Knowledge, root: Seq<char>, w: Walk, path: Seq<char>)
    requires
        rests_at(k, root, w, path),
    ensures
        firsts(w.queue).len() > w.nodes.len(),
        firsts(w.queue)[w.nodes.len() as int] == path,
        w.queue == seq![root] + found(w.nodes),
{
    reveal(consistent);
    let taken = w.queue.take(w.head);
    let next = w.queue.take(w.head + 1);
    assert(next.drop_last() =~= taken);
    assert(next.last() == path);
    assert(!firsts(taken).contains(path)) by {
        if firsts(taken).contains(path) {
            let i = choose|i: int| 0 <= i < firsts(taken).len() && firsts(taken)[i] == path;
            assert(paths_of(w.nodes)[i] == w.nodes[i].path);
        }
    }
    assert(firsts(next) =~= firsts(taken).push(path));
    firsts_of_prefix(w.queue, w.head + 1);
    assert(firsts(next)[w.nodes.len() as int] == firsts(w.queue).subrange(
        0,
        firsts(next).len() as int,
    )[w.nodes.len() as int]);
}

/// Of two walks that rest before files which cannot stand in a graph, the
/// one with no more files than the other rests before the same file.
proof fn shorter_rest_agrees(
    k: Knowledge,
    root: Seq<char>,
    a: Walk,
    p: Seq<char>,
    b: Walk,
    q: Seq<char>,
)
    requires
        rests_at(k, root, a, p),
        rests_at(k, root, b, q),
        !loadable(k, p),
        a.nodes.len() <= b.nodes.len(),
    ensures
        p == q,
{
    reveal(consistent);
    let n = a.nodes.len() as int;
    assert(fellows(k, a, b)) by {
        reveal(fellows);
    }
    walks_agree(k, a, b, n);
    assert(a.nodes.take(n) =~= a.nodes);
    rest_is_told(k, root, a, p);
    if n < b.nodes.len() {
        walk_node_is_told(k, b, n);
        if n == 0 {
            assert(a.nodes =~= Seq::empty());
            assert(a.queue =~= seq![root]);
        }
        assert(b.nodes[n].path == p);
    } else {
        assert(b.nodes.take(n) =~= b.nodes);
        rest_is_told(k, root, b, q);
    }
}

/// A load rests, for want of a file that can stand in a graph, before one
/// file only.
pub proof fn rest_is_unique(k: Knowledge, root: Seq<char>, p: Seq<char>, q: Seq<char>)
    requires
        stops_at(k, root, p),
        stops_at(k, root, q),
        !loadable(k, p),
        !loadable(k, q),
    ensures
        p == q,
{
    let a = choose|a: Walk| rests_at(k, root, a, p);
    let b = choose|b: Walk| rests_at(k, root, b, q);
    if a.nodes.len() <= b.nodes.len() {
        shorter_rest_agrees(k, root, a, p, b, q);
    } else {
        shorter_rest_agrees(k, root, b, q, a, p);
    }
}

/// Where a file system has a graph, every file that a load comes to can
/// stand in it.
pub proof fn graph_has_no_rest(g: Graph, k: Knowledge, root: Seq<char>, p: Seq<char>)
    requires
        is_graph_of(g, k, root),
        stops_at(k, root, p),
    ensures
        loadable(k, p),
{
    reveal(consistent);
    let w = choose|w: Walk| rests_at(k, root, w, p);
    queue_is_reachable(k, w, w.head);
    graph_is_what_is_reachable(g, k, root);
    let i = choose|i: int| 0 <= i < g.nodes.len() && #[trigger] g.nodes[i].path == p;
    assert(describes(k, g.nodes[i]));
}

/// The file that an outcome other than a graph stops before.
spec fn halt(r: Progress) -> Seq<char> {
    match r {
        Progress::Finished(load) => load@.root,
        Progress::Failed(LoadError::Io(path)) => path@,
        Progress::Failed(LoadError::Parse(path, _)) => path@,
        Progress::Waiting(loader, request) => match request@ {
            Query::Source(path) => path,
            _ => loader@.pending->0.path,
        },
    }
}

/// An outcome other than a graph stops before a file that cannot stand in a
/// graph, and what the file system knows of that file tells the outcome.
proof fn halt_is_a_rest(r: Progress, k: Knowledge, root: Seq<char>)
    requires
        follows(r, k, root),
        !(r is Finished),
    ensures
        stops_at(k, root, halt(r)),
        !loadable(k, halt(r)),
        r matches Progress::Failed(LoadError::Io(_)) ==> k.source(halt(r)) == Some(
            Reading::Unreadable,
        ),
        r matches Progress::Failed(LoadError::Parse(_, message)) ==> k.source(halt(r)) == Some(
            Reading::Rejected(message@),
        ),
        r matches Progress::Waiting(_, request) ==> match request@ {
            Query::Source(_) => k.source(halt(r)) is None,
            q => listing(k, halt(r)) is Some && edges(k, halt(r), listing(k, halt(r))->0)
                == Err::<Seq<Option<Seq<char>>>, _>(q),
        },
{
    reveal(consistent);
    match r {
        Progress::Waiting(loader, request) => {
            match request@ {
                Query::Source(path) => {
                    assert(rests_at(k, root, loader@, path));
                },
                _ => {
                    walk_reopens(k, loader@);
                },
            }
        },
        _ => {},
    }
}

/// Whether `a` and `b` are the same outcome of a load: the same graph, the
/// same failure at the same file, or the same question.
pub open spec fn same_outcome(a: Progress, b: Progress) -> bool {
    match (a, b) {
        (Progress::Finished(x), Progress::Finished(y)) => x@ == y@,
        (Progress::Failed(LoadError::Io(p)), Progress::Failed(LoadError::Io(q))) => p@ == q@,
        (Progress::Failed(LoadError::Parse(p, m)), Progress::Failed(LoadError::Parse(q, n))) => p@
            == q@ && m@ == n@,
        (Progress::Waiting(_, r), Progress::Waiting(_, s)) => r@ == s@,
        _ => false,
    }
}

/// What is known of the file system tells how a load ends: two outcomes that
/// follow from the same knowledge and the same entry are the same.
pub proof fn load_is_determined(a: Progress, b: Progress, k: Knowledge, root: Seq<char>)
    requires
        follows(a, k, root),
        follows(b, k, root),
    ensures
        same_outcome(a, b),
{
    if a is Finished && b is Finished {
        graph_is_unique(a->Finished_0@, b->Finished_0@, k, root);
    } else if a is Finished {
        halt_is_a_rest(b, k, root);
        graph_has_no_rest(a->Finished_0@, k, root, halt(b));
    } else if b is Finished {
        halt_is_a_rest(a, k, root);
        graph_has_no_rest(b->Finished_0@, k, root, halt(a));
    } else {
        halt_is_a_rest(a, k, root);
        halt_is_a_rest(b, k, root);
        rest_is_unique(k, root, halt(a), halt(b));
    }
}

} // verus!
