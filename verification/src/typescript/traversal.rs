//! The states that a load goes through, and why each step keeps them sound.
//!
//! A load walks a queue of paths from front to back. Behind the front are the
//! paths it has dealt with, each of them a file of the graph so far. It may
//! have one file open: parsed, with its imports not all resolved yet.

use crate::typescript::dependencies::resolution_is_an_answer;
use crate::typescript::graph::{
    aligned, describes, description_stands, distinct, edges, edges_are_aligned, edges_stand,
    firsts, found, found_by, holds, imports, is_chain, is_graph_of, listing, paths_of, reachable,
    somes, Graph, Node,
};
use crate::typescript::snapshot::{targets, Knowledge, Query};
use vstd::prelude::*;

verus! {

/// `somes` holds what `children` holds.
pub proof fn somes_holds(children: Seq<Option<Seq<char>>>, c: Seq<char>)
    ensures
        somes(children).contains(c) <==> children.contains(Some(c)),
    decreases children.len(),
{
    if children.len() > 0 {
        let before = children.drop_last();
        somes_holds(before, c);
        if children.contains(Some(c)) {
            let i = choose|i: int| 0 <= i < children.len() && children[i] == Some(c);
            if i < children.len() - 1 {
                assert(before[i] == Some(c));
                let j = choose|j: int| 0 <= j < somes(before).len() && somes(before)[j] == c;
                assert(somes(children)[j] == c);
            } else {
                assert(somes(children).last() == c);
            }
        }
        if somes(children).contains(c) {
            let j = choose|j: int| 0 <= j < somes(children).len() && somes(children)[j] == c;
            if j < somes(before).len() {
                assert(somes(before)[j] == c);
                let i = choose|i: int| 0 <= i < before.len() && before[i] == Some(c);
                assert(children[i] == Some(c));
            } else {
                assert(children[children.len() - 1] == Some(c));
            }
        }
    }
}

/// The state of a load.
pub struct Walk {
    /// The path of the entry file.
    pub root: Seq<char>,
    /// The paths found so far, in the order in which they were found.
    pub queue: Seq<Seq<char>>,
    /// How many paths of the queue have been taken up.
    pub head: int,
    /// The files of the graph so far, in the order in which they were
    /// visited.
    pub nodes: Seq<Node>,
    /// The file that is open, with the imports resolved so far.
    pub pending: Option<Node>,
}

impl Walk {
    /// How many paths of the queue have been dealt with.
    pub open spec fn handled(self) -> int {
        if self.pending is Some {
            self.head - 1
        } else {
            self.head
        }
    }
}

/// Whether the walk `w` is sound for what `k` knows.
#[verifier::opaque]
pub open spec fn consistent(k: Knowledge, w: Walk) -> bool {
    &&& 0 <= w.handled()
    &&& w.head <= w.queue.len()
    &&& w.queue.len() > 0
    &&& w.queue[0] == w.root
    &&& distinct(w.nodes)
    &&& aligned(w.nodes)
    &&& w.queue == seq![w.root] + found(w.nodes)
    &&& paths_of(w.nodes) == firsts(w.queue.take(w.handled()))
    &&& forall|i: int| 0 <= i < w.nodes.len() ==> describes(k, #[trigger] w.nodes[i])
    &&& w.nodes.len() > 0 ==> w.nodes[0].path == w.root
    &&& forall|m: int| 0 <= m < w.handled() ==> holds(w.nodes, #[trigger] w.queue[m])
    &&& forall|i: int, c: Seq<char>|
        0 <= i < w.nodes.len() && #[trigger] w.nodes[i].children.contains(Some(c))
            ==> w.queue.contains(c)
    &&& forall|m: int|
        0 < m < w.queue.len() ==> found_by(w.nodes, w.nodes.len() as int, #[trigger] w.queue[m])
    &&& forall|i: int| 0 < i < w.nodes.len() ==> found_by(w.nodes, i, #[trigger] w.nodes[i].path)
    &&& forall|m: int|
        0 <= m < w.queue.len() ==> #[trigger] w.queue[m] == w.root || targets(k).contains(
            w.queue[m],
        )
    &&& forall|i: int|
        0 <= i < w.nodes.len() ==> (#[trigger] w.nodes[i]).path == w.root || targets(k).contains(
            w.nodes[i].path,
        )
    &&& match w.pending {
        None => true,
        Some(e) => {
            &&& e.path == w.queue[w.head - 1]
            &&& !holds(w.nodes, e.path)
            &&& listing(k, e.path) == Some(e.specifiers)
            &&& e.children.len() <= e.specifiers.len()
            &&& edges(k, e.path, e.specifiers.take(e.children.len() as int)) == Ok::<_, Query>(
                e.children,
            )
        },
    }
}

/// Whether the walk `w` from the entry `root` rests before the file `path`:
/// it is sound, has no file open, and `path`, which it has not visited,
/// stands at the front of its queue.
pub open spec fn rests_at(k: Knowledge, root: Seq<char>, w: Walk, path: Seq<char>) -> bool {
    &&& consistent(k, w)
    &&& w.root == root
    &&& w.pending is None
    &&& w.head < w.queue.len()
    &&& w.queue[w.head] == path
    &&& !holds(w.nodes, path)
}

/// The walk that a load starts with.
pub open spec fn start(root: Seq<char>) -> Walk {
    Walk { root, queue: seq![root], head: 0, nodes: Seq::empty(), pending: None }
}

/// A load starts sound.
pub proof fn walk_starts(k: Knowledge, root: Seq<char>)
    ensures
        consistent(k, start(root)),
{
    reveal(consistent);
    let w = start(root);
    assert(w.queue =~= seq![root] + found(w.nodes));
    assert(w.queue.take(0) =~= Seq::empty());
    assert(paths_of(w.nodes) =~= firsts(w.queue.take(0)));
}

/// A path that one of `nodes` has is among their paths.
proof fn held_is_a_path(nodes: Seq<Node>, path: Seq<char>)
    ensures
        holds(nodes, path) <==> paths_of(nodes).contains(path),
{
    if holds(nodes, path) {
        let i = choose|i: int| 0 <= i < nodes.len() && #[trigger] nodes[i].path == path;
        assert(paths_of(nodes)[i] == path);
    }
    if paths_of(nodes).contains(path) {
        let i = choose|i: int| 0 <= i < paths_of(nodes).len() && paths_of(nodes)[i] == path;
        assert(nodes[i].path == path);
    }
}

/// Passing over a path that was visited keeps the walk sound.
pub proof fn walk_skips(k: Knowledge, w: Walk)
    requires
        consistent(k, w),
        w.pending is None,
        w.head < w.queue.len(),
        holds(w.nodes, w.queue[w.head]),
    ensures
        consistent(k, Walk { head: w.head + 1, ..w }),
{
    reveal(consistent);
    held_is_a_path(w.nodes, w.queue[w.head]);
    assert(w.queue.take(w.head + 1).drop_last() =~= w.queue.take(w.head));
}

/// Opening the file at the front of the queue keeps the walk sound.
pub proof fn walk_opens(k: Knowledge, w: Walk, e: Node)
    requires
        consistent(k, w),
        w.pending is None,
        w.head < w.queue.len(),
        !holds(w.nodes, w.queue[w.head]),
        e.path == w.queue[w.head],
        listing(k, e.path) == Some(e.specifiers),
        e.children.len() == 0,
    ensures
        consistent(k, Walk { head: w.head + 1, pending: Some(e), ..w }),
{
    reveal(consistent);
    assert(e.specifiers.take(0) =~= Seq::empty());
    assert(e.children =~= Seq::empty());
}

/// A walk with a file open was one that rested before that file.
pub proof fn walk_reopens(k: Knowledge, w: Walk)
    requires
        consistent(k, w),
        w.pending is Some,
    ensures
        rests_at(k, w.root, Walk { head: w.head - 1, pending: None, ..w }, w.pending->0.path),
{
    reveal(consistent);
}

/// What a sound walk holds of its open file: the specifiers that the parser
/// found in it, and the files that the first of them name.
pub proof fn open_file_is_listed(k: Knowledge, w: Walk)
    requires
        consistent(k, w),
        w.pending is Some,
    ensures
        w.head >= 1,
        w.pending->0.path == w.queue[w.head - 1],
        !holds(w.nodes, w.pending->0.path),
        listing(k, w.pending->0.path) == Some(w.pending->0.specifiers),
        w.pending->0.children.len() <= w.pending->0.specifiers.len(),
        edges(
            k,
            w.pending->0.path,
            w.pending->0.specifiers.take(w.pending->0.children.len() as int),
        ) == Ok::<_, Query>(w.pending->0.children),
{
    reveal(consistent);
}

/// A walk whose open file has more of its imports resolved is sound as it
/// was.
pub proof fn walk_resolves(k: Knowledge, w: Walk, children: Seq<Option<Seq<char>>>)
    requires
        consistent(k, w),
        w.pending is Some,
        children.len() <= w.pending->0.specifiers.len(),
        edges(k, w.pending->0.path, w.pending->0.specifiers.take(children.len() as int)) == Ok::<
            _,
            Query,
        >(children),
    ensures
        consistent(k, Walk { pending: Some(Node { children, ..w.pending->0 }), ..w }),
{
    reveal(consistent);
}

/// The files of a sound walk are no more than the file system has named,
/// and the entry.
pub proof fn walk_is_bounded(k: Knowledge, w: Walk)
    requires
        consistent(k, w),
        targets(k).finite(),
    ensures
        w.nodes.len() <= targets(k).len() + 1,
{
    reveal(consistent);
    let paths = Seq::new(w.nodes.len(), |i: int| w.nodes[i].path);
    assert(paths.no_duplicates());
    paths.unique_seq_to_set();
    let all = targets(k).insert(w.root);
    assert forall|p: Seq<char>| paths.to_set().contains(p) implies all.contains(p) by {
        let i = choose|i: int| 0 <= i < paths.len() && paths[i] == p;
        assert(w.nodes[i].path == p);
    }
    vstd::set_lib::lemma_len_subset(paths.to_set(), all);
}

/// Closing the open file, once its imports are all resolved, keeps the walk
/// sound: the file joins the graph and the files that it imports join the
/// queue.
#[verifier::rlimit(40)]
pub proof fn walk_closes(k: Knowledge, w: Walk)
    requires
        consistent(k, w),
        w.pending is Some,
        w.pending->0.children.len() == w.pending->0.specifiers.len(),
    ensures
        consistent(
            k,
            Walk {
                nodes: w.nodes.push(w.pending->0),
                queue: w.queue + somes(w.pending->0.children),
                pending: None,
                ..w
            },
        ),
{
    reveal(consistent);
    let e = w.pending->0;
    let nodes = w.nodes.push(e);
    let more = somes(e.children);
    let queue = w.queue + more;
    let after = Walk { nodes, queue, pending: None, ..w };
    assert(e.specifiers.take(e.children.len() as int) =~= e.specifiers);
    assert(nodes.drop_last() =~= w.nodes);
    assert(queue =~= seq![w.root] + found(nodes));
    assert(queue.take(w.head) =~= w.queue.take(w.head));
    assert(w.queue.take(w.head).drop_last() =~= w.queue.take(w.head - 1));
    held_is_a_path(w.nodes, e.path);
    assert(paths_of(nodes) =~= paths_of(w.nodes).push(e.path));
    assert(aligned(nodes)) by {
        assert forall|i: int| 0 <= i < nodes.len() implies (#[trigger] nodes[i]).children.len()
            == nodes[i].specifiers.len() by {
            if i < w.nodes.len() {
                assert(nodes[i] == w.nodes[i]);
            }
        }
    }
    edges_are_aligned(k, e.path, e.specifiers);
    assert(describes(k, e));
    assert forall|i: int| 0 <= i < nodes.len() implies describes(k, #[trigger] nodes[i]) by {
        if i < w.nodes.len() {
            assert(nodes[i] == w.nodes[i]);
        }
    }
    if w.nodes.len() == 0 {
        assert(w.handled() == 0) by {
            if w.handled() > 0 {
                assert(holds(w.nodes, w.queue[0]));
            }
        }
    }
    assert(distinct(nodes)) by {
        assert forall|i: int, j: int| 0 <= i < j < nodes.len() implies nodes[i].path
            != nodes[j].path by {
            if j == w.nodes.len() {
                assert(nodes[i] == w.nodes[i]);
            }
        }
    }
    assert forall|m: int| 0 <= m < after.handled() implies holds(nodes, #[trigger] queue[m]) by {
        if m < w.handled() {
            assert(holds(w.nodes, w.queue[m]));
            let i = choose|i: int| 0 <= i < w.nodes.len() && w.nodes[i].path == w.queue[m];
            assert(nodes[i].path == queue[m]);
        } else {
            assert(nodes[w.nodes.len() as int].path == queue[m]);
        }
    }
    assert forall|i: int, c: Seq<char>|
        0 <= i < nodes.len() && #[trigger] nodes[i].children.contains(
            Some(c),
        ) implies queue.contains(c) by {
        if i < w.nodes.len() {
            assert(nodes[i] == w.nodes[i]);
            assert(w.queue.contains(c));
            let m = choose|m: int| 0 <= m < w.queue.len() && w.queue[m] == c;
            assert(queue[m] == c);
        } else {
            somes_holds(e.children, c);
            let j = choose|j: int| 0 <= j < more.len() && more[j] == c;
            assert(queue[w.queue.len() + j] == c);
        }
    }
    assert forall|m: int| 0 < m < queue.len() implies found_by(
        nodes,
        nodes.len() as int,
        #[trigger] queue[m],
    ) by {
        if m < w.queue.len() {
            assert(found_by(w.nodes, w.nodes.len() as int, w.queue[m]));
            let j = choose|j: int|
                0 <= j < w.nodes.len() && #[trigger] w.nodes[j].children.contains(
                    Some(w.queue[m]),
                );
            assert(nodes[j].children.contains(Some(queue[m])));
        } else {
            assert(more.contains(more[m - w.queue.len()]));
            somes_holds(e.children, queue[m]);
            assert(nodes[w.nodes.len() as int].children.contains(Some(queue[m])));
        }
    }
    assert forall|i: int| 0 < i < nodes.len() implies found_by(
        nodes,
        i,
        #[trigger] nodes[i].path,
    ) by {
        if i < w.nodes.len() {
            assert(found_by(w.nodes, i, w.nodes[i].path));
            let j = choose|j: int|
                0 <= j < i && j < w.nodes.len() && #[trigger] w.nodes[j].children.contains(
                    Some(w.nodes[i].path),
                );
            assert(nodes[j].children.contains(Some(nodes[i].path)));
        } else {
            if w.head - 1 == 0 {
                assert(w.nodes[0].path == e.path);
            }
            assert(found_by(w.nodes, w.nodes.len() as int, w.queue[w.head - 1]));
            let j = choose|j: int|
                0 <= j < w.nodes.len() && #[trigger] w.nodes[j].children.contains(Some(e.path));
            assert(nodes[j].children.contains(Some(nodes[i].path)));
        }
    }
    assert forall|m: int| 0 <= m < queue.len() implies #[trigger] queue[m] == w.root || targets(
        k,
    ).contains(queue[m]) by {
        if m >= w.queue.len() {
            let c = queue[m];
            assert(more.contains(more[m - w.queue.len()]));
            somes_holds(e.children, c);
            let x = choose|x: int| 0 <= x < e.children.len() && e.children[x] == Some(c);
            resolution_is_an_answer(k, e.path, e.specifiers[x], c);
        } else {
            assert(queue[m] == w.queue[m]);
        }
    }
    assert forall|i: int| 0 <= i < nodes.len() implies (#[trigger] nodes[i]).path == w.root
        || targets(k).contains(nodes[i].path) by {
        if i < w.nodes.len() {
            assert(nodes[i] == w.nodes[i]);
        } else {
            assert(e.path == w.queue[w.head - 1]);
        }
    }
    assert(queue[0] == w.queue[0]);
    if nodes.len() > 0 {
        if w.nodes.len() > 0 {
            assert(nodes[0] == w.nodes[0]);
        }
    }
}

/// A sound walk stays sound whatever more is learnt of the file system.
pub proof fn walk_learns(k: Knowledge, more: Knowledge, w: Walk)
    requires
        consistent(k, w),
        more.extends(k),
    ensures
        consistent(more, w),
{
    reveal(consistent);
    assert forall|i: int| 0 <= i < w.nodes.len() implies describes(more, #[trigger] w.nodes[i]) by {
        description_stands(k, more, w.nodes[i]);
    }
    assert forall|c: Seq<char>| targets(k).contains(c) implies targets(more).contains(c) by {
        let p = choose|p: Seq<char>| k.paths.dom().contains(p) && #[trigger] k.paths[p] == Some(c);
        assert(k.path(p) == Some(Some(c)));
        assert(more.path(p) == Some(Some(c)));
        assert(more.paths.dom().contains(p) && more.paths[p] == Some(c));
    }
    if let Some(e) = w.pending {
        assert(k.source(e.path) is Some);
        edges_stand(k, more, e.path, e.specifiers.take(e.children.len() as int));
    }
}

/// Every file of a sound walk can be reached from the entry.
pub proof fn node_is_reachable(k: Knowledge, w: Walk, i: int)
    requires
        consistent(k, w),
        0 <= i < w.nodes.len(),
    ensures
        reachable(k, w.root, w.nodes[i].path),
    decreases i,
{
    reveal(consistent);
    if i == 0 {
        let chain = seq![w.root];
        assert(is_chain(k, chain) && chain[0] == w.root && chain.last() == w.nodes[0].path);
    } else {
        assert(found_by(w.nodes, i, w.nodes[i].path));
        let j = choose|j: int|
            0 <= j < i && j < w.nodes.len() && #[trigger] w.nodes[j].children.contains(
                Some(w.nodes[i].path),
            );
        node_is_reachable(k, w, j);
        assert(describes(k, w.nodes[j]));
        step_is_reachable(k, w.root, w.nodes[j].path, w.nodes[i].path);
    }
}

/// A file that a reachable file imports can be reached.
pub proof fn step_is_reachable(k: Knowledge, root: Seq<char>, from: Seq<char>, to: Seq<char>)
    requires
        reachable(k, root, from),
        imports(k, from, to),
    ensures
        reachable(k, root, to),
{
    let chain = choose|chain: Seq<Seq<char>>| #[trigger]
        is_chain(k, chain) && chain[0] == root && chain.last() == from;
    let longer = chain.push(to);
    assert forall|i: int| 0 <= i < longer.len() - 1 implies imports(
        k,
        #[trigger] longer[i],
        longer[i + 1],
    ) by {
        if i < chain.len() - 1 {
            assert(imports(k, chain[i], chain[i + 1]));
        }
    }
    assert(is_chain(k, longer) && longer[0] == root && longer.last() == to);
}

/// Every path in the queue of a sound walk can be reached from the entry.
pub proof fn queue_is_reachable(k: Knowledge, w: Walk, m: int)
    requires
        consistent(k, w),
        0 <= m < w.queue.len(),
    ensures
        reachable(k, w.root, w.queue[m]),
{
    reveal(consistent);
    if m == 0 {
        let chain = seq![w.root];
        assert(is_chain(k, chain) && chain[0] == w.root && chain.last() == w.queue[0]);
    } else {
        assert(found_by(w.nodes, w.nodes.len() as int, w.queue[m]));
        let j = choose|j: int|
            0 <= j < w.nodes.len() && #[trigger] w.nodes[j].children.contains(Some(w.queue[m]));
        node_is_reachable(k, w, j);
        assert(describes(k, w.nodes[j]));
        step_is_reachable(k, w.root, w.nodes[j].path, w.queue[m]);
    }
}

/// A walk that has dealt with its whole queue holds the graph.
pub proof fn walk_ends(k: Knowledge, w: Walk)
    requires
        consistent(k, w),
        w.pending is None,
        w.head == w.queue.len(),
    ensures
        is_graph_of(Graph { root: w.root, nodes: w.nodes }, k, w.root),
{
    reveal(consistent);
    assert(holds(w.nodes, w.queue[0]));
    assert(w.queue.take(w.head) =~= w.queue);
    assert forall|i: int, c: Seq<char>|
        0 <= i < w.nodes.len() && #[trigger] w.nodes[i].children.contains(Some(c)) implies holds(
        w.nodes,
        c,
    ) by {
        assert(w.queue.contains(c));
        let m = choose|m: int| 0 <= m < w.queue.len() && w.queue[m] == c;
        assert(holds(w.nodes, w.queue[m]));
    }
}

} // verus!
