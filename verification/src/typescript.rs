//! The graph loader: from one entry file to every file that it imports,
//! directly or through other files, each parsed once.

pub mod dependencies;
pub mod distance;
pub mod graph;
pub mod laws;
pub mod parser;
pub mod snapshot;
pub mod table;
pub mod traversal;

use crate::path::{components, components_of, file_name_of, Component};
use crate::typescript::graph::syntax;
use crate::text::same_text;
use crate::typescript::dependencies::{find, need_is_open, Answer};
use crate::typescript::graph::{
    edges, edges_stop, holds, is_graph_of, listing, reachable, somes, Graph, Node,
};
use crate::typescript::parser::{Parsed, Reading, Source};
use crate::typescript::snapshot::{
    targets, Knowledge, PackageDescriptor, Query, Request, Snapshot,
};
use crate::typescript::traversal::{
    consistent, open_file_is_listed, queue_is_reachable, rests_at, start, walk_closes, walk_ends,
    walk_is_bounded, walk_learns, walk_opens, walk_resolves, walk_skips, walk_starts, Walk,
};
use std::collections::VecDeque;
use vstd::hash_map::StringHashMap;
use vstd::prelude::*;

verus! {

/// Whether a load from the entry `root` has use for the answer to `q`: the
/// reading of a file that can be reached, or what the imports of such a file
/// wait for.
pub open spec fn wanted(k: Knowledge, root: Seq<char>, q: Query) -> bool {
    match q {
        Query::Source(path) => reachable(k, root, path),
        _ => exists|file: Seq<char>| #[trigger]
            reachable(k, root, file) && listing(k, file) is Some && edges(
                k,
                file,
                listing(k, file)->0,
            ) == Err::<Seq<Option<Seq<char>>>, _>(q),
    }
}

/// Whether a load from the entry `root` comes, with what `k` knows, to the
/// file `path` as the next to visit: a sound walk has dealt with all that
/// stands before `path` in its queue, and has not visited `path`.
pub open spec fn stops_at(k: Knowledge, root: Seq<char>, path: Seq<char>) -> bool {
    exists|w: Walk| rests_at(k, root, w, path)
}

/// Whether the walk `w` can go on only with the answer to `q`: the reading of
/// the file that it rests before, or what the imports of its open file wait
/// for.
pub open spec fn awaited(k: Knowledge, w: Walk, q: Query) -> bool {
    match q {
        Query::Source(path) => rests_at(k, w.root, w, path),
        _ => {
            &&& w.pending matches Some(e)
            &&& edges(k, e.path, e.specifiers) == Err::<Seq<Option<Seq<char>>>, _>(q)
        },
    }
}

/// One file of a graph: where it is, the specifiers that it holds, and the
/// file that each of them names.
pub struct Entry {
    /// The canonical path of the file.
    pub path: String,
    /// The specifiers that the parser found in the file, in source order and
    /// with duplicates kept.
    pub specifiers: Vec<String>,
    /// For each of `specifiers`, in order: the file that it names, or `None`
    /// where it names none.
    pub children: Vec<Option<String>>,
}

impl View for Entry {
    type V = Node;

    open spec fn view(&self) -> Node {
        Node {
            path: self.path@,
            specifiers: self.specifiers.deep_view(),
            children: self.children.deep_view(),
        }
    }
}

impl DeepView for Entry {
    type V = Node;

    open spec fn deep_view(&self) -> Node {
        self@
    }
}

/// How the analysis of one file ended.
pub enum Analysis {
    /// Each import of the file is resolved: for each specifier, in order,
    /// the file that it names.
    Analyzed(Vec<Option<String>>),
    /// It takes this answer to resolve the imports of the file.
    Waiting(Request),
}

/// The name of the file `path`: its last component.
pub fn file_name(path: &str) -> (r: String)
    ensures
        r@ == file_name_of(components_of(path@)),
{
    let mut parts = components(path);
    match parts.pop() {
        Some(Component::Normal(name)) => name,
        _ => String::new(),
    }
}

/// Resolves the specifiers of `file` that `children` does not answer yet, in
/// order, up to the first that takes an answer the snapshot lacks.
fn resolve_more(
    fs: &Snapshot,
    file: &str,
    specifiers: &Vec<String>,
    children: &mut Vec<Option<String>>,
) -> (r: Option<Request>)
    requires
        old(children).len() <= specifiers.len(),
        edges(fs@, file@, specifiers.deep_view().take(old(children).len() as int)) == Ok::<
            _,
            Query,
        >(old(children).deep_view()),
    ensures
        final(children).len() <= specifiers.len(),
        edges(fs@, file@, specifiers.deep_view().take(final(children).len() as int)) == Ok::<
            _,
            Query,
        >(final(children).deep_view()),
        match r {
            None => final(children).len() == specifiers.len(),
            Some(request) => {
                &&& edges(fs@, file@, specifiers.deep_view()) == Err::<
                    Seq<Option<Seq<char>>>,
                    _,
                >(request@)
                &&& fs@.lacks(request@)
                &&& !(request is Source)
            },
        },
{
    let ghost all = specifiers.deep_view();
    while children.len() < specifiers.len()
        invariant
            children.len() <= specifiers.len(),
            all == specifiers.deep_view(),
            edges(fs@, file@, all.take(children.len() as int)) == Ok::<_, Query>(
                children.deep_view(),
            ),
        decreases specifiers.len() - children.len(),
    {
        let i = children.len();
        let ghost before = children.deep_view();
        assert(all.take(i + 1).drop_last() =~= all.take(i as int));
        assert(all.take(i + 1).last() == specifiers[i as int]@);
        match find(fs, file, specifiers[i].as_str()) {
            Answer::Resolved(found) => {
                children.push(found);
                assert(children.deep_view() =~= before.push(found.deep_view()));
            },
            Answer::Need(request) => {
                proof {
                    edges_stop(fs@, file@, all, i + 1);
                    need_is_open(fs@, file@, specifiers[i as int]@);
                }
                return Some(request);
            },
        }
    }
    None
}

/// Resolves each import of the file `path`, of which the parser found
/// `specifiers`.
pub fn analyze_module(fs: &Snapshot, path: &str, specifiers: &Vec<String>) -> (r: Analysis)
    ensures
        match r {
            Analysis::Analyzed(children) => {
                &&& edges(fs@, path@, specifiers.deep_view()) == Ok::<_, Query>(
                    children.deep_view(),
                )
                &&& children.len() == specifiers.len()
            },
            Analysis::Waiting(request) => {
                &&& edges(fs@, path@, specifiers.deep_view()) == Err::<Seq<Option<Seq<char>>>, _>(
                    request@,
                )
                &&& fs@.lacks(request@)
                &&& !(request is Source)
            },
        },
{
    let mut children: Vec<Option<String>> = Vec::new();
    assert(specifiers.deep_view().take(0) =~= Seq::empty());
    assert(children.deep_view() =~= Seq::empty());
    match resolve_more(fs, path, specifiers, &mut children) {
        Some(request) => Analysis::Waiting(request),
        None => {
            assert(specifiers.deep_view().take(children.len() as int) =~= specifiers.deep_view());
            Analysis::Analyzed(children)
        },
    }
}

/// Why a load was given up.
#[derive(Debug)]
pub enum LoadError {
    /// The file with this path could not be read.
    Io(String),
    /// The parser rejected the file with this path, with this message.
    Parse(String, String),
}

/// The dependency graph of one entry file, with what was known of the file
/// system when it was complete.
pub struct Load {
    /// The path of the entry file.
    pub root: String,
    /// The files of the graph, the entry first, in the order in which they
    /// were visited.
    pub entries: Vec<Entry>,
    /// What was known of the file system when the graph was complete.
    pub fs: Snapshot,
}

impl View for Load {
    type V = Graph;

    open spec fn view(&self) -> Graph {
        Graph { root: self.root@, nodes: self.entries.deep_view() }
    }
}

/// Where among `entries` the file `path` is.
fn position(entries: &Vec<Entry>, path: &str) -> (r: Option<usize>)
    ensures
        match r {
            Some(i) => i < entries.len() && entries[i as int].path@ == path@,
            None => !holds(entries.deep_view(), path@),
        },
{
    let mut i: usize = 0;
    while i < entries.len()
        invariant
            i <= entries.len(),
            forall|j: int| 0 <= j < i ==> entries.deep_view()[j].path != path@,
        decreases entries.len() - i,
    {
        if same_text(entries[i].path.as_str(), path) {
            return Some(i);
        }
        i = i + 1;
    }
    None
}

impl Load {
    /// What was known of the file system when the graph was complete.
    pub open spec fn knowledge(&self) -> Knowledge {
        self.fs@
    }

    /// What the parser made of the file `path`, if the graph holds it: what
    /// was recorded for that path.
    pub fn parsed(&self, path: &str) -> (r: Option<&Parsed>)
        ensures
            match r {
                Some(p) => {
                    &&& holds(self@.nodes, path@)
                    &&& self.knowledge().source(path@) == Some(
                        Reading::Parsed { ast: p.ast, specifiers: p.specifiers.deep_view() },
                    )
                },
                None => !holds(self@.nodes, path@) || syntax(self.knowledge(), path@) is None,
            },
    {
        match position(&self.entries, path) {
            Some(i) => {
                assert(self@.nodes[i as int].path == path@);
                match self.fs.source(path) {
                    Some(Some(Source::Parsed(parsed))) => Some(parsed),
                    _ => None,
                }
            },
            None => None,
        }
    }

    /// The file that each specifier of the file `path` names, if the graph
    /// holds that file.
    pub fn children(&self, path: &str) -> (r: Option<&Vec<Option<String>>>)
        ensures
            r is Some <==> holds(self@.nodes, path@),
            r matches Some(c) ==> exists|i: int|
                0 <= i < self.entries.len() && #[trigger] self.entries[i].path@ == path@ && *c
                    == self.entries[i].children,
    {
        match position(&self.entries, path) {
            Some(i) => {
                assert(self@.nodes[i as int].path == path@);
                Some(&self.entries[i].children)
            },
            None => None,
        }
    }

    /// How many files the graph holds.
    pub fn size(&self) -> (r: usize)
        ensures
            r == self@.nodes.len(),
    {
        self.entries.len()
    }
}

/// A load under way: what is known of the file system, the paths found, and
/// the files visited.
pub struct Loader {
    fs: Snapshot,
    root: String,
    queue: VecDeque<String>,
    taken: Ghost<Seq<Seq<char>>>,
    entries: Vec<Entry>,
    visited: StringHashMap<usize>,
    pending: Option<Entry>,
}

/// Whether `visited` tells of each of `nodes` where it stands.
spec fn indexed(nodes: Seq<Node>, visited: Map<Seq<char>, usize>) -> bool {
    forall|i: int|
        0 <= i < nodes.len() ==> visited.contains_key((#[trigger] nodes[i]).path)
            && visited[nodes[i].path] == i
}

/// Where among `entries` the file `path` is, by the index `visited`.
fn seen(entries: &Vec<Entry>, visited: &StringHashMap<usize>, path: &str) -> (r: Option<usize>)
    requires
        indexed(entries.deep_view(), visited@),
    ensures
        match r {
            Some(i) => i < entries.len() && entries[i as int].path@ == path@,
            None => !holds(entries.deep_view(), path@),
        },
{
    match visited.get(path) {
        Some(i) => {
            if *i < entries.len() && same_text(entries[*i].path.as_str(), path) {
                Some(*i)
            } else {
                None
            }
        },
        None => None,
    }
}

/// How far a load got.
pub enum Progress {
    /// The graph is complete.
    Finished(Load),
    /// A file could not be read or parsed: there is no graph.
    Failed(LoadError),
    /// The load takes an answer that is not known yet. Once the answer is
    /// recorded with the loader, the loader can go on.
    Waiting(Loader, Request),
}

/// Whether `r` is how far a load from the entry `root` gets with what `k`
/// knows.
///
/// It finishes with the graph that `k` describes. It fails at the first file
/// that it comes to which could not be read, or which the parser rejected.
/// It waits, with knowledge that is not sealed, for the first answer that
/// `k` lacks, and the loader that it hands back is sound and knows what `k`
/// knows.
pub open spec fn follows(r: Progress, k: Knowledge, root: Seq<char>) -> bool {
    match r {
        Progress::Finished(load) => is_graph_of(load@, k, root) && load.knowledge() == k,
        Progress::Failed(LoadError::Io(path)) => {
            &&& stops_at(k, root, path@)
            &&& reachable(k, root, path@)
            &&& k.source(path@) == Some(Reading::Unreadable)
        },
        Progress::Failed(LoadError::Parse(path, message)) => {
            &&& stops_at(k, root, path@)
            &&& reachable(k, root, path@)
            &&& k.source(path@) == Some(Reading::Rejected(message@))
        },
        Progress::Waiting(loader, request) => {
            &&& loader.wf()
            &&& loader.root() == root
            &&& loader.knowledge() == k
            &&& k.lacks(request@)
            &&& awaited(k, loader@, request@)
            &&& wanted(k, root, request@)
            &&& !k.sealed
        },
    }
}

impl View for Loader {
    type V = Walk;

    closed spec fn view(&self) -> Walk {
        Walk {
            root: self.root@,
            queue: self.taken@ + self.queue.deep_view(),
            head: self.taken@.len() as int,
            nodes: self.entries.deep_view(),
            pending: self.pending.deep_view(),
        }
    }
}

/// A copy of `texts`.
fn copy_of(texts: &Vec<String>) -> (r: Vec<String>)
    ensures
        r.deep_view() == texts.deep_view(),
{
    let mut out: Vec<String> = Vec::new();
    let mut i: usize = 0;
    while i < texts.len()
        invariant
            i <= texts.len(),
            out.len() == i,
            forall|j: int| 0 <= j < i ==> out[j]@ == texts[j]@,
        decreases texts.len() - i,
    {
        out.push(texts[i].clone());
        i = i + 1;
    }
    assert(out.deep_view() =~= texts.deep_view());
    out
}

/// Adds the files among `children` to the back of `queue`.
fn enqueue(queue: &mut VecDeque<String>, children: &Vec<Option<String>>)
    ensures
        final(queue).deep_view() == old(queue).deep_view() + somes(children.deep_view()),
{
    let ghost all = children.deep_view();
    let ghost before = queue.deep_view();
    let mut i: usize = 0;
    assert(all.take(0) =~= Seq::empty());
    assert(before + somes(all.take(0)) =~= before);
    while i < children.len()
        invariant
            i <= children.len(),
            all == children.deep_view(),
            queue.deep_view() == before + somes(all.take(i as int)),
        decreases children.len() - i,
    {
        assert(all.take(i + 1).drop_last() =~= all.take(i as int));
        assert(all.take(i + 1).last() == children[i as int].deep_view());
        let ghost sofar = queue.deep_view();
        if let Some(c) = &children[i] {
            queue.push_back(c.clone());
            assert(queue.deep_view() =~= sofar.push(c@));
            assert(queue.deep_view() =~= before + somes(all.take(i + 1)));
        }
        i = i + 1;
    }
    assert(all.take(children.len() as int) =~= all);
}

impl Loader {
    /// What the loader knows of the file system.
    pub closed spec fn knowledge(&self) -> Knowledge {
        self.fs@
    }

    /// The path of the entry file.
    pub open spec fn root(&self) -> Seq<char> {
        self@.root
    }

    /// Whether the index of the visited files agrees with them.
    pub closed spec fn indexed(&self) -> bool {
        indexed(self.entries.deep_view(), self.visited@)
    }

    /// Whether the loader is in a sound state: every loader that this module
    /// hands out is.
    pub open spec fn wf(&self) -> bool {
        consistent(self.knowledge(), self@) && self.indexed()
    }

    /// A loader for the graph of the entry file `entry`, which starts from
    /// what `fs` knows.
    pub fn new(fs: Snapshot, entry: &str) -> (r: Loader)
        ensures
            r.wf(),
            r.knowledge() == fs@,
            r.root() == entry@,
    {
        let mut queue: VecDeque<String> = VecDeque::new();
        queue.push_back(String::from_str(entry));
        let r = Loader {
            fs,
            root: String::from_str(entry),
            queue,
            taken: Ghost(Seq::empty()),
            entries: Vec::new(),
            visited: StringHashMap::new(),
            pending: None,
        };
        proof {
            walk_starts(fs@, entry@);
            assert(r@.queue =~= seq![entry@]);
            assert(r@.head == 0);
            assert(r@.nodes =~= Seq::empty());
            assert(r@ == start(entry@));
        }
        r
    }

    /// Records that the path `probe` names the file whose canonical path is
    /// `canonical`, or no file.
    pub fn record_path(&mut self, probe: &str, canonical: Option<String>)
        requires
            old(self).wf(),
        ensures
            final(self).wf(),
            final(self).root() == old(self).root(),
            final(self).knowledge() == old(self).knowledge().with_path(
                probe@,
                canonical.deep_view(),
            ),
    {
        self.fs.record_path(probe, canonical);
        proof {
            walk_learns(old(self).fs@, self.fs@, self@);
        }
    }

    /// Records what the manifest of the package directory `dir` declares, or
    /// that it has no readable manifest.
    pub fn record_manifest(&mut self, dir: &str, manifest: Option<PackageDescriptor>)
        requires
            old(self).wf(),
        ensures
            final(self).wf(),
            final(self).root() == old(self).root(),
            final(self).knowledge() == old(self).knowledge().with_manifest(
                dir@,
                manifest.deep_view(),
            ),
    {
        self.fs.record_manifest(dir, manifest);
        proof {
            walk_learns(old(self).fs@, self.fs@, self@);
        }
    }

    /// Records what became of reading and parsing the file `path`.
    pub fn record_source(&mut self, path: &str, source: Source)
        requires
            old(self).wf(),
        ensures
            final(self).wf(),
            final(self).root() == old(self).root(),
            final(self).knowledge() == old(self).knowledge().with_source(path@, source@),
    {
        self.fs.record_source(path, source);
        proof {
            walk_learns(old(self).fs@, self.fs@, self@);
        }
    }

    /// Goes on with the load as far as what is known allows: to the complete
    /// graph, to the first file that cannot be read or parsed, or to the
    /// first answer that is missing.
    pub fn advance(self) -> (r: Progress)
        requires
            self.wf(),
        ensures
            follows(r, self.knowledge(), self.root()),
    {
        let Loader { fs, root, mut queue, taken, mut entries, mut visited, pending } = self;
        let ghost mut taken = taken@;
        let mut pending = pending;
        proof {
            fs.targets_are_finite();
        }
        loop
            invariant
                fs@ == self.knowledge(),
                root@ == self.root(),
                targets(fs@).finite(),
                indexed(entries.deep_view(), visited@),
                consistent(
                    fs@,
                    Walk {
                        root: root@,
                        queue: taken + queue.deep_view(),
                        head: taken.len() as int,
                        nodes: entries.deep_view(),
                        pending: pending.deep_view(),
                    },
                ),
            decreases targets(fs@).len() + 1 - entries.len(), queue.len(),
        {
            let ghost w = Walk {
                root: root@,
                queue: taken + queue.deep_view(),
                head: taken.len() as int,
                nodes: entries.deep_view(),
                pending: pending.deep_view(),
            };
            proof {
                walk_is_bounded(fs@, w);
            }
            let current = pending;
            pending = None;
            match current {
                Some(mut e) => {
                    proof {
                        open_file_is_listed(fs@, w);
                    }
                    let waits = resolve_more(
                        &fs,
                        e.path.as_str(),
                        &e.specifiers,
                        &mut e.children,
                    );
                    match waits {
                        Some(request) => {
                            proof {
                                let waiting = Walk { pending: Some(e@), ..w };
                                walk_resolves(fs@, w, e@.children);
                                assert(waiting == Walk {
                                    pending: Some(Node { children: e@.children, ..w.pending->0 }),
                                    ..w
                                });
                                queue_is_reachable(fs@, waiting, taken.len() - 1);
                                assert(reachable(fs@, root@, e.path@) && listing(fs@, e.path@)
                                    is Some);
                            }
                            let loader = Loader {
                                fs,
                                root,
                                queue,
                                taken: Ghost(taken),
                                entries,
                                visited,
                                pending: Some(e),
                            };
                            return Progress::Waiting(loader, request);
                        },
                        None => {
                            proof {
                                walk_resolves(fs@, w, e@.children);
                                assert(Walk { pending: Some(e@), ..w } == Walk {
                                    pending: Some(Node { children: e@.children, ..w.pending->0 }),
                                    ..w
                                });
                                walk_closes(fs@, Walk { pending: Some(e@), ..w });
                            }
                            let ghost before = entries.deep_view();
                            let ghost waiting = queue.deep_view();
                            enqueue(&mut queue, &e.children);
                            assert(taken + queue.deep_view() =~= (taken + waiting) + somes(
                                e@.children,
                            ));
                            visited.insert(e.path.clone(), entries.len());
                            entries.push(e);
                            assert(entries.deep_view() =~= before.push(e@));
                            assert(indexed(entries.deep_view(), visited@)) by {
                                assert forall|i: int| 0 <= i < before.len() implies before[i].path
                                    != e@.path by {
                                    assert(!holds(before, e@.path));
                                }
                            }
                            proof {
                                walk_is_bounded(
                                    fs@,
                                    Walk {
                                        nodes: entries.deep_view(),
                                        queue: taken + queue.deep_view(),
                                        pending: None,
                                        ..w
                                    },
                                );
                            }
                        },
                    }
                },
                None => {
                    if queue.len() == 0 {
                        assert(taken + queue.deep_view() =~= taken);
                        proof {
                            walk_ends(fs@, w);
                        }
                        return Progress::Finished(Load { root, entries, fs });
                    }
                    let path = queue[0].clone();
                    assert(path@ == w.queue[taken.len() as int]);
                    if let Some(i) = seen(&entries, &visited, path.as_str()) {
                        proof {
                            assert(w.nodes[i as int].path == w.queue[taken.len() as int]);
                            walk_skips(fs@, w);
                        }
                        queue.pop_front();
                        proof {
                            taken = taken.push(path@);
                            assert(taken + queue.deep_view() =~= w.queue);
                        }
                    } else {
                        proof {
                            queue_is_reachable(fs@, w, taken.len() as int);
                            assert(rests_at(fs@, root@, w, path@));
                        }
                        let read = match fs.source(path.as_str()) {
                            None => None,
                            Some(None) | Some(Some(Source::Unreadable)) => Some(
                                Err(LoadError::Io(path.clone())),
                            ),
                            Some(Some(Source::Rejected(message))) => Some(
                                Err(LoadError::Parse(path.clone(), message.clone())),
                            ),
                            Some(Some(Source::Parsed(parsed))) => Some(
                                Ok(copy_of(&parsed.specifiers)),
                            ),
                        };
                        match read {
                            None => {
                                let loader = Loader {
                                    fs,
                                    root,
                                    queue,
                                    taken: Ghost(taken),
                                    entries,
                                    visited,
                                    pending: None,
                                };
                                return Progress::Waiting(loader, Request::Source(path));
                            },
                            Some(Err(failure)) => {
                                return Progress::Failed(failure);
                            },
                            Some(Ok(specifiers)) => {
                                let e = Entry { path, specifiers, children: Vec::new() };
                                proof {
                                    assert(e@.children =~= Seq::empty());
                                    walk_opens(fs@, w, e@);
                                }
                                queue.pop_front();
                                proof {
                                    taken = taken.push(e@.path);
                                    assert(taken + queue.deep_view() =~= w.queue);
                                }
                                pending = Some(e);
                            },
                        }
                    }
                },
            }
        }
    }
}

/// Loads the dependency graph of the entry file `file` from what `fs` knows
/// of the file system.
pub fn load(fs: Snapshot, file: &str) -> (r: Progress)
    ensures
        follows(r, fs@, file@),
{
    Loader::new(fs, file).advance()
}

} // verus!
