//! The specifier resolver: which file an import names.
//!
//! `resolve` says, for a state of knowledge about the file system, the file
//! that an import resolves to, or which answer is missing to tell. `find`
//! computes it from a `Snapshot`.

use crate::path::{
    components, components_of, join, joined, parent_of, render, rendered, Component, Part,
};
use crate::text::{chain, chain3, has_prefix, has_suffix, same_text};
use crate::typescript::snapshot::{redirect_of, targets, Knowledge, Query, Request, Snapshot};
use vstd::prelude::*;

verus! {

/// How far a resolution got, as the contracts speak of it.
pub enum Outcome {
    /// The import names the file with this canonical path, or no file.
    Resolved(Option<Seq<char>>),
    /// It takes the answer to this question to go on.
    Need(Query),
}

/// How far a resolution got.
#[derive(Clone, Debug, PartialEq, Eq)]
pub enum Answer {
    /// The import names the file with this canonical path, or no file.
    Resolved(Option<String>),
    /// It takes the answer to this question to go on.
    Need(Request),
}

impl View for Answer {
    type V = Outcome;

    open spec fn view(&self) -> Outcome {
        match self {
            Answer::Resolved(found) => Outcome::Resolved(found.deep_view()),
            Answer::Need(request) => Outcome::Need(request@),
        }
    }
}

impl Outcome {
    /// `self`, unless it found no file: then `next`.
    pub open spec fn or_else(self, next: Outcome) -> Outcome {
        if self == Outcome::Resolved(None) {
            next
        } else {
            self
        }
    }
}

/// The paths that stand for the module path `p`, in the order in which they
/// are tried: `p` itself where it already has the extension of a TypeScript
/// file, then `p` with each extension, then the index file of the directory
/// `p`.
pub open spec fn candidates(p: Seq<char>) -> Seq<Seq<char>> {
    let guesses = seq![p + ".ts"@, p + ".d.ts"@, p + "/index.ts"@, p + "/index.d.ts"@];
    if ".ts"@.is_suffix_of(p) || ".d.ts"@.is_suffix_of(p) {
        seq![p] + guesses
    } else {
        guesses
    }
}

/// The first of `paths` that names a file, as far as `k` can tell.
pub open spec fn first_hit(k: Knowledge, paths: Seq<Seq<char>>) -> Outcome
    decreases paths.len(),
{
    if paths.len() == 0 {
        Outcome::Resolved(None)
    } else {
        match k.path(paths[0]) {
            None => Outcome::Need(Query::Path(paths[0])),
            Some(Some(canonical)) => Outcome::Resolved(Some(canonical)),
            Some(None) => first_hit(k, paths.skip(1)),
        }
    }
}

/// The file that the module path `p` names.
pub open spec fn probe_file(k: Knowledge, p: Seq<char>) -> Outcome {
    first_hit(k, candidates(p))
}

/// The file that the manifest of the package directory `package` sends to.
pub open spec fn redirected(k: Knowledge, package: Seq<char>) -> Outcome {
    match k.manifest(package) {
        None => Outcome::Need(Query::Manifest(package)),
        Some(None) => Outcome::Resolved(None),
        Some(Some(manifest)) => match redirect_of(manifest) {
            None => Outcome::Resolved(None),
            Some(target) => probe_file(k, package + "/"@ + target),
        },
    }
}

/// The file that the bare specifier `s` names in the `node_modules` of the
/// directory `dir`: the declarations that come with the platform, then those
/// of a declaration package, then the package itself. For the package, the
/// file that its manifest sends to goes before a guess from its path.
pub open spec fn search_dir(k: Knowledge, dir: Seq<char>, s: Seq<char>) -> Outcome {
    let package = joined(joined(dir, "node_modules"@), s);
    probe_file(k, joined(joined(dir, "node_modules/@types/node"@), s)).or_else(
        probe_file(k, joined(joined(dir, "node_modules/@types"@), s)),
    ).or_else(redirected(k, package)).or_else(probe_file(k, package))
}

/// The file that the bare specifier `s` names, searched for in the
/// directory with components `dir` and then in each directory above it,
/// nearest first.
pub open spec fn search_up(k: Knowledge, dir: Seq<Part>, s: Seq<char>) -> Outcome
    decreases dir.len(),
{
    let here = search_dir(k, rendered(dir), s);
    match parent_of(dir) {
        Some(above) => here.or_else(search_up(k, above, s)),
        None => here,
    }
}

/// Whether `s` is the name of a module that comes with the platform.
pub open spec fn is_core(s: Seq<char>) -> bool {
    s == "assert"@ || s == "async_hooks"@ || s == "buffer"@ || s == "child_process"@ ||
    s == "cluster"@ || s == "console"@ || s == "constants"@ || s == "crypto"@ ||
    s == "dgram"@ || s == "dns"@ || s == "domain"@ || s == "events"@ || s == "fs"@ ||
    s == "http"@ || s == "https"@ || s == "http2"@ || s == "inspector"@ || s == "net"@ ||
    s == "os"@ || s == "path"@ || s == "perf_hooks"@ || s == "process"@ || s == "punycode"@ ||
    s == "querystring"@ || s == "readline"@ || s == "repl"@ || s == "stream"@ ||
    s == "string_decoder"@ || s == "timers"@ || s == "tls"@ || s == "tty"@ || s == "url"@ ||
    s == "util"@ || s == "v8"@ || s == "vm"@ || s == "zlib"@
}

/// What a specifier is, by its text.
#[derive(Clone, Copy, Debug, PartialEq, Eq)]
pub enum Kind {
    /// The name of a module that comes with the platform.
    Core,
    /// A path that starts at the root directory.
    Absolute,
    /// A path that starts at the directory of the importing file.
    Relative,
    /// An import from the importing package itself.
    Subpath,
    /// The name of a package.
    Bare,
}

/// What the specifier `s` is: the name of a built-in module; else a path,
/// where it starts with `/`, `./` or `../`; else a subpath import, where it
/// starts with `#`; else the name of a package.
pub open spec fn kind_of(s: Seq<char>) -> Kind {
    if is_core(s) {
        Kind::Core
    } else if "/"@.is_prefix_of(s) {
        Kind::Absolute
    } else if "./"@.is_prefix_of(s) || "../"@.is_prefix_of(s) {
        Kind::Relative
    } else if "#"@.is_prefix_of(s) {
        Kind::Subpath
    } else {
        Kind::Bare
    }
}

/// The file that the specifier `s` names in the file `file`.
///
/// An absolute specifier is a path of its own. A relative one is a path
/// below the directory of `file`. A subpath import names nothing. The name of
/// a package is searched for in `node_modules`, and so is the name of a
/// built-in module: it has no file of its own, and what is found for it are
/// the declarations that describe it. A `file` with no directory above it
/// imports nothing.
pub open spec fn resolve(k: Knowledge, file: Seq<char>, s: Seq<char>) -> Outcome {
    match parent_of(components_of(file)) {
        None => Outcome::Resolved(None),
        Some(dir) => match kind_of(s) {
            Kind::Absolute => probe_file(k, s),
            Kind::Relative => probe_file(k, joined(rendered(dir), s)),
            Kind::Subpath => Outcome::Resolved(None),
            Kind::Core | Kind::Bare => search_up(k, dir, s),
        },
    }
}

/// The name of a built-in module starts like no path and no subpath import.
pub proof fn core_names_are_plain(s: Seq<char>)
    requires
        is_core(s),
    ensures
        !"/"@.is_prefix_of(s),
        !"./"@.is_prefix_of(s),
        !"../"@.is_prefix_of(s),
        !"#"@.is_prefix_of(s),
{
    reveal_strlit("assert");
    reveal_strlit("async_hooks");
    reveal_strlit("buffer");
    reveal_strlit("child_process");
    reveal_strlit("cluster");
    reveal_strlit("console");
    reveal_strlit("constants");
    reveal_strlit("crypto");
    reveal_strlit("dgram");
    reveal_strlit("dns");
    reveal_strlit("domain");
    reveal_strlit("events");
    reveal_strlit("fs");
    reveal_strlit("http");
    reveal_strlit("https");
    reveal_strlit("http2");
    reveal_strlit("inspector");
    reveal_strlit("net");
    reveal_strlit("os");
    reveal_strlit("path");
    reveal_strlit("perf_hooks");
    reveal_strlit("process");
    reveal_strlit("punycode");
    reveal_strlit("querystring");
    reveal_strlit("readline");
    reveal_strlit("repl");
    reveal_strlit("stream");
    reveal_strlit("string_decoder");
    reveal_strlit("timers");
    reveal_strlit("tls");
    reveal_strlit("tty");
    reveal_strlit("url");
    reveal_strlit("util");
    reveal_strlit("v8");
    reveal_strlit("vm");
    reveal_strlit("zlib");
    reveal_strlit("/");
    reveal_strlit("./");
    reveal_strlit("../");
    reveal_strlit("#");
    assert(s.len() > 0 && s[0] != '/' && s[0] != '.' && s[0] != '#');
    assert("/"@[0] == '/' && "./"@[0] == '.' && "../"@[0] == '.' && "#"@[0] == '#');
    if "/"@.is_prefix_of(s) {
        assert(s.subrange(0, 1)[0] == s[0]);
    }
    if "./"@.is_prefix_of(s) {
        assert(s.subrange(0, 2)[0] == s[0]);
    }
    if "../"@.is_prefix_of(s) {
        assert(s.subrange(0, 3)[0] == s[0]);
    }
    if "#"@.is_prefix_of(s) {
        assert(s.subrange(0, 1)[0] == s[0]);
    }
}

/// What `first_hit` answers once more is known, where it found its answer.
proof fn first_hit_stands(k: Knowledge, more: Knowledge, paths: Seq<Seq<char>>)
    requires
        more.extends(k),
    ensures
        first_hit(k, paths) is Resolved ==> first_hit(more, paths) == first_hit(k, paths),
        first_hit(k, paths) matches Outcome::Resolved(Some(c)) ==> targets(k).contains(c),
        k.sealed ==> first_hit(k, paths) is Resolved,
        first_hit(k, paths) matches Outcome::Need(q) ==> k.lacks(q) && !(q is Source),
    decreases paths.len(),
{
    if paths.len() > 0 {
        first_hit_stands(k, more, paths.skip(1));
        assert(k.path(paths[0]) is Some ==> more.path(paths[0]) == k.path(paths[0]));
        if let Some(Some(c)) = k.path(paths[0]) {
            assert(k.paths.dom().contains(paths[0]) && k.paths[paths[0]] == Some(c));
        }
    }
}

/// What `redirected` answers once more is known, where it found its answer.
proof fn redirected_stands(k: Knowledge, more: Knowledge, package: Seq<char>)
    requires
        more.extends(k),
    ensures
        redirected(k, package) is Resolved ==> redirected(more, package) == redirected(k, package),
        redirected(k, package) matches Outcome::Resolved(Some(c)) ==> targets(k).contains(c),
        k.sealed ==> redirected(k, package) is Resolved,
        redirected(k, package) matches Outcome::Need(q) ==> k.lacks(q) && !(q is Source),
{
    assert(k.manifest(package) is Some ==> more.manifest(package) == k.manifest(package));
    if let Some(Some(manifest)) = k.manifest(package) {
        if let Some(target) = redirect_of(manifest) {
            first_hit_stands(k, more, candidates(package + "/"@ + target));
        }
    }
}

/// What `search_dir` answers once more is known, where it found its answer.
proof fn search_dir_stands(k: Knowledge, more: Knowledge, dir: Seq<char>, s: Seq<char>)
    requires
        more.extends(k),
    ensures
        search_dir(k, dir, s) is Resolved ==> search_dir(more, dir, s) == search_dir(k, dir, s),
        search_dir(k, dir, s) matches Outcome::Resolved(Some(c)) ==> targets(k).contains(c),
        k.sealed ==> search_dir(k, dir, s) is Resolved,
        search_dir(k, dir, s) matches Outcome::Need(q) ==> k.lacks(q) && !(q is Source),
{
    let package = joined(joined(dir, "node_modules"@), s);
    first_hit_stands(k, more, candidates(joined(joined(dir, "node_modules/@types/node"@), s)));
    first_hit_stands(k, more, candidates(joined(joined(dir, "node_modules/@types"@), s)));
    redirected_stands(k, more, package);
    first_hit_stands(k, more, candidates(package));
}

/// What `search_up` answers once more is known, where it found its answer.
proof fn search_up_stands(k: Knowledge, more: Knowledge, dir: Seq<Part>, s: Seq<char>)
    requires
        more.extends(k),
    ensures
        search_up(k, dir, s) is Resolved ==> search_up(more, dir, s) == search_up(k, dir, s),
        search_up(k, dir, s) matches Outcome::Resolved(Some(c)) ==> targets(k).contains(c),
        k.sealed ==> search_up(k, dir, s) is Resolved,
        search_up(k, dir, s) matches Outcome::Need(q) ==> k.lacks(q) && !(q is Source),
    decreases dir.len(),
{
    search_dir_stands(k, more, rendered(dir), s);
    if let Some(above) = parent_of(dir) {
        search_up_stands(k, more, above, s);
    }
}

/// Of the paths that stand for a module path, the first that names a file is
/// the answer: a path that comes later is looked at only where every path
/// before it names no file.
pub proof fn first_candidate_wins(k: Knowledge, paths: Seq<Seq<char>>, i: int, c: Seq<char>)
    requires
        0 <= i < paths.len(),
        forall|j: int| 0 <= j < i ==> k.path(#[trigger] paths[j]) == Some(None::<Seq<char>>),
        k.path(paths[i]) == Some(Some(c)),
    ensures
        first_hit(k, paths) == Outcome::Resolved(Some(c)),
    decreases paths.len(),
{
    if i > 0 {
        let rest = paths.skip(1);
        assert forall|j: int| 0 <= j < i - 1 implies k.path(#[trigger] rest[j]) == Some(
            None::<Seq<char>>,
        ) by {
            assert(rest[j] == paths[j + 1]);
        }
        assert(k.path(paths[0]) == Some(None::<Seq<char>>));
        first_candidate_wins(k, rest, i - 1, c);
    }
}

/// An import that is resolved stays resolved, and to the same file, whatever
/// more is learnt of the file system.
pub proof fn resolution_stands(k: Knowledge, more: Knowledge, file: Seq<char>, s: Seq<char>)
    requires
        more.extends(k),
        resolve(k, file, s) is Resolved,
    ensures
        resolve(more, file, s) == resolve(k, file, s),
{
    if let Some(dir) = parent_of(components_of(file)) {
        first_hit_stands(k, more, candidates(s));
        first_hit_stands(k, more, candidates(joined(rendered(dir), s)));
        search_up_stands(k, more, dir, s);
    }
}

/// Sealed knowledge resolves every import: it has no answer to wait for.
pub proof fn sealed_knowledge_resolves(k: Knowledge, file: Seq<char>, s: Seq<char>)
    requires
        k.sealed,
    ensures
        resolve(k, file, s) is Resolved,
{
    if let Some(dir) = parent_of(components_of(file)) {
        first_hit_stands(k, k, candidates(s));
        first_hit_stands(k, k, candidates(joined(rendered(dir), s)));
        search_up_stands(k, k, dir, s);
    }
}

/// The file that an import resolves to is one whose canonical path the file
/// system gave as an answer.
pub proof fn resolution_is_an_answer(k: Knowledge, file: Seq<char>, s: Seq<char>, c: Seq<char>)
    requires
        resolve(k, file, s) == Outcome::Resolved(Some(c)),
    ensures
        targets(k).contains(c),
{
    if let Some(dir) = parent_of(components_of(file)) {
        first_hit_stands(k, k, candidates(s));
        first_hit_stands(k, k, candidates(joined(rendered(dir), s)));
        search_up_stands(k, k, dir, s);
    }
}

/// What a resolution waits for is not known yet, and is never the reading of
/// a file.
pub proof fn need_is_open(k: Knowledge, file: Seq<char>, s: Seq<char>)
    ensures
        resolve(k, file, s) matches Outcome::Need(q) ==> k.lacks(q) && !(q is Source),
{
    if let Some(dir) = parent_of(components_of(file)) {
        first_hit_stands(k, k, candidates(s));
        first_hit_stands(k, k, candidates(joined(rendered(dir), s)));
        search_up_stands(k, k, dir, s);
    }
}

/// A specifier that starts with `/` resolves to the same file in every
/// importing file that has a directory: the place of the importing file plays
/// no part.
pub proof fn absolute_ignores_importer(k: Knowledge, a: Seq<char>, b: Seq<char>, s: Seq<char>)
    requires
        "/"@.is_prefix_of(s),
        parent_of(components_of(a)) is Some,
        parent_of(components_of(b)) is Some,
    ensures
        resolve(k, a, s) == resolve(k, b, s),
        resolve(k, a, s) == probe_file(k, s),
{
    if is_core(s) {
        core_names_are_plain(s);
    }
}

/// A specifier that starts with `#` resolves to no file, whatever the file
/// system holds.
pub proof fn subpath_is_unresolved(k: Knowledge, file: Seq<char>, s: Seq<char>)
    requires
        "#"@.is_prefix_of(s),
    ensures
        resolve(k, file, s) == Outcome::Resolved(None),
{
    if is_core(s) {
        core_names_are_plain(s);
    }
    reveal_strlit("#");
    reveal_strlit("/");
    reveal_strlit("./");
    reveal_strlit("../");
    assert("#"@[0] == '#' && "/"@[0] == '/' && "./"@[0] == '.' && "../"@[0] == '.');
    assert(s.subrange(0, 1)[0] == s[0]);
    if "/"@.is_prefix_of(s) {
        assert(s.subrange(0, 1)[0] == s[0]);
    }
    if "./"@.is_prefix_of(s) {
        assert(s.subrange(0, 2)[0] == s[0]);
    }
    if "../"@.is_prefix_of(s) {
        assert(s.subrange(0, 3)[0] == s[0]);
    }
}

impl Answer {
    /// Whether `self` says that no file was found.
    fn found_nothing(&self) -> (r: bool)
        ensures
            r == (self@ == Outcome::Resolved(None)),
    {
        match self {
            Answer::Resolved(None) => true,
            _ => false,
        }
    }
}

/// The file that the module path `p` names: the first of `candidates(p)`
/// that the file system knows.
pub fn find_file(fs: &Snapshot, p: &str) -> (r: Answer)
    ensures
        r@ == probe_file(fs@, p@),
{
    let mut paths: Vec<String> = Vec::new();
    if has_suffix(p, ".ts") || has_suffix(p, ".d.ts") {
        paths.push(String::from_str(p));
    }
    paths.push(chain(p, ".ts"));
    paths.push(chain(p, ".d.ts"));
    paths.push(chain(p, "/index.ts"));
    paths.push(chain(p, "/index.d.ts"));
    assert(paths.deep_view() =~= candidates(p@));
    let ghost all = paths.deep_view();
    let mut i: usize = 0;
    assert(all.skip(0) =~= all);
    while i < paths.len()
        invariant
            i <= paths.len(),
            all == paths.deep_view(),
            all == candidates(p@),
            first_hit(fs@, all) == first_hit(fs@, all.skip(i as int)),
        decreases paths.len() - i,
    {
        assert(all.skip(i as int)[0] == paths[i as int]@);
        assert(all.skip(i as int).skip(1) =~= all.skip(i + 1));
        match fs.path(paths[i].as_str()) {
            None => {
                return Answer::Need(Request::Path(paths[i].clone()));
            },
            Some(Some(canonical)) => {
                return Answer::Resolved(Some(canonical.clone()));
            },
            Some(None) => {},
        }
        i = i + 1;
    }
    Answer::Resolved(None)
}

/// The file that the manifest of the package directory `p` sends to.
pub fn analyze_package_json(fs: &Snapshot, p: &str) -> (r: Answer)
    ensures
        r@ == redirected(fs@, p@),
{
    match fs.manifest(p) {
        None => Answer::Need(Request::Manifest(String::from_str(p))),
        Some(None) => Answer::Resolved(None),
        Some(Some(manifest)) => match manifest.redirect() {
            None => Answer::Resolved(None),
            Some(target) => {
                let below = chain3(p, "/", target.as_str());
                find_file(fs, below.as_str())
            },
        },
    }
}

/// The file that the bare specifier `s` names in the `node_modules` of `dir`.
fn search_in(fs: &Snapshot, dir: &str, s: &str) -> (r: Answer)
    ensures
        r@ == search_dir(fs@, dir@, s@),
{
    let platform = join(join(dir, "node_modules/@types/node").as_str(), s);
    let found = find_file(fs, platform.as_str());
    if !found.found_nothing() {
        return found;
    }
    let declared = join(join(dir, "node_modules/@types").as_str(), s);
    let found = find_file(fs, declared.as_str());
    if !found.found_nothing() {
        return found;
    }
    let package = join(join(dir, "node_modules").as_str(), s);
    let found = analyze_package_json(fs, package.as_str());
    if !found.found_nothing() {
        return found;
    }
    find_file(fs, package.as_str())
}

/// The file that the bare specifier `s` names, searched for in the
/// `node_modules` of the directory with components `dir` and of each
/// directory above it, nearest first.
fn search_above(fs: &Snapshot, dir: Vec<Component>, s: &str) -> (r: Answer)
    ensures
        r@ == search_up(fs@, dir.deep_view(), s@),
{
    let mut at = dir;
    loop
        invariant
            search_up(fs@, dir.deep_view(), s@) == search_up(fs@, at.deep_view(), s@),
        decreases at.len(),
    {
        let here = render(&at);
        let found = search_in(fs, here.as_str(), s);
        if !found.found_nothing() {
            return found;
        }
        let ghost before = at.deep_view();
        match at.pop() {
            None => {
                return found;
            },
            Some(Component::RootDir) => {
                return found;
            },
            Some(_) => {
                assert(at.deep_view() =~= before.drop_last());
            },
        }
    }
}

/// The file that the bare specifier `s` names, searched for in the
/// `node_modules` of `dir` and of each directory above it, nearest first.
pub fn search_node_modules(fs: &Snapshot, dir: &str, s: &str) -> (r: Answer)
    ensures
        r@ == search_up(fs@, components_of(dir@), s@),
{
    search_above(fs, components(dir), s)
}

/// Whether `s` is the name of a module that comes with the platform.
pub fn is_core_module(s: &str) -> (r: bool)
    ensures
        r == is_core(s@),
{
    same_text(s, "assert") || same_text(s, "async_hooks") || same_text(s, "buffer") ||
    same_text(s, "child_process") || same_text(s, "cluster") || same_text(s, "console") ||
    same_text(s, "constants") || same_text(s, "crypto") || same_text(s, "dgram") ||
    same_text(s, "dns") || same_text(s, "domain") || same_text(s, "events") ||
    same_text(s, "fs") || same_text(s, "http") || same_text(s, "https") ||
    same_text(s, "http2") || same_text(s, "inspector") || same_text(s, "net") ||
    same_text(s, "os") || same_text(s, "path") || same_text(s, "perf_hooks") ||
    same_text(s, "process") || same_text(s, "punycode") || same_text(s, "querystring") ||
    same_text(s, "readline") || same_text(s, "repl") || same_text(s, "stream") ||
    same_text(s, "string_decoder") || same_text(s, "timers") || same_text(s, "tls") ||
    same_text(s, "tty") || same_text(s, "url") || same_text(s, "util") || same_text(s, "v8") ||
    same_text(s, "vm") || same_text(s, "zlib")
}

/// What the specifier `s` is.
pub fn classify(s: &str) -> (r: Kind)
    ensures
        r == kind_of(s@),
{
    if is_core_module(s) {
        Kind::Core
    } else if has_prefix(s, "/") {
        Kind::Absolute
    } else if has_prefix(s, "./") || has_prefix(s, "../") {
        Kind::Relative
    } else if has_prefix(s, "#") {
        Kind::Subpath
    } else {
        Kind::Bare
    }
}

/// The file of the built-in module `s`. The modules that come with the
/// platform have no file of their own, so the answer is always `None`:
/// their names are searched for like those of packages.
pub fn get_core_module(s: &str) -> (r: Option<String>)
    ensures
        r is None,
{
    None
}

/// The file that the specifier `s` names in the file `file`.
pub fn find(fs: &Snapshot, file: &str, s: &str) -> (r: Answer)
    ensures
        r@ == resolve(fs@, file@, s@),
{
    let mut dir = components(file);
    let ghost whole = dir.deep_view();
    match dir.pop() {
        None => {
            return Answer::Resolved(None);
        },
        Some(Component::RootDir) => {
            return Answer::Resolved(None);
        },
        Some(_) => {},
    }
    assert(dir.deep_view() =~= whole.drop_last());
    match classify(s) {
        Kind::Core => match get_core_module(s) {
            Some(module) => Answer::Resolved(Some(module)),
            None => search_above(fs, dir, s),
        },
        Kind::Absolute => find_file(fs, s),
        Kind::Relative => {
            let below = join(render(&dir).as_str(), s);
            find_file(fs, below.as_str())
        },
        Kind::Subpath => Answer::Resolved(None),
        Kind::Bare => search_above(fs, dir, s),
    }
}

} // verus!
