//! What is known of the file system.
//!
//! The library reads no file. It works from a `Snapshot`: the answers that
//! the file system, and the parser, have given so far. A function that
//! needs an answer the snapshot does not hold says which one, and its caller
//! gets it, records it and calls again. A sealed snapshot holds all there
//! is: what it was not told does not exist.

use crate::typescript::parser::{Reading, Source};
use crate::typescript::table::{recorded, Table};
use vstd::prelude::*;

verus! {

/// What a package manifest declares, as the contracts speak of it.
pub struct Descriptor {
    /// The `types` field.
    pub types: Option<Seq<char>>,
    /// The `typings` field.
    pub typings: Option<Seq<char>>,
}

/// What a package manifest declares: the two fields that can name the file
/// holding the package's type declarations.
#[derive(Clone, Debug, PartialEq, Eq)]
pub struct PackageDescriptor {
    /// The `types` field.
    pub types: Option<String>,
    /// The `typings` field.
    pub typings: Option<String>,
}

impl View for PackageDescriptor {
    type V = Descriptor;

    open spec fn view(&self) -> Descriptor {
        Descriptor { types: self.types.deep_view(), typings: self.typings.deep_view() }
    }
}

impl DeepView for PackageDescriptor {
    type V = Descriptor;

    open spec fn deep_view(&self) -> Descriptor {
        self@
    }
}

/// Where a manifest sends the resolver: `types` if it is there and not
/// empty, else `typings` if that is there and not empty.
pub open spec fn redirect_of(d: Descriptor) -> Option<Seq<char>> {
    if d.types is Some && d.types->0.len() > 0 {
        d.types
    } else if d.typings is Some && d.typings->0.len() > 0 {
        d.typings
    } else {
        None
    }
}

impl PackageDescriptor {
    /// Where this manifest sends the resolver, if anywhere.
    pub fn redirect(&self) -> (r: Option<&String>)
        ensures
            r.deep_view() == redirect_of(self@),
    {
        if let Some(t) = &self.types {
            if t.as_str().unicode_len() > 0 {
                return Some(t);
            }
        }
        if let Some(t) = &self.typings {
            if t.as_str().unicode_len() > 0 {
                return Some(t);
            }
        }
        None
    }
}

/// A question to the file system, as the contracts speak of it.
pub enum Query {
    /// The canonical path of the file that this path names.
    Path(Seq<char>),
    /// What the manifest of this package directory declares.
    Manifest(Seq<char>),
    /// What becomes of reading and parsing the file with this path.
    Source(Seq<char>),
}

/// A question to the file system.
#[derive(Clone, Debug, PartialEq, Eq)]
pub enum Request {
    /// The canonical path of the file that this path names.
    Path(String),
    /// What the manifest of this package directory declares.
    Manifest(String),
    /// What becomes of reading and parsing the file with this path.
    Source(String),
}

impl View for Request {
    type V = Query;

    open spec fn view(&self) -> Query {
        match self {
            Request::Path(probe) => Query::Path(probe@),
            Request::Manifest(dir) => Query::Manifest(dir@),
            Request::Source(path) => Query::Source(path@),
        }
    }
}

/// The state of knowledge about a file system, as the contracts speak of it.
pub struct Knowledge {
    /// For each path that was asked about: the canonical path of the file
    /// that it names, or `None` where it names no file.
    pub paths: Map<Seq<char>, Option<Seq<char>>>,
    /// For each package directory that was asked about: what its manifest
    /// declares, or `None` where it has no readable manifest.
    pub manifests: Map<Seq<char>, Option<Descriptor>>,
    /// For each file that was asked for: what became of reading and parsing
    /// it.
    pub sources: Map<Seq<char>, Reading>,
    /// All there is has been recorded.
    pub sealed: bool,
}

/// What a map of answers, sealed or not, says of `key`: `None` where nothing
/// is known, else the answer, `absent` being the answer of a sealed map for
/// what it was not told.
pub open spec fn known<V>(answers: Map<Seq<char>, V>, sealed: bool, absent: V, key: Seq<char>)
    -> Option<V> {
    if answers.dom().contains(key) {
        Some(answers[key])
    } else if sealed {
        Some(absent)
    } else {
        None
    }
}

impl Knowledge {
    /// Nothing known.
    pub open spec fn nothing() -> Knowledge {
        Knowledge {
            paths: Map::empty(),
            manifests: Map::empty(),
            sources: Map::empty(),
            sealed: false,
        }
    }

    /// What is known of the path `probe`.
    pub open spec fn path(self, probe: Seq<char>) -> Option<Option<Seq<char>>> {
        known(self.paths, self.sealed, None, probe)
    }

    /// What is known of the manifest of the package directory `dir`.
    pub open spec fn manifest(self, dir: Seq<char>) -> Option<Option<Descriptor>> {
        known(self.manifests, self.sealed, None, dir)
    }

    /// What is known of the file `path`: what became of reading and parsing
    /// it.
    pub open spec fn source(self, path: Seq<char>) -> Option<Reading> {
        known(self.sources, self.sealed, Reading::Unreadable, path)
    }

    /// Whether `self` holds no answer to `q`.
    pub open spec fn lacks(self, q: Query) -> bool {
        match q {
            Query::Path(probe) => self.path(probe) is None,
            Query::Manifest(dir) => self.manifest(dir) is None,
            Query::Source(path) => self.source(path) is None,
        }
    }

    /// `self` once it is recorded that the path `probe` names `canonical`.
    /// Nothing is added to sealed knowledge.
    pub open spec fn with_path(self, probe: Seq<char>, canonical: Option<Seq<char>>) -> Knowledge {
        if self.sealed {
            self
        } else {
            Knowledge { paths: recorded(self.paths, probe, canonical), ..self }
        }
    }

    /// `self` once it is recorded what the manifest of `dir` declares.
    /// Nothing is added to sealed knowledge.
    pub open spec fn with_manifest(self, dir: Seq<char>, manifest: Option<Descriptor>)
        -> Knowledge {
        if self.sealed {
            self
        } else {
            Knowledge { manifests: recorded(self.manifests, dir, manifest), ..self }
        }
    }

    /// `self` once it is recorded what became of the file `path`. Nothing
    /// is added to sealed knowledge.
    pub open spec fn with_source(self, path: Seq<char>, source: Reading) -> Knowledge {
        if self.sealed {
            self
        } else {
            Knowledge { sources: recorded(self.sources, path, source), ..self }
        }
    }

    /// Whatever `base` knows, `self` knows too, and the same of it.
    pub open spec fn extends(self, base: Knowledge) -> bool {
        &&& forall|p: Seq<char>| #[trigger] base.path(p) is Some ==> self.path(p) == base.path(p)
        &&& forall|d: Seq<char>| #[trigger]
            base.manifest(d) is Some ==> self.manifest(d) == base.manifest(d)
        &&& forall|p: Seq<char>| #[trigger]
            base.source(p) is Some ==> self.source(p) == base.source(p)
    }
}

/// Recording an answer, or sealing, takes nothing back: all that was known
/// before is known after, and the same of it.
pub proof fn recording_extends(k: Knowledge, key: Seq<char>)
    ensures
        forall|canonical: Option<Seq<char>>| #[trigger] k.with_path(key, canonical).extends(k),
        forall|manifest: Option<Descriptor>| #[trigger] k.with_manifest(key, manifest).extends(k),
        forall|source: Reading| #[trigger] k.with_source(key, source).extends(k),
        (Knowledge { sealed: true, ..k }).extends(k),
{
}

/// The canonical paths that `k` holds as answers.
pub open spec fn targets(k: Knowledge) -> Set<Seq<char>> {
    Set::new(
        |c: Seq<char>|
            exists|p: Seq<char>| k.paths.dom().contains(p) && #[trigger] k.paths[p] == Some(c),
    )
}

/// The files among `records`.
spec fn named(records: Seq<Option<Seq<char>>>) -> Set<Seq<char>>
    decreases records.len(),
{
    if records.len() == 0 {
        Set::empty()
    } else {
        match records.last() {
            Some(c) => named(records.drop_last()).insert(c),
            None => named(records.drop_last()),
        }
    }
}

proof fn named_are_few(records: Seq<Option<Seq<char>>>)
    ensures
        named(records).finite(),
        forall|i: int|
            0 <= i < records.len() && (#[trigger] records[i]) is Some ==> named(records).contains(
                records[i]->0,
            ),
    decreases records.len(),
{
    if records.len() > 0 {
        let before = records.drop_last();
        named_are_few(before);
        assert forall|i: int|
            0 <= i < records.len() && (#[trigger] records[i]) is Some implies named(
            records,
        ).contains(records[i]->0) by {
            if i < before.len() {
                assert(before[i] == records[i]);
            }
        }
    }
}

/// The answers recorded of a file system.
pub struct Snapshot {
    paths: Table<Option<String>>,
    manifests: Table<Option<PackageDescriptor>>,
    sources: Table<Source>,
    sealed: bool,
}

impl View for Snapshot {
    type V = Knowledge;

    closed spec fn view(&self) -> Knowledge {
        Knowledge {
            paths: self.paths@,
            manifests: self.manifests@,
            sources: self.sources@,
            sealed: self.sealed,
        }
    }
}

impl Snapshot {
    /// A snapshot that knows nothing yet.
    pub fn new() -> (r: Snapshot)
        ensures
            r@ == Knowledge::nothing(),
    {
        Snapshot {
            paths: Table::new(),
            manifests: Table::new(),
            sources: Table::new(),
            sealed: false,
        }
    }

    /// Declares the snapshot complete: from now on, a path, manifest or
    /// source that it was not told of does not exist.
    pub fn seal(&mut self)
        ensures
            final(self)@ == (Knowledge { sealed: true, ..old(self)@ }),
    {
        self.sealed = true;
    }

    /// Whether the snapshot was declared complete.
    pub fn is_sealed(&self) -> (r: bool)
        ensures
            r == self@.sealed,
    {
        self.sealed
    }

    /// Records that the path `probe` names the file whose canonical path is
    /// `canonical`, or no file. An answer recorded earlier for `probe`
    /// stands, and a sealed snapshot takes no more answers.
    pub fn record_path(&mut self, probe: &str, canonical: Option<String>)
        ensures
            final(self)@ == old(self)@.with_path(probe@, canonical.deep_view()),
    {
        if !self.sealed {
            self.paths.record(probe, canonical);
        }
    }

    /// Records what the manifest of the package directory `dir` declares, or
    /// that it has no readable manifest. An answer recorded earlier for
    /// `dir` stands, and a sealed snapshot takes no more answers.
    pub fn record_manifest(&mut self, dir: &str, manifest: Option<PackageDescriptor>)
        ensures
            final(self)@ == old(self)@.with_manifest(dir@, manifest.deep_view()),
    {
        if !self.sealed {
            self.manifests.record(dir, manifest);
        }
    }

    /// Records what became of reading and parsing the file `path`. An
    /// answer recorded earlier for `path` stands, and a sealed snapshot takes
    /// no more answers.
    pub fn record_source(&mut self, path: &str, source: Source)
        ensures
            final(self)@ == old(self)@.with_source(path@, source@),
    {
        if !self.sealed {
            self.sources.record(path, source);
        }
    }

    /// The canonical paths that the snapshot holds are finitely many.
    pub proof fn targets_are_finite(&self)
        ensures
            targets(self@).finite(),
    {
        let records = self.paths.records();
        named_are_few(records);
        assert forall|c: Seq<char>| targets(self@).contains(c) implies named(records).contains(
            c,
        ) by {
            let p = choose|p: Seq<char>|
                self@.paths.dom().contains(p) && #[trigger] self@.paths[p] == Some(c);
            self.paths.answers_are_records(p);
            let i = choose|i: int| 0 <= i < records.len() && records[i] == Some(c);
            assert(records[i] is Some);
        }
        vstd::set_lib::lemma_len_subset(targets(self@), named(records));
    }

    /// What is known of the path `probe`: `None` where nothing is; else the
    /// canonical path of the file that it names, if it names one.
    pub fn path(&self, probe: &str) -> (r: Option<Option<&String>>)
        ensures
            r.deep_view() == self@.path(probe@),
    {
        match self.paths.get(probe) {
            Some(found) => Some(found.as_ref()),
            None => if self.sealed {
                Some(None)
            } else {
                None
            },
        }
    }

    /// What is known of the manifest of the package directory `dir`: `None`
    /// where nothing is; else what it declares, if it can be read.
    pub fn manifest(&self, dir: &str) -> (r: Option<Option<&PackageDescriptor>>)
        ensures
            r.deep_view() == self@.manifest(dir@),
    {
        match self.manifests.get(dir) {
            Some(found) => Some(found.as_ref()),
            None => if self.sealed {
                Some(None)
            } else {
                None
            },
        }
    }

    /// What is known of the file `path`: `None` where nothing is; else what
    /// became of reading and parsing it, `None` standing for a file that
    /// could not be read because a sealed snapshot was not told of it.
    pub fn source(&self, path: &str) -> (r: Option<Option<&Source>>)
        ensures
            self@.source(path@) == (match r {
                None => None,
                Some(None) => Some(Reading::Unreadable),
                Some(Some(source)) => Some(source@),
            }),
    {
        match self.sources.get(path) {
            Some(found) => Some(Some(found)),
            None => if self.sealed {
                Some(None)
            } else {
                None
            },
        }
    }
}

} // verus!
