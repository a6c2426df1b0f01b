//! Paths as text: how a POSIX path falls into components, how components
//! make a path again, and what the directory above a path is.
//!
//! A path is a string. Its meaning is the sequence of its components, which
//! `components_of` defines; every function here is stated against that
//! sequence, so that none of them depends on how a path happens to be spelled.

use crate::text::{chain, chain3, chars_of, same_text};
use vstd::prelude::*;

verus! {

/// One component of a path, as the contracts speak of it.
pub enum Part {
    /// The root directory, which only an absolute path starts with.
    RootDir,
    /// A `.` at the start of a relative path.
    CurDir,
    /// A `..`.
    ParentDir,
    /// A file or directory name.
    Normal(Seq<char>),
}

/// One component of a path.
#[derive(Clone, Debug, PartialEq, Eq)]
pub enum Component {
    /// The root directory, which only an absolute path starts with.
    RootDir,
    /// A `.` at the start of a relative path.
    CurDir,
    /// A `..`.
    ParentDir,
    /// A file or directory name.
    Normal(String),
}

impl View for Component {
    type V = Part;

    open spec fn view(&self) -> Part {
        match self {
            Component::RootDir => Part::RootDir,
            Component::CurDir => Part::CurDir,
            Component::ParentDir => Part::ParentDir,
            Component::Normal(name) => Part::Normal(name@),
        }
    }
}

impl DeepView for Component {
    type V = Part;

    open spec fn deep_view(&self) -> Part {
        self@
    }
}

/// The stretches of `s` between its separators: one more than `s` has
/// separators, empty ones included.
pub open spec fn pieces(s: Seq<char>) -> Seq<Seq<char>>
    decreases s.len(),
{
    if s.len() == 0 {
        seq![Seq::empty()]
    } else {
        let before = pieces(s.drop_last());
        if s.last() == '/' {
            before.push(Seq::empty())
        } else {
            before.update(before.len() - 1, before.last().push(s.last()))
        }
    }
}

/// The component that one piece of a path stands for, if it stands for any.
/// Empty pieces stand for nothing, and so does a `.` unless it is `leading`,
/// that is, the first piece of a relative path.
pub open spec fn part_of(piece: Seq<char>, leading: bool) -> Option<Part> {
    if piece.len() == 0 {
        None
    } else if piece == seq!['.'] {
        if leading {
            Some(Part::CurDir)
        } else {
            None
        }
    } else if piece == seq!['.', '.'] {
        Some(Part::ParentDir)
    } else {
        Some(Part::Normal(piece))
    }
}

/// The components that a sequence of pieces stands for. `relative` says that
/// the pieces are those of a relative path.
pub open spec fn parts_of(ps: Seq<Seq<char>>, relative: bool) -> Seq<Part>
    decreases ps.len(),
{
    if ps.len() == 0 {
        Seq::empty()
    } else {
        let before = parts_of(ps.drop_last(), relative);
        match part_of(ps.last(), relative && ps.len() == 1) {
            Some(part) => before.push(part),
            None => before,
        }
    }
}

/// Whether the path `s` starts at the root directory.
pub open spec fn is_absolute(s: Seq<char>) -> bool {
    s.len() > 0 && s[0] == '/'
}

/// The components of the path `s`. Repeated and trailing separators count
/// for nothing, and neither does a `.` anywhere but at the start of a
/// relative path.
pub open spec fn components_of(s: Seq<char>) -> Seq<Part> {
    if is_absolute(s) {
        seq![Part::RootDir] + parts_of(pieces(s), false)
    } else {
        parts_of(pieces(s), true)
    }
}

/// How one component is written.
pub open spec fn text_of(part: Part) -> Seq<char> {
    match part {
        Part::RootDir => seq!['/'],
        Part::CurDir => seq!['.'],
        Part::ParentDir => seq!['.', '.'],
        Part::Normal(name) => name,
    }
}

/// The path `base` with `rel` below it. An absolute `rel` stands for itself.
pub open spec fn joined(base: Seq<char>, rel: Seq<char>) -> Seq<char> {
    if is_absolute(rel) {
        rel
    } else if base.len() == 0 || base.last() == '/' {
        base + rel
    } else {
        base + seq!['/'] + rel
    }
}

/// The path that a sequence of components spells.
pub open spec fn rendered(parts: Seq<Part>) -> Seq<char>
    decreases parts.len(),
{
    if parts.len() == 0 {
        Seq::empty()
    } else {
        joined(rendered(parts.drop_last()), text_of(parts.last()))
    }
}

/// The components of the directory above a path with components `parts`.
/// The root directory and the empty path have nothing above them.
pub open spec fn parent_of(parts: Seq<Part>) -> Option<Seq<Part>> {
    if parts.len() > 0 && !(parts.last() is RootDir) {
        Some(parts.drop_last())
    } else {
        None
    }
}

/// The last component of a path, where that is a name; else the empty text.
pub open spec fn file_name_of(parts: Seq<Part>) -> Seq<char> {
    if parts.len() > 0 {
        match parts.last() {
            Part::Normal(name) => name,
            _ => Seq::empty(),
        }
    } else {
        Seq::empty()
    }
}

/// Cuts `path` at every separator.
pub fn split(path: &str) -> (r: Vec<String>)
    ensures
        r.deep_view() == pieces(path@),
{
    let chars = chars_of(path);
    let n = chars.len();
    let mut done: Vec<String> = Vec::new();
    let mut start: usize = 0;
    let mut i: usize = 0;
    assert(path@.take(0) =~= Seq::<char>::empty());
    assert(pieces(path@.take(0)) =~= done.deep_view().push(path@.subrange(0, 0)));
    while i < n
        invariant
            n == path@.len(),
            chars@ == path@,
            start <= i <= n,
            pieces(path@.take(i as int)) == done.deep_view().push(
                path@.subrange(start as int, i as int),
            ),
        decreases n - i,
    {
        let c = chars[i];
        let ghost seen = path@.take(i as int);
        let ghost next = path@.take(i + 1);
        assert(next.drop_last() =~= seen);
        assert(next.last() == c);
        if c == '/' {
            let piece = String::from_str(path.substring_char(start, i));
            let ghost before = done.deep_view();
            done.push(piece);
            assert(done.deep_view() =~= before.push(path@.subrange(start as int, i as int)));
            start = i + 1;
            assert(path@.subrange(start as int, start as int) =~= Seq::<char>::empty());
        } else {
            assert(path@.subrange(start as int, i + 1) =~= path@.subrange(
                start as int,
                i as int,
            ).push(c));
            assert(pieces(next) =~= done.deep_view().push(path@.subrange(start as int, i + 1)));
        }
        i = i + 1;
    }
    assert(path@.take(n as int) =~= path@);
    let piece = String::from_str(path.substring_char(start, n));
    let ghost before = done.deep_view();
    done.push(piece);
    assert(done.deep_view() =~= before.push(path@.subrange(start as int, n as int)));
    done
}

/// The component that `piece` stands for, if any.
fn component_of(piece: &str, leading: bool) -> (r: Option<Component>)
    ensures
        r.deep_view() == part_of(piece@, leading),
{
    proof {
        reveal_strlit(".");
        reveal_strlit("..");
        assert("."@ =~= seq!['.']);
        assert(".."@ =~= seq!['.', '.']);
    }
    if piece.unicode_len() == 0 {
        None
    } else if same_text(piece, ".") {
        if leading {
            Some(Component::CurDir)
        } else {
            None
        }
    } else if same_text(piece, "..") {
        Some(Component::ParentDir)
    } else {
        Some(Component::Normal(String::from_str(piece)))
    }
}

/// Whether `path` starts at the root directory.
pub fn starts_at_root(path: &str) -> (r: bool)
    ensures
        r == is_absolute(path@),
{
    path.unicode_len() > 0 && path.get_char(0) == '/'
}

/// The components of `path`.
pub fn components(path: &str) -> (r: Vec<Component>)
    ensures
        r.deep_view() == components_of(path@),
{
    let absolute = starts_at_root(path);
    let ps = split(path);
    let mut out: Vec<Component> = Vec::new();
    if absolute {
        out.push(Component::RootDir);
    }
    let ghost lead: Seq<Part> = if absolute {
        seq![Part::RootDir]
    } else {
        Seq::empty()
    };
    let ghost all = ps.deep_view();
    let mut i: usize = 0;
    assert(all.take(0) =~= Seq::<Seq<char>>::empty());
    assert(out.deep_view() =~= lead + parts_of(all.take(0), !absolute));
    while i < ps.len()
        invariant
            i <= ps.len(),
            all == ps.deep_view(),
            out.deep_view() == lead + parts_of(all.take(i as int), !absolute),
        decreases ps.len() - i,
    {
        let ghost before = out.deep_view();
        let ghost next = all.take(i + 1);
        assert(next.drop_last() =~= all.take(i as int));
        assert(next.last() == ps[i as int]@);
        match component_of(ps[i].as_str(), !absolute && i == 0) {
            Some(c) => {
                out.push(c);
                assert(out.deep_view() =~= before.push(c@));
                assert(out.deep_view() =~= lead + parts_of(next, !absolute));
            },
            None => {},
        }
        i = i + 1;
    }
    assert(all.take(ps.len() as int) =~= all);
    out
}

/// Whether two components are the same.
pub fn same_component(a: &Component, b: &Component) -> (r: bool)
    ensures
        r == (a@ == b@),
{
    match (a, b) {
        (Component::RootDir, Component::RootDir) => true,
        (Component::CurDir, Component::CurDir) => true,
        (Component::ParentDir, Component::ParentDir) => true,
        (Component::Normal(x), Component::Normal(y)) => same_text(x.as_str(), y.as_str()),
        _ => false,
    }
}

/// The path `base` with `rel` below it.
pub fn join(base: &str, rel: &str) -> (r: String)
    ensures
        r@ == joined(base@, rel@),
{
    proof {
        reveal_strlit("/");
        assert("/"@ =~= seq!['/']);
    }
    let n = base.unicode_len();
    if starts_at_root(rel) {
        String::from_str(rel)
    } else if n == 0 || base.get_char(n - 1) == '/' {
        chain(base, rel)
    } else {
        chain3(base, "/", rel)
    }
}

/// The path that the components of `parts` from `from` up to `to` spell.
pub fn render_range(parts: &Vec<Component>, from: usize, to: usize) -> (r: String)
    requires
        from <= to <= parts.len(),
    ensures
        r@ == rendered(parts.deep_view().subrange(from as int, to as int)),
{
    proof {
        reveal_strlit("/");
        reveal_strlit(".");
        reveal_strlit("..");
        assert("/"@ =~= seq!['/']);
        assert("."@ =~= seq!['.']);
        assert(".."@ =~= seq!['.', '.']);
    }
    let ghost all = parts.deep_view();
    let mut out = String::new();
    let mut i: usize = from;
    assert(all.subrange(from as int, from as int) =~= Seq::<Part>::empty());
    while i < to
        invariant
            from <= i <= to <= parts.len(),
            all == parts.deep_view(),
            out@ == rendered(all.subrange(from as int, i as int)),
            "/"@ == seq!['/'],
            "."@ == seq!['.'],
            ".."@ == seq!['.', '.'],
        decreases to - i,
    {
        let ghost next = all.subrange(from as int, i + 1);
        assert(next.drop_last() =~= all.subrange(from as int, i as int));
        assert(next.last() == parts[i as int]@);
        out = match &parts[i] {
            Component::RootDir => join(out.as_str(), "/"),
            Component::CurDir => join(out.as_str(), "."),
            Component::ParentDir => join(out.as_str(), ".."),
            Component::Normal(name) => join(out.as_str(), name.as_str()),
        };
        i = i + 1;
    }
    out
}

/// The path that `parts` spell.
pub fn render(parts: &Vec<Component>) -> (r: String)
    ensures
        r@ == rendered(parts.deep_view()),
{
    assert(parts.deep_view().subrange(0, parts.len() as int) =~= parts.deep_view());
    render_range(parts, 0, parts.len())
}

} // verus!
