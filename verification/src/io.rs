//! Decisions around files and paths. Lexical resolution: `.` and `..` are
//! resolved on the text of the path alone, without asking the file system.

use vstd::prelude::*;
use vstd::string::*;

verus! {

/// Whether a write put out all the bytes that it was given: a short write is
/// a failure of the caller's operation.
pub fn written_in_full(expected: usize, written: usize) -> (r: bool)
    ensures
        r == (expected == written),
{
    expected == written
}

/// One component of a path.
pub enum PathPart {
    /// The root directory: whatever came before is dropped.
    Root,
    /// `.`
    Current,
    /// `..`
    Parent,
    /// An ordinary name.
    Name(String),
}

/// The mathematical content of a [`PathPart`].
pub enum PathPartView {
    Root,
    Current,
    Parent,
    Name(Seq<char>),
}

impl View for PathPart {
    type V = PathPartView;

    open spec fn view(&self) -> PathPartView {
        match self {
            PathPart::Root => PathPartView::Root,
            PathPart::Current => PathPartView::Current,
            PathPart::Parent => PathPartView::Parent,
            PathPart::Name(name) => PathPartView::Name(name@),
        }
    }
}

/// The names below the root after one more component: `.` changes nothing,
/// `..` drops the last name (and stays at the root where there is none), the
/// root drops every name, and a name is added at the end.
pub open spec fn entered(names: Seq<Seq<char>>, part: PathPartView) -> Seq<Seq<char>> {
    match part {
        PathPartView::Root => Seq::empty(),
        PathPartView::Current => names,
        PathPartView::Parent => if names.len() > 0 {
            names.drop_last()
        } else {
            names
        },
        PathPartView::Name(name) => names.push(name),
    }
}

/// The names below the root after the first `count` components of `parts`.
pub open spec fn resolved(names: Seq<Seq<char>>, parts: Seq<PathPartView>, count: nat) -> Seq<
    Seq<char>,
>
    decreases count,
{
    if count == 0 {
        names
    } else {
        entered(resolved(names, parts, (count - 1) as nat), parts[count - 1])
    }
}

/// The texts of `names`.
pub open spec fn texts(names: Seq<String>) -> Seq<Seq<char>> {
    Seq::new(names.len(), |i: int| names[i]@)
}

/// The contents of `parts`.
pub open spec fn contents(parts: Seq<PathPart>) -> Seq<PathPartView> {
    Seq::new(parts.len(), |i: int| parts[i]@)
}

/// Resolves `parts` one after another, starting from the directory whose
/// names below the root are `base`, and returns the names of the result.
pub fn resolve_parts(base: Vec<String>, parts: &Vec<PathPart>) -> (names: Vec<String>)
    ensures
        texts(names@) == resolved(texts(base@), contents(parts@), parts@.len()),
{
    let mut names = base;
    let mut i: usize = 0;
    while i < parts.len()
        invariant
            i <= parts@.len(),
            texts(names@) == resolved(texts(base@), contents(parts@), i as nat),
        decreases parts@.len() - i,
    {
        let ghost before = texts(names@);
        match &parts[i] {
            PathPart::Root => {
                names = Vec::new();
            },
            PathPart::Current => {},
            PathPart::Parent => {
                if names.len() > 0 {
                    names.pop();
                }
            },
            PathPart::Name(name) => {
                names.push(name.clone());
            },
        }
        proof {
            assert(contents(parts@)[i as int] == parts@[i as int]@);
            assert(texts(names@) =~= entered(before, parts@[i as int]@));
        }
        i += 1;
    }
    names
}

/// Every name of `names`, each behind a `/`.
pub open spec fn slashed(names: Seq<Seq<char>>) -> Seq<char>
    decreases names.len(),
{
    if names.len() == 0 {
        Seq::empty()
    } else {
        slashed(names.drop_last()) + "/"@ + names.last()
    }
}

/// The text of the absolute path whose names below the root are `names`: `/`
/// for the root itself.
pub open spec fn path_text(names: Seq<Seq<char>>) -> Seq<char> {
    if names.len() == 0 {
        "/"@
    } else {
        slashed(names)
    }
}

/// Writes the absolute path whose names below the root are `names`.
pub fn absolute_path(names: &Vec<String>) -> (path: String)
    ensures
        path@ == path_text(texts(names@)),
{
    if names.len() == 0 {
        return String::from_str("/");
    }
    let mut path = String::new();
    let mut i: usize = 0;
    assert(texts(names@).subrange(0, 0) =~= Seq::<Seq<char>>::empty());
    while i < names.len()
        invariant
            i <= names@.len(),
            path@ == slashed(texts(names@).subrange(0, i as int)),
        decreases names@.len() - i,
    {
        path.append("/");
        path.append(names[i].as_str());
        proof {
            let upto = texts(names@).subrange(0, i + 1);
            assert(upto.drop_last() =~= texts(names@).subrange(0, i as int));
            assert(upto.last() == names@[i as int]@);
        }
        i += 1;
    }
    assert(texts(names@).subrange(0, names@.len() as int) =~= texts(names@));
    path
}

} // verus!
