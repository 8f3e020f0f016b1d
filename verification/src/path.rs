//! Paths, as the sequence of their components.

use crate::text::{same_text, Text};
use vstd::prelude::*;
use vstd::string::*;

verus! {

/// One component of a path.
#[derive(Debug, PartialEq, Eq)]
pub enum Part {
    /// A drive or share in front of a path, where the platform has those.
    Prefix(String),
    /// The root directory.
    Root,
    /// A leading `.`.
    Current,
    /// `..`.
    Parent,
    /// A name.
    Normal(String),
    /// A name that is not Unicode: its bytes, and how it is shown.
    Foreign { bytes: Vec<u8>, shown: String },
}

/// What a component is made of.
#[verifier::ext_equal]
pub enum PartView {
    Prefix(Text),
    Root,
    Current,
    Parent,
    Normal(Text),
    Foreign { bytes: Seq<u8>, shown: Text },
}

/// A path as the sequence of its components.
pub type Parts = Seq<PartView>;

impl View for Part {
    type V = PartView;

    open spec fn view(&self) -> PartView {
        match *self {
            Part::Prefix(name) => PartView::Prefix(name@),
            Part::Root => PartView::Root,
            Part::Current => PartView::Current,
            Part::Parent => PartView::Parent,
            Part::Normal(name) => PartView::Normal(name@),
            Part::Foreign { bytes, shown } => PartView::Foreign { bytes: bytes@, shown: shown@ },
        }
    }
}

impl Clone for Part {
    fn clone(&self) -> (copy: Self)
        ensures
            copy@ == self@,
    {
        match self {
            Part::Prefix(name) => Part::Prefix(name.clone()),
            Part::Root => Part::Root,
            Part::Current => Part::Current,
            Part::Parent => Part::Parent,
            Part::Normal(name) => Part::Normal(name.clone()),
            Part::Foreign { bytes, shown } => {
                let copied = bytes.clone();
                assert(copied@ =~= bytes@);
                Part::Foreign { bytes: copied, shown: shown.clone() }
            },
        }
    }
}

/// Compares two byte strings.
fn same_bytes(a: &Vec<u8>, b: &Vec<u8>) -> (same: bool)
    ensures
        same == (a@ == b@),
{
    if a.len() != b.len() {
        return false;
    }
    let mut i: usize = 0;
    while i < a.len()
        invariant
            i <= a@.len(),
            a@.len() == b@.len(),
            forall|j: int| 0 <= j < i ==> a@[j] == b@[j],
        decreases a@.len() - i,
    {
        if a[i] != b[i] {
            return false;
        }
        i += 1;
    }
    assert(a@ =~= b@);
    true
}

impl Part {
    /// Compares two components.
    pub fn same(&self, other: &Part) -> (same: bool)
        ensures
            same == (self@ == other@),
    {
        match (self, other) {
            (Part::Prefix(a), Part::Prefix(b)) => *a == *b,
            (Part::Root, Part::Root) => true,
            (Part::Current, Part::Current) => true,
            (Part::Parent, Part::Parent) => true,
            (Part::Normal(a), Part::Normal(b)) => *a == *b,
            (
                Part::Foreign { bytes: a, shown: x },
                Part::Foreign { bytes: b, shown: y },
            ) => same_bytes(a, b) && *x == *y,
            _ => false,
        }
    }

    /// How the component is written in a path with this separator.
    pub fn shown(&self, separator: &str) -> (out: String)
        ensures
            out@ == part_text(self@, separator@),
    {
        match self {
            Part::Prefix(name) => name.clone(),
            Part::Root => separator.to_owned(),
            Part::Current => ".".to_owned(),
            Part::Parent => "..".to_owned(),
            Part::Normal(name) => name.clone(),
            Part::Foreign { bytes: _, shown } => shown.clone(),
        }
    }

    /// Tests whether the component is this name.
    pub fn is_name(&self, name: &str) -> (b: bool)
        ensures
            b == (self@ == PartView::Normal(name@)),
    {
        match self {
            Part::Normal(own) => same_text(own.as_str(), name),
            _ => false,
        }
    }
}

/// How a component is written in a path with this separator: the root directory as
/// the separator itself.
pub open spec fn part_text(part: PartView, separator: Text) -> Text {
    match part {
        PartView::Prefix(name) => name,
        PartView::Root => separator,
        PartView::Current => "."@,
        PartView::Parent => ".."@,
        PartView::Normal(name) => name,
        PartView::Foreign { bytes, shown } => shown,
    }
}

/// Whether a component is a name.
pub open spec fn is_name(part: PartView) -> bool {
    part is Normal || part is Foreign
}

/// How a path is written with some separator: its components with the separator
/// between neighbours, but none behind the root directory or a prefix.
pub open spec fn written(parts: Parts, separator: Text) -> Text
    decreases parts.len(),
{
    if parts.len() == 0 {
        Seq::empty()
    } else if parts.len() == 1 {
        part_text(parts[0], separator)
    } else {
        let head = parts.drop_last();
        written(head, separator) + (if head.last() is Root || head.last() is Prefix {
            Seq::empty()
        } else {
            separator
        }) + part_text(parts.last(), separator)
    }
}

/// The separator of a path. A platform that has prefixes resolves a folder to a path
/// with one that begins with backslashes, and writes what lies below with backslashes
/// too; Git writes slashes there as elsewhere, in a prefix and behind it. Without a
/// prefix the separator is a slash.
pub open spec fn separator_of(parts: Parts) -> Text {
    if parts.len() > 0 && parts[0] is Prefix && parts[0]->Prefix_0.len() > 0
        && parts[0]->Prefix_0[0] == '\\' {
        "\\"@
    } else {
        "/"@
    }
}

/// How a path is written that carries its own separator.
pub open spec fn path_text(parts: Parts) -> Text {
    written(parts, separator_of(parts))
}

/// What lies below a path is written behind it, with the separator of the path
/// between the two unless the path ends in the root directory or a prefix.
pub proof fn what_lies_below_is_written_behind(base: Parts, rest: Parts)
    requires
        base.len() > 0,
        rest.len() > 0,
    ensures
        path_text(base + rest) == path_text(base) + (if base.last() is Root
            || base.last() is Prefix {
            Seq::empty()
        } else {
            separator_of(base)
        }) + written(rest, separator_of(base)),
    decreases rest.len(),
{
    let whole = base + rest;
    let separator = separator_of(base);
    assert(whole[0] == base[0]);
    assert(whole.drop_last() =~= base + rest.drop_last());
    assert(whole.last() == rest.last());
    if rest.len() == 1 {
        assert(whole.drop_last() =~= base);
        assert(written(rest, separator) == part_text(rest[0], separator));
    } else {
        let front = rest.drop_last();
        what_lies_below_is_written_behind(base, front);
        assert((base + front)[0] == base[0]);
        assert(whole.drop_last().last() == front.last());
        let gap: Text = if base.last() is Root || base.last() is Prefix {
            Seq::empty()
        } else {
            separator
        };
        let last: Text = (if front.last() is Root || front.last() is Prefix {
            Seq::empty()
        } else {
            separator
        }) + part_text(rest.last(), separator);
        assert(written(whole, separator) =~= written(base + front, separator) + last);
        assert(written(rest, separator) =~= written(front, separator) + last);
        assert(written(base, separator) + gap + written(front, separator) + last =~= written(
            base,
            separator,
        ) + gap + (written(front, separator) + last));
    }
}

/// Whether `path` is `base` or lies below it.
pub open spec fn is_under(path: Parts, base: Parts) -> bool {
    base.len() <= path.len() && path.subrange(0, base.len() as int) == base
}

/// What is left of `path` behind `base`.
pub open spec fn stripped(path: Parts, base: Parts) -> Parts {
    path.skip(base.len() as int)
}

/// `tail` taken from `base` on: a tail that begins at a prefix stands for
/// itself, one that begins at the root directory keeps only a prefix of `base`,
/// and any other follows `base`.
pub open spec fn path_join(base: Parts, tail: Parts) -> Parts {
    if tail.len() > 0 && tail[0] is Prefix {
        tail
    } else if tail.len() > 0 && tail[0] is Root {
        if base.len() > 0 && base[0] is Prefix {
            seq![base[0]] + tail
        } else {
            tail
        }
    } else if base.len() > 0 && tail.len() > 0 && tail[0] is Current {
        base + tail.skip(1)
    } else {
        base + tail
    }
}

/// The name that a path ends in, where it ends in one.
pub open spec fn last_name(path: Parts) -> Option<PartView> {
    if path.len() > 0 && is_name(path.last()) {
        Some(path.last())
    } else {
        None
    }
}

/// The path above a path, where there is one.
pub open spec fn parent_of(path: Parts) -> Option<Parts> {
    if path.len() > 0 && !(path.last() is Root) && !(path.last() is Prefix) {
        Some(path.drop_last())
    } else {
        None
    }
}

/// A path.
#[derive(Debug, PartialEq, Eq)]
pub struct FsPath {
    pub parts: Vec<Part>,
}

impl View for FsPath {
    type V = Parts;

    open spec fn view(&self) -> Parts {
        self.parts@.map_values(|part: Part| part@)
    }
}

impl Clone for FsPath {
    fn clone(&self) -> (copy: Self)
        ensures
            copy@ == self@,
    {
        self.tail(0)
    }
}

/// The paths of a list.
pub open spec fn paths_of(paths: Seq<FsPath>) -> Seq<Parts> {
    paths.map_values(|path: FsPath| path@)
}

/// The path that an optional path holds.
pub open spec fn opt_path(path: Option<FsPath>) -> Option<Parts> {
    match path {
        Some(path) => Some(path@),
        None => None,
    }
}

impl FsPath {
    /// The path without components.
    pub fn empty() -> (path: FsPath)
        ensures
            path@ == Parts::empty(),
    {
        let path = FsPath { parts: Vec::new() };
        assert(path@ =~= Parts::empty());
        path
    }

    /// The path of a single name, whatever characters the name has.
    pub fn of_name(name: String) -> (path: FsPath)
        ensures
            path@ == seq![PartView::Normal(name@)],
    {
        let mut parts: Vec<Part> = Vec::new();
        parts.push(Part::Normal(name));
        let path = FsPath { parts };
        assert(path@ =~= seq![PartView::Normal(name@)]);
        path
    }

    /// The components from the `from`-th on.
    pub fn tail(&self, from: usize) -> (path: FsPath)
        requires
            from <= self@.len(),
        ensures
            path@ == self@.skip(from as int),
    {
        let mut parts: Vec<Part> = Vec::new();
        let mut i: usize = from;
        while i < self.parts.len()
            invariant
                from <= i <= self.parts@.len(),
                parts@.len() == i - from,
                forall|j: int| 0 <= j < i - from ==> (#[trigger] parts@[j])@ == self.parts@[from + j]@,
            decreases self.parts@.len() - i,
        {
            parts.push(self.parts[i].clone());
            i += 1;
        }
        let path = FsPath { parts };
        assert(path@ =~= self@.skip(from as int));
        path
    }

    /// Compares two paths.
    pub fn same(&self, other: &FsPath) -> (same: bool)
        ensures
            same == (self@ == other@),
    {
        if self.parts.len() != other.parts.len() {
            assert(self@.len() != other@.len());
            return false;
        }
        let under = self.is_under(other);
        proof {
            assert(self@.subrange(0, other@.len() as int) =~= self@);
        }
        under
    }

    /// Tests whether the path is `base` or lies below it.
    pub fn is_under(&self, base: &FsPath) -> (under: bool)
        ensures
            under == is_under(self@, base@),
    {
        if base.parts.len() > self.parts.len() {
            return false;
        }
        let mut i: usize = base.parts.len();
        while i > 0
            invariant
                i <= base.parts@.len() <= self.parts@.len(),
                forall|j: int|
                    i <= j < base.parts@.len() ==> (#[trigger] self.parts@[j])@ == base.parts@[j]@,
            decreases i,
        {
            i -= 1;
            if !self.parts[i].same(&base.parts[i]) {
                assert(self@.subrange(0, base@.len() as int)[i as int] != base@[i as int]);
                return false;
            }
        }
        assert(self@.subrange(0, base@.len() as int) =~= base@);
        true
    }

    /// What is left behind `base`, where the path is `base` or lies below it.
    pub fn strip(&self, base: &FsPath) -> (rest: Option<FsPath>)
        ensures
            opt_path(rest) == (if is_under(self@, base@) {
                Some(stripped(self@, base@))
            } else {
                None
            }),
    {
        if self.is_under(base) {
            Some(self.tail(base.parts.len()))
        } else {
            None
        }
    }

    /// `tail`, taken from this path on.
    pub fn join(&self, tail: &FsPath) -> (path: FsPath)
        ensures
            path@ == path_join(self@, tail@),
    {
        let mut parts: Vec<Part> = Vec::new();
        let mut from: usize = 0;
        if tail.parts.len() > 0 {
            match &tail.parts[0] {
                Part::Prefix(_) => {
                    return tail.clone();
                },
                Part::Root => {
                    if self.parts.len() > 0 {
                        if let Part::Prefix(_) = &self.parts[0] {
                            parts.push(self.parts[0].clone());
                            let rest = FsPath::extended(parts, tail, 0);
                            assert(tail@.skip(0) =~= tail@);
                            assert(rest@ =~= seq![self@[0]] + tail@);
                            return rest;
                        }
                    }
                    return tail.clone();
                },
                Part::Current => {
                    if self.parts.len() > 0 {
                        from = 1;
                    }
                },
                _ => {},
            }
        }
        let base = self.clone();
        let out = FsPath::extended(base.parts, tail, from);
        assert(tail@.skip(0) =~= tail@);
        out
    }

    /// Puts the components of `tail` behind those of the path.
    pub fn extend(&mut self, tail: &FsPath)
        ensures
            final(self)@ == old(self)@ + tail@,
    {
        let ghost before = self@;
        let mut i: usize = 0;
        assert(before + tail@.take(0) =~= before);
        while i < tail.parts.len()
            invariant
                i <= tail.parts@.len(),
                self@ == before + tail@.take(i as int),
            decreases tail.parts@.len() - i,
        {
            let ghost previous = self@;
            self.parts.push(tail.parts[i].clone());
            assert(self@ =~= previous.push(tail@[i as int]));
            assert(self@ =~= before + tail@.take(i + 1));
            i += 1;
        }
        assert(tail@.take(i as int) =~= tail@);
    }

    /// `parts`, followed by the components of `tail` from the `from`-th on.
    fn extended(parts: Vec<Part>, tail: &FsPath, from: usize) -> (path: FsPath)
        requires
            from <= tail@.len(),
        ensures
            path@ == (FsPath { parts })@ + tail@.skip(from as int),
    {
        let mut all = parts;
        let mut i: usize = from;
        assert((FsPath { parts })@ + tail@.subrange(from as int, from as int) =~= (FsPath {
            parts,
        })@);
        while i < tail.parts.len()
            invariant
                from <= i <= tail.parts@.len(),
                all@.map_values(|part: Part| part@) =~= (FsPath { parts })@ + tail@.subrange(
                    from as int,
                    i as int,
                ),
            decreases tail.parts@.len() - i,
        {
            let ghost before = all@;
            all.push(tail.parts[i].clone());
            assert(all@.map_values(|part: Part| part@) =~= before.map_values(
                |part: Part| part@,
            ).push(tail@[i as int]));
            i += 1;
        }
        FsPath { parts: all }
    }

    /// Tests whether the path has no components.
    pub fn is_empty(&self) -> (b: bool)
        ensures
            b == (self@.len() == 0),
    {
        self.parts.len() == 0
    }

    /// The name that the path ends in, as a path.
    pub fn name(&self) -> (name: Option<FsPath>)
        ensures
            opt_path(name) == (match last_name(self@) {
                Some(part) => Some(seq![part]),
                None => None,
            }),
    {
        let n: usize = self.parts.len();
        if n == 0 {
            return None;
        }
        let named = match &self.parts[n - 1] {
            Part::Normal(_) => true,
            Part::Foreign { .. } => true,
            _ => false,
        };
        if named {
            let out = self.tail(n - 1);
            assert(out@ =~= seq![self@.last()]);
            Some(out)
        } else {
            None
        }
    }

    /// The path above this one.
    pub fn parent(&self) -> (path: Option<FsPath>)
        ensures
            opt_path(path) == parent_of(self@),
    {
        let n: usize = self.parts.len();
        if n == 0 {
            return None;
        }
        match &self.parts[n - 1] {
            Part::Root => None,
            Part::Prefix(_) => None,
            _ => {
                let mut copy = self.clone();
                let ghost full = copy@;
                let _ = copy.parts.pop();
                assert(copy@ =~= full.drop_last());
                Some(copy)
            },
        }
    }

    /// The separator that the path is written with.
    pub fn separator(&self) -> (out: &'static str)
        ensures
            out@ == separator_of(self@),
    {
        if self.parts.len() > 0 {
            if let Part::Prefix(name) = &self.parts[0] {
                assert(self@[0] == PartView::Prefix(name@));
                let name = name.as_str();
                if name.unicode_len() > 0 && name.get_char(0) == '\\' {
                    return "\\";
                }
            }
        }
        "/"
    }

    /// How the path is written.
    pub fn display(&self) -> (out: String)
        ensures
            out@ == path_text(self@),
    {
        self.display_with(self.separator())
    }

    /// How the path is written with some separator.
    pub fn display_with(&self, separator: &str) -> (out: String)
        ensures
            out@ == written(self@, separator@),
    {
        let mut out = String::new();
        let mut i: usize = 0;
        assert(self@.take(0) =~= Parts::empty());
        while i < self.parts.len()
            invariant
                i <= self.parts@.len(),
                out@ == written(self@.take(i as int), separator@),
            decreases self.parts@.len() - i,
        {
            let ghost now = self@.take(i + 1);
            assert(now.drop_last() =~= self@.take(i as int));
            assert(now.last() == self.parts@[i as int]@);
            if i > 0 {
                assert(now.drop_last().last() == self.parts@[i - 1]@);
                match &self.parts[i - 1] {
                    Part::Root => {},
                    Part::Prefix(_) => {},
                    _ => {
                        out.append(separator);
                    },
                }
            }
            let ghost before = out@;
            out.append(self.parts[i].shown(separator).as_str());
            assert(out@ =~= written(now, separator@));
            i += 1;
        }
        assert(self@.take(self@.len() as int) =~= self@);
        out
    }
}

/// The components that the piece `text[from..to]` between two slashes stands
/// for: none for an empty one or for a dot, unless the dot begins the text.
pub open spec fn piece_parts(text: Text, from: int, to: int) -> Parts {
    let piece = text.subrange(from, to);
    if piece.len() == 0 || (piece == "."@ && from > 0) {
        Parts::empty()
    } else if piece == "."@ {
        seq![PartView::Current]
    } else if piece == ".."@ {
        seq![PartView::Parent]
    } else {
        seq![PartView::Normal(piece)]
    }
}

/// The components of the pieces of `text` from position `from` on.
pub open spec fn pieces_from(text: Text, from: int) -> Parts
    decreases text.len() - from,
{
    if from < 0 || from > text.len() {
        Parts::empty()
    } else {
        let end = crate::text::find_from(text, '/', from);
        if end < from || end >= text.len() {
            piece_parts(text, from, text.len() as int)
        } else {
            piece_parts(text, from, end) + pieces_from(text, end + 1)
        }
    }
}

/// Whether every platform takes `text` apart in the same way: it has no
/// backslash and no colon, and does not begin with two slashes.
pub open spec fn is_portable(text: Text) -> bool {
    &&& !text.contains('\\')
    &&& !text.contains(':')
    &&& !crate::text::begins_with(text, "//"@)
}

/// The components of a portable path.
pub open spec fn portable_parts(text: Text) -> Parts {
    (if text.len() > 0 && text[0] == '/' {
        seq![PartView::Root]
    } else {
        Parts::empty()
    }) + pieces_from(text, 0)
}

/// Whether a character parts the names of a path on some platform.
pub open spec fn is_separator(c: char) -> bool {
    c == '/' || c == '\\'
}

/// Whether `text` writes the single name `name`: the name stands in front, and
/// behind it there are separators and dots at most, a separator first.
pub open spec fn writes_name(text: Text, name: Text) -> bool {
    &&& name.len() <= text.len()
    &&& text.take(name.len() as int) == name
    &&& name.len() < text.len() ==> is_separator(text[name.len() as int])
    &&& forall|i: int|
        name.len() <= i < text.len() ==> is_separator(#[trigger] text[i]) || text[i] == '.'
}

/// Whether `parts` is what a platform may take `text` to be made of: all platforms
/// agree on a portable text, all names are Unicode, and a single name is the one
/// that the text writes.
pub open spec fn may_be(text: Text, parts: Parts) -> bool {
    &&& is_portable(text) ==> parts == portable_parts(text)
    &&& forall|i: int| 0 <= i < parts.len() ==> !(#[trigger] parts[i] is Foreign)
    &&& parts.len() == 1 && parts[0] is Normal ==> writes_name(text, parts[0]->Normal_0)
}

/// `std::path::Path::components`: a slash in front is the root directory, and
/// each piece between slashes is a component, without empty pieces and dots but
/// for a leading dot. What a text that is not portable is made of depends on the
/// platform; but a single name is the text itself, up to the separators and the
/// dots that may follow it.
#[verifier::external_body]
fn components(text: &str) -> (parts: Vec<Part>)
    ensures
        may_be(text@, parts@.map_values(|part: Part| part@)),
{
    std::path::Path::new(text).components().map(|component| match component {
        std::path::Component::Prefix(prefix) => {
            Part::Prefix(prefix.as_os_str().to_string_lossy().into_owned())
        },
        std::path::Component::RootDir => Part::Root,
        std::path::Component::CurDir => Part::Current,
        std::path::Component::ParentDir => Part::Parent,
        std::path::Component::Normal(name) => Part::Normal(name.to_string_lossy().into_owned()),
    }).collect()
}

impl FsPath {
    /// The path that `text` writes. On a text that is not portable the platform
    /// decides.
    pub fn parse(text: &str) -> (path: FsPath)
        ensures
            is_portable(text@) ==> path@ == portable_parts(text@),
            may_be(text@, path@),
    {
        FsPath { parts: components(text) }
    }
}

/// Tests whether `path` is one of `paths`.
pub fn has_path(paths: &Vec<FsPath>, path: &FsPath) -> (found: bool)
    ensures
        found == paths_of(paths@).contains(path@),
{
    let mut i: usize = 0;
    while i < paths.len()
        invariant
            i <= paths@.len(),
            forall|j: int| 0 <= j < i ==> (#[trigger] paths@[j])@ != path@,
        decreases paths@.len() - i,
    {
        if paths[i].same(path) {
            assert(paths_of(paths@)[i as int] == path@);
            return true;
        }
        i += 1;
    }
    assert forall|j: int| 0 <= j < paths@.len() implies #[trigger] paths_of(paths@)[j] != path@ by {
        assert(paths@[j]@ != path@);
    }
    false
}

/// Copies a list of paths.
pub fn copy_paths(paths: &Vec<FsPath>) -> (copy: Vec<FsPath>)
    ensures
        paths_of(copy@) == paths_of(paths@),
{
    let mut copy: Vec<FsPath> = Vec::new();
    let mut i: usize = 0;
    while i < paths.len()
        invariant
            i <= paths@.len(),
            copy@.len() == i,
            forall|j: int| 0 <= j < i ==> (#[trigger] copy@[j])@ == paths@[j]@,
        decreases paths@.len() - i,
    {
        copy.push(paths[i].clone());
        i += 1;
    }
    assert(paths_of(copy@) =~= paths_of(paths@));
    copy
}

} // verus!
