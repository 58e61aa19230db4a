//! Paths, taken apart.
//!
//! A path is the list of its parts, as the platform's own rules divide it: which characters separate
//! names and what a prefix looks like is settled before a path comes here, and again when it is
//! written out.

use vstd::prelude::*;
use vstd::string::*;

verus! {

/// The kinds of prefixes that a path can have in front of its root.
#[derive(Debug, Clone, Copy, PartialEq, Eq, Structural)]
pub enum PrefixKind {
    /// A verbatim prefix, such as `\\?\name`.
    Verbatim,
    /// A verbatim prefix of a share, such as `\\?\UNC\server\share`.
    VerbatimShare,
    /// A verbatim prefix of a drive, such as `\\?\C:`.
    VerbatimDrive,
    /// The prefix of a device, such as `\\.\COM1`.
    Device,
    /// The prefix of a share, such as `\\server\share`.
    Share,
    /// The prefix of a drive, such as `C:`.
    Drive,
}

impl PrefixKind {
    /// Behind a verbatim prefix, names are taken as they are.
    pub open spec fn spec_is_verbatim(self) -> bool {
        self == PrefixKind::Verbatim || self == PrefixKind::VerbatimShare || self
            == PrefixKind::VerbatimDrive
    }

    /// Whether names behind the prefix are taken as they are.
    pub fn is_verbatim(self) -> (result: bool)
        ensures
            result == self.spec_is_verbatim(),
    {
        self == PrefixKind::Verbatim || self == PrefixKind::VerbatimShare || self
            == PrefixKind::VerbatimDrive
    }
}

/// One part of a path.
#[derive(Debug, PartialEq, Eq)]
pub enum Part {
    /// A prefix: its kind, and the drive, device or share that it names.
    Prefix(PrefixKind, String),
    /// The root.
    Root,
    /// The directory itself.
    Current,
    /// The directory above.
    Parent,
    /// The name of a file or directory.
    Name(String),
}

/// The mathematical content of a [`Part`].
pub enum PartModel {
    Prefix(PrefixKind, Seq<char>),
    Root,
    Current,
    Parent,
    Name(Seq<char>),
}

impl View for Part {
    type V = PartModel;

    open spec fn view(&self) -> PartModel {
        match self {
            Part::Prefix(kind, text) => PartModel::Prefix(*kind, text@),
            Part::Root => PartModel::Root,
            Part::Current => PartModel::Current,
            Part::Parent => PartModel::Parent,
            Part::Name(text) => PartModel::Name(text@),
        }
    }
}

impl Part {
    /// A copy of the part.
    fn copied(&self) -> (part: Part)
        ensures
            part@ == self@,
    {
        match self {
            Part::Prefix(kind, text) => Part::Prefix(*kind, String::from_str(text.as_str())),
            Part::Root => Part::Root,
            Part::Current => Part::Current,
            Part::Parent => Part::Parent,
            Part::Name(text) => Part::Name(String::from_str(text.as_str())),
        }
    }

    /// Whether two parts are the same.
    fn same(&self, other: &Part) -> (result: bool)
        ensures
            result == (self@ == other@),
    {
        match (self, other) {
            (Part::Prefix(a, x), Part::Prefix(b, y)) => *a == *b && *x == *y,
            (Part::Root, Part::Root) => true,
            (Part::Current, Part::Current) => true,
            (Part::Parent, Part::Parent) => true,
            (Part::Name(x), Part::Name(y)) => *x == *y,
            _ => false,
        }
    }

    /// Whether the part is a name.
    fn is_name(&self) -> (result: bool)
        ensures
            result == (self@ is Name),
    {
        match self {
            Part::Name(_) => true,
            _ => false,
        }
    }
}

/// A path.
#[derive(Debug, PartialEq, Eq)]
pub struct TreePath {
    pub parts: Vec<Part>,
}

/// The contents of a list of parts.
pub open spec fn part_models(parts: Seq<Part>) -> Seq<PartModel> {
    Seq::new(parts.len(), |i: int| parts[i]@)
}

impl View for TreePath {
    type V = Seq<PartModel>;

    open spec fn view(&self) -> Seq<PartModel> {
        part_models(self.parts@)
    }
}

/// The name at the end of a path, if it ends in one.
pub open spec fn spec_file_name(path: Seq<PartModel>) -> Option<Seq<char>> {
    if path.len() == 0 {
        None
    } else {
        match path.last() {
            PartModel::Name(text) => Some(text),
            _ => None,
        }
    }
}

/// The path without its last part, if that is no root and no prefix.
pub open spec fn spec_parent(path: Seq<PartModel>) -> Option<Seq<PartModel>> {
    if path.len() == 0 || path.last() is Root || path.last() is Prefix {
        None
    } else {
        Some(path.drop_last())
    }
}

/// The last position below `n` at which `c` stands.
pub open spec fn last_position(text: Seq<char>, c: char, n: nat) -> Option<int>
    decreases n,
{
    if n == 0 {
        None
    } else if text[n - 1] == c {
        Some(n - 1)
    } else {
        last_position(text, c, (n - 1) as nat)
    }
}

/// The last place of a character lies below the bound, and the character stands there.
pub proof fn lemma_last_position(text: Seq<char>, c: char, n: nat)
    requires
        n <= text.len(),
    ensures
        last_position(text, c, n) matches Some(at) ==> 0 <= at < n && text[at] == c,
    decreases n,
{
    if n > 0 {
        lemma_last_position(text, c, (n - 1) as nat);
    }
}

/// What follows the last dot of a name, if the dot is not at its start.
pub open spec fn extension_of(name: Seq<char>) -> Option<Seq<char>> {
    match last_position(name, '.', name.len()) {
        None => None,
        Some(dot) => if dot == 0 {
            None
        } else {
            Some(name.skip(dot + 1))
        },
    }
}

/// The extension of the file name.
pub open spec fn spec_extension(path: Seq<PartModel>) -> Option<Seq<char>> {
    match spec_file_name(path) {
        None => None,
        Some(name) => extension_of(name),
    }
}

/// The prefix of a path, alone.
pub open spec fn prefix_of(path: Seq<PartModel>) -> Seq<PartModel> {
    if path.len() > 0 && path[0] is Prefix {
        path.take(1)
    } else {
        Seq::empty()
    }
}

/// The path has a verbatim prefix.
pub open spec fn spec_is_verbatim(path: Seq<PartModel>) -> bool {
    path.len() > 0 && match path[0] {
        PartModel::Prefix(kind, _) => kind.spec_is_verbatim(),
        _ => false,
    }
}

/// Behind this path, a leading `.` is a part of its own: nothing but a prefix comes in front of it.
pub open spec fn starts_afresh(path: Seq<PartModel>) -> bool {
    path.len() == 0 || (path.len() == 1 && path[0] is Prefix)
}

/// `base` with the first `n` parts of `path` added one by one: `.` is left out, and `..` takes a
/// name away.
pub open spec fn resolved(base: Seq<PartModel>, path: Seq<PartModel>, n: nat) -> Seq<PartModel>
    decreases n,
{
    if n == 0 {
        base
    } else {
        let before = resolved(base, path, (n - 1) as nat);
        match path[n - 1] {
            PartModel::Current => before,
            PartModel::Parent => if before.len() > 0 && before.last() is Name {
                before.drop_last()
            } else {
                before
            },
            part => before.push(part),
        }
    }
}

/// `path` taken relative to `base`. A path with a prefix stands for itself, and one with a root
/// keeps only the prefix of `base`. Behind a verbatim prefix, `.` and `..` are resolved.
pub open spec fn spec_join(base: Seq<PartModel>, path: Seq<PartModel>) -> Seq<PartModel> {
    if path.len() == 0 {
        base
    } else if path[0] is Prefix {
        path
    } else {
        let start = if path[0] is Root {
            prefix_of(base)
        } else {
            base
        };
        if spec_is_verbatim(base) {
            resolved(start, path, path.len())
        } else if path[0] is Current && !starts_afresh(start) {
            start + path.skip(1)
        } else {
            start + path
        }
    }
}

/// What of `path` comes after `base`, if it lies at or below it.
pub open spec fn spec_strip_prefix(path: Seq<PartModel>, base: Seq<PartModel>) -> Option<
    Seq<PartModel>,
> {
    if base.is_prefix_of(path) {
        Some(path.skip(base.len() as int))
    } else {
        None
    }
}

/// The characters of a text.
pub(crate) fn characters(text: &str) -> (chars: Vec<char>)
    ensures
        chars@ == text@,
{
    let count: usize = text.unicode_len();
    let mut rest = text.chars();
    let mut chars: Vec<char> = Vec::new();
    let mut i: usize = 0;
    while i < count
        invariant
            i <= count,
            count == text@.len(),
            chars@ == text@.take(i as int),
            vstd::std_specs::iter::IteratorSpec::remaining(&rest) == text@.skip(i as int),
        decreases count - i,
    {
        if let Some(c) = rest.next() {
            assert(text@.take(i + 1) =~= text@.take(i as int).push(text@[i as int]));
            assert(text@.skip(i as int).drop_first() =~= text@.skip(i + 1));
            chars.push(c);
        }
        i += 1;
    }
    assert(text@.take(count as int) =~= text@);
    chars
}

/// The text of characters.
pub(crate) fn text_of(text: &str, start: usize, end: usize) -> (part: String)
    requires
        start <= end <= text@.len(),
    ensures
        part@ == text@.subrange(start as int, end as int),
{
    String::from_str(text.substring_char(start, end))
}

/// Finds the last place where a character stands.
pub(crate) fn find_last(text: &Vec<char>, c: char) -> (position: Option<usize>)
    ensures
        match (position, last_position(text@, c, text@.len())) {
            (Some(found), Some(expected)) => found == expected && found < text@.len(),
            (None, None) => true,
            _ => false,
        },
{
    let mut n: usize = text.len();
    while n > 0
        invariant
            n <= text@.len(),
            last_position(text@, c, n as nat) == last_position(text@, c, text@.len()),
        decreases n,
    {
        if text[n - 1] == c {
            return Some(n - 1);
        }
        n -= 1;
    }
    None
}

/// An optional path agrees with its mathematical counterpart.
pub open spec fn paths_agree(result: Option<TreePath>, expected: Option<Seq<PartModel>>) -> bool {
    match (result, expected) {
        (Some(found), Some(wanted)) => found@ == wanted,
        (None, None) => true,
        _ => false,
    }
}

/// An optional text agrees with its mathematical counterpart.
pub open spec fn texts_agree(result: Option<String>, expected: Option<Seq<char>>) -> bool {
    match (result, expected) {
        (Some(found), Some(wanted)) => found@ == wanted,
        (None, None) => true,
        _ => false,
    }
}

impl TreePath {
    /// The path of nothing.
    pub fn new() -> (path: TreePath)
        ensures
            path@ == Seq::<PartModel>::empty(),
    {
        let path = TreePath { parts: Vec::new() };
        assert(path@ =~= Seq::empty());
        path
    }

    /// The path of a single name.
    pub fn of_name(name: &str) -> (path: TreePath)
        ensures
            path@ == seq![PartModel::Name(name@)],
    {
        let mut path = TreePath::new();
        path.push(Part::Name(String::from_str(name)));
        assert(path@ =~= seq![PartModel::Name(name@)]);
        path
    }

    /// The directory itself.
    pub fn current() -> (path: TreePath)
        ensures
            path@ == seq![PartModel::Current],
    {
        let mut path = TreePath::new();
        path.push(Part::Current);
        assert(path@ =~= seq![PartModel::Current]);
        path
    }

    /// Adds a part at the end.
    pub(crate) fn push(&mut self, part: Part)
        ensures
            final(self)@ == old(self)@.push(part@),
    {
        let ghost before = self.parts@;
        self.parts.push(part);
        assert(part_models(self.parts@) =~= part_models(before).push(part@));
    }

    /// The parts from `start` up to `end`.
    fn part_range(&self, start: usize, end: usize) -> (path: TreePath)
        requires
            start <= end <= self.parts@.len(),
        ensures
            path@ == self@.subrange(start as int, end as int),
    {
        let mut path = TreePath::new();
        let mut i: usize = start;
        assert(path@ =~= self@.subrange(start as int, start as int));
        while i < end
            invariant
                start <= i <= end <= self.parts@.len(),
                path@ == self@.subrange(start as int, i as int),
            decreases end - i,
        {
            path.push(self.parts[i].copied());
            assert(path@ =~= self@.subrange(start as int, i + 1));
            i += 1;
        }
        path
    }

    /// A copy of the path.
    pub fn copied(&self) -> (path: TreePath)
        ensures
            path@ == self@,
    {
        assert(self@.subrange(0, self@.len() as int) =~= self@);
        self.part_range(0, self.parts.len())
    }

    /// Whether the path has no parts.
    pub fn is_empty(&self) -> (result: bool)
        ensures
            result == (self@.len() == 0),
    {
        self.parts.len() == 0
    }

    /// Whether the first part is a prefix.
    fn has_prefix(&self) -> (result: bool)
        ensures
            result == (self@.len() > 0 && self@[0] is Prefix),
    {
        if self.parts.len() == 0 {
            return false;
        }
        assert(self@[0] == self.parts@[0]@);
        match &self.parts[0] {
            Part::Prefix(_, _) => true,
            _ => false,
        }
    }

    /// Whether the path has a verbatim prefix.
    fn is_verbatim(&self) -> (result: bool)
        ensures
            result == spec_is_verbatim(self@),
    {
        if self.parts.len() == 0 {
            return false;
        }
        assert(self@[0] == self.parts@[0]@);
        match &self.parts[0] {
            Part::Prefix(kind, _) => kind.is_verbatim(),
            _ => false,
        }
    }

    /// Adds the parts of another path one by one. Leaves out `.`, and takes a name away for `..`.
    fn resolve(&mut self, path: &TreePath)
        ensures
            final(self)@ == resolved(old(self)@, path@, path@.len()),
    {
        let ghost base = self@;
        let mut i: usize = 0;
        while i < path.parts.len()
            invariant
                i <= path.parts@.len(),
                self@ == resolved(base, path@, i as nat),
            decreases path.parts@.len() - i,
        {
            assert(path@[i as int] == path.parts@[i as int]@);
            match &path.parts[i] {
                Part::Current => {},
                Part::Parent => {
                    let count: usize = self.parts.len();
                    if count > 0 {
                        assert(self@.last() == self.parts@[count - 1]@);
                        if self.parts[count - 1].is_name() {
                            let ghost before = self.parts@;
                            self.parts.pop();
                            assert(part_models(self.parts@) =~= part_models(before).drop_last());
                        }
                    }
                },
                part => {
                    self.push(part.copied());
                },
            }
            i += 1;
        }
    }

    /// Adds the parts of another path from `start` on.
    fn extend_from(&mut self, path: &TreePath, start: usize)
        requires
            start <= path.parts@.len(),
        ensures
            final(self)@ == old(self)@ + path@.skip(start as int),
    {
        let ghost base = self@;
        let mut i: usize = start;
        assert(self@ =~= base + path@.subrange(start as int, start as int));
        while i < path.parts.len()
            invariant
                start <= i <= path.parts@.len(),
                self@ == base + path@.subrange(start as int, i as int),
            decreases path.parts@.len() - i,
        {
            self.push(path.parts[i].copied());
            assert(self@ =~= base + path@.subrange(start as int, i + 1));
            i += 1;
        }
        assert(path@.subrange(start as int, i as int) =~= path@.skip(start as int));
    }
}

/// The name at the end of a path, if it ends in one.
pub fn file_name(path: &TreePath) -> (name: Option<String>)
    ensures
        texts_agree(name, spec_file_name(path@)),
{
    let count: usize = path.parts.len();
    if count == 0 {
        return None;
    }
    assert(path@.last() == path.parts@[count - 1]@);
    match &path.parts[count - 1] {
        Part::Name(text) => Some(String::from_str(text.as_str())),
        _ => None,
    }
}

/// The path without its last part, if that is no root and no prefix.
pub fn parent(path: &TreePath) -> (result: Option<TreePath>)
    ensures
        paths_agree(result, spec_parent(path@)),
{
    let count: usize = path.parts.len();
    if count == 0 {
        return None;
    }
    assert(path@.last() == path.parts@[count - 1]@);
    match &path.parts[count - 1] {
        Part::Root => None,
        Part::Prefix(_, _) => None,
        _ => {
            assert(path@.subrange(0, count - 1) =~= path@.drop_last());
            Some(path.part_range(0, count - 1))
        },
    }
}

/// What follows the last dot of the file name, if the dot is not at its start.
pub fn extension(path: &TreePath) -> (result: Option<String>)
    ensures
        texts_agree(result, spec_extension(path@)),
{
    let name = match file_name(path) {
        Some(name) => name,
        None => return None,
    };
    let chars = characters(name.as_str());
    let size: usize = chars.len();
    match find_last(&chars, '.') {
        Some(dot) => if dot == 0 {
            None
        } else {
            assert(name@.subrange(dot + 1, name@.len() as int) =~= name@.skip(dot + 1));
            Some(text_of(name.as_str(), dot + 1, size))
        },
        None => None,
    }
}

/// `path` taken relative to `base`.
pub fn join(base: &TreePath, path: &TreePath) -> (result: TreePath)
    ensures
        result@ == spec_join(base@, path@),
{
    if path.parts.len() == 0 {
        return base.copied();
    }
    assert(path@[0] == path.parts@[0]@);
    if path.has_prefix() {
        return path.copied();
    }
    let rooted = match &path.parts[0] {
        Part::Root => true,
        _ => false,
    };
    let mut result = if !rooted {
        base.copied()
    } else if base.has_prefix() {
        assert(base@.subrange(0, 1) =~= base@.take(1));
        base.part_range(0, 1)
    } else {
        TreePath::new()
    };
    if base.is_verbatim() {
        result.resolve(path);
        return result;
    }
    let afresh = result.parts.len() == 0 || (result.parts.len() == 1 && result.has_prefix());
    let start: usize = match &path.parts[0] {
        Part::Current => if afresh {
            0
        } else {
            1
        },
        _ => 0,
    };
    assert(path@.skip(0) =~= path@);
    result.extend_from(path, start);
    result
}

/// What of `path` comes after `base`, if it lies at or below it.
pub fn strip_prefix(path: &TreePath, base: &TreePath) -> (result: Option<TreePath>)
    ensures
        paths_agree(result, spec_strip_prefix(path@, base@)),
{
    let count: usize = base.parts.len();
    if count > path.parts.len() {
        return None;
    }
    let mut i: usize = 0;
    while i < count
        invariant
            i <= count,
            count == base.parts@.len(),
            count <= path.parts@.len(),
            forall|k: int| 0 <= k < i ==> base@[k] == path@[k],
        decreases count - i,
    {
        if !base.parts[i].same(&path.parts[i]) {
            assert(base@[i as int] != path@[i as int]);
            assert(path@.subrange(0, count as int)[i as int] == path@[i as int]);
            return None;
        }
        i += 1;
    }
    assert(base@ =~= path@.subrange(0, count as int));
    assert(path@.subrange(count as int, path@.len() as int) =~= path@.skip(count as int));
    Some(path.part_range(count, path.parts.len()))
}

} // verus!
