//! File paths as bytes, with `/` between components.
use vstd::prelude::*;
use vstd::utf8::{decode_utf8, encode_utf8, valid_utf8};

verus! {

/// The byte between components.
pub const SLASH: u8 = 0x2f;

/// The byte before an extension.
pub const DOT: u8 = 0x2e;

/// The byte between paths in a list.
pub const COLON: u8 = 0x3a;

/// A path of a file or directory.
#[derive(Debug, Clone)]
pub struct FilePath {
    /// The path as it is written.
    pub bytes: Vec<u8>,
}

/// A part of a path.
pub ghost enum Part {
    /// The root, at the start of an absolute path.
    RootDir,
    /// A `.` at the start.
    CurDir,
    /// A `..`.
    ParentDir,
    /// A name.
    Normal(Seq<u8>),
}

/// A part of a path.
#[derive(Debug)]
pub enum Component {
    /// The root, at the start of an absolute path.
    RootDir,
    /// A `.` at the start.
    CurDir,
    /// A `..`.
    ParentDir,
    /// A name.
    Normal(Vec<u8>),
}

impl View for FilePath {
    type V = Seq<u8>;

    open spec fn view(&self) -> Seq<u8> {
        self.bytes@
    }
}

impl View for Component {
    type V = Part;

    open spec fn view(&self) -> Part {
        match self {
            Component::RootDir => Part::RootDir,
            Component::CurDir => Part::CurDir,
            Component::ParentDir => Part::ParentDir,
            Component::Normal(name) => Part::Normal(name@),
        }
    }
}

/// The path begins at the root.
pub open spec fn absolute(path: Seq<u8>) -> bool {
    path.len() > 0 && path[0] == SLASH
}

/// The second path seen from the first one.
pub open spec fn joined(path: Seq<u8>, other: Seq<u8>) -> Seq<u8> {
    if absolute(other) {
        other
    } else if path.len() == 0 || path.last() == SLASH {
        path + other
    } else {
        path.push(SLASH) + other
    }
}

/// The pieces of a sequence of bytes between separators.
pub open spec fn pieces(s: Seq<u8>, separator: u8) -> Seq<Seq<u8>>
    decreases s.len(),
{
    if s.len() == 0 {
        seq![Seq::empty()]
    } else {
        let rest = pieces(s.drop_last(), separator);
        if s.last() == separator {
            rest.push(Seq::empty())
        } else {
            rest.update(rest.len() - 1, rest.last().push(s.last()))
        }
    }
}

/// The part that a piece stands for. Nothing, and a `.` that is not at the start, stand for none.
pub open spec fn part_of(piece: Seq<u8>, first: bool) -> Option<Part> {
    if piece.len() == 0 {
        None
    } else if piece == seq![DOT] {
        if first {
            Some(Part::CurDir)
        } else {
            None
        }
    } else if piece == seq![DOT, DOT] {
        Some(Part::ParentDir)
    } else {
        Some(Part::Normal(piece))
    }
}

/// The parts that the pieces stand for.
pub open spec fn parts_of(pieces: Seq<Seq<u8>>) -> Seq<Part>
    decreases pieces.len(),
{
    if pieces.len() == 0 {
        Seq::empty()
    } else {
        let before = parts_of(pieces.drop_last());
        match part_of(pieces.last(), pieces.len() == 1) {
            Some(part) => before.push(part),
            None => before,
        }
    }
}

/// The parts of a path.
pub open spec fn parts(path: Seq<u8>) -> Seq<Part> {
    (if absolute(path) {
        seq![Part::RootDir]
    } else {
        Seq::empty()
    }) + parts_of(pieces(path, SLASH))
}

/// The last part of a path, if it is a name.
pub open spec fn file_name(path: Seq<u8>) -> Option<Seq<u8>> {
    let parts = parts(path);
    if parts.len() > 0 {
        match parts.last() {
            Part::Normal(name) => Some(name),
            _ => None,
        }
    } else {
        None
    }
}

/// The index of the last dot, or `-1` where there is none.
pub open spec fn last_dot(name: Seq<u8>) -> int
    decreases name.len(),
{
    if name.len() == 0 {
        -1
    } else if name.last() == DOT {
        name.len() - 1
    } else {
        last_dot(name.drop_last())
    }
}

/// What comes after the last dot of a name. A dot at its start does not count.
pub open spec fn extension_of(name: Seq<u8>) -> Option<Seq<u8>> {
    let dot = last_dot(name);
    if dot > 0 && name != seq![DOT, DOT] {
        Some(name.subrange(dot + 1, name.len() as int))
    } else {
        None
    }
}

/// A name without its extension.
pub open spec fn stem_of(name: Seq<u8>) -> Seq<u8> {
    match extension_of(name) {
        Some(_) => name.subrange(0, last_dot(name)),
        None => name,
    }
}

/// `String::from_utf8` reads bytes as a text, and fails exactly where they are not UTF-8.
#[verifier::external_body]
pub(crate) fn read_utf8(bytes: &Vec<u8>) -> (text: Option<String>)
    ensures
        match text {
            Some(text) => valid_utf8(bytes@) && text@ == decode_utf8(bytes@),
            None => !valid_utf8(bytes@),
        },
{
    String::from_utf8(bytes.to_vec()).ok()
}

/// Whether two sequences of bytes are equal.
pub fn bytes_equal(a: &Vec<u8>, b: &Vec<u8>) -> (equal: bool)
    ensures
        equal == (a@ == b@),
{
    if a.len() != b.len() {
        return false;
    }
    let mut i: usize = 0;
    while i < a.len()
        invariant
            i <= a.len(),
            a.len() == b.len(),
            forall|j: int| 0 <= j < i ==> a@[j] == b@[j],
        decreases a.len() - i,
    {
        if a[i] != b[i] {
            return false;
        }
        i += 1;
    }
    assert(a@ =~= b@);
    true
}

/// The bytes come first in the order of a dictionary.
pub open spec fn bytes_before(a: Seq<u8>, b: Seq<u8>) -> bool
    decreases a.len(),
{
    if b.len() == 0 {
        false
    } else if a.len() == 0 {
        true
    } else {
        a[0] < b[0] || (a[0] == b[0] && bytes_before(a.drop_first(), b.drop_first()))
    }
}

/// Whether bytes come first in the order of a dictionary.
pub fn is_bytes_before(a: &Vec<u8>, b: &Vec<u8>) -> (before: bool)
    ensures
        before == bytes_before(a@, b@),
{
    let mut i: usize = 0;
    assert(a@.skip(0) =~= a@);
    assert(b@.skip(0) =~= b@);
    while i < a.len() && i < b.len()
        invariant
            i <= a.len(),
            i <= b.len(),
            bytes_before(a@, b@) == bytes_before(a@.skip(i as int), b@.skip(i as int)),
        decreases a.len() - i,
    {
        assert(a@.skip(i as int)[0] == a@[i as int]);
        assert(b@.skip(i as int)[0] == b@[i as int]);
        if a[i] != b[i] {
            return a[i] < b[i];
        }
        assert(a@.skip(i as int).drop_first() =~= a@.skip(i + 1));
        assert(b@.skip(i as int).drop_first() =~= b@.skip(i + 1));
        i += 1;
    }
    i < b.len()
}

/// The order of a dictionary is a total one: it goes one way only, of two different texts one
/// comes first, and it is passed on.
pub proof fn dictionary_order(a: Seq<u8>, b: Seq<u8>, c: Seq<u8>)
    ensures
        bytes_before(a, b) ==> !bytes_before(b, a),
        a != b ==> bytes_before(a, b) || bytes_before(b, a),
        bytes_before(a, b) && bytes_before(b, c) ==> bytes_before(a, c),
    decreases a.len() + b.len() + c.len(),
{
    if a.len() > 0 && b.len() > 0 {
        let a1 = a.drop_first();
        let b1 = b.drop_first();
        dictionary_order(a1, b1, c);
        if a[0] == b[0] && a1 == b1 {
            assert(a =~= seq![a[0]] + a1);
            assert(b =~= seq![b[0]] + b1);
        }
        if c.len() > 0 {
            dictionary_order(a1, b1, c.drop_first());
        }
    } else if a.len() == 0 && b.len() == 0 {
        assert(a =~= b);
    }
}

/// Bytes from one index up to another.
pub fn bytes_between(bytes: &Vec<u8>, from: usize, to: usize) -> (part: Vec<u8>)
    requires
        from <= to <= bytes@.len(),
    ensures
        part@ == bytes@.subrange(from as int, to as int),
{
    let mut part: Vec<u8> = Vec::new();
    let mut i: usize = from;
    while i < to
        invariant
            from <= i <= to <= bytes@.len(),
            part@ == bytes@.subrange(from as int, i as int),
        decreases to - i,
    {
        part.push(bytes[i]);
        i += 1;
        assert(part@ =~= bytes@.subrange(from as int, i as int));
    }
    part
}

/// A copy of bytes.
pub fn copy_bytes(bytes: &Vec<u8>) -> (copy: Vec<u8>)
    ensures
        copy@ == bytes@,
{
    let copy = bytes_between(bytes, 0, bytes.len());
    assert(copy@ =~= bytes@);
    copy
}

/// Cuts bytes at separators.
pub fn split_bytes(bytes: &Vec<u8>, separator: u8) -> (result: Vec<Vec<u8>>)
    ensures
        result@.len() == pieces(bytes@, separator).len(),
        forall|i: int|
            0 <= i < result@.len() ==> (#[trigger] result@[i])@ == pieces(bytes@, separator)[i],
{
    let mut result: Vec<Vec<u8>> = Vec::new();
    let mut piece: Vec<u8> = Vec::new();
    let mut i: usize = 0;
    assert(bytes@.take(0) =~= Seq::empty());
    while i < bytes.len()
        invariant
            i <= bytes.len(),
            pieces(bytes@.take(i as int), separator).len() == result@.len() + 1,
            pieces(bytes@.take(i as int), separator).last() == piece@,
            forall|j: int|
                0 <= j < result@.len() ==> (#[trigger] result@[j])@ == pieces(
                    bytes@.take(i as int),
                    separator,
                )[j],
        decreases bytes.len() - i,
    {
        proof {
            let next = bytes@.take(i + 1);
            assert(next.drop_last() =~= bytes@.take(i as int));
            assert(next.last() == bytes@[i as int]);
        }
        let b: u8 = bytes[i];
        if b == separator {
            result.push(piece);
            piece = Vec::new();
            assert(piece@ =~= Seq::<u8>::empty());
        } else {
            piece.push(b);
        }
        i += 1;
    }
    assert(bytes@.take(i as int) =~= bytes@);
    result.push(piece);
    result
}

/// The paths in a list.
pub fn split_paths(list: &FilePath) -> (paths: Vec<FilePath>)
    ensures
        paths@.len() == pieces(list@, COLON).len(),
        forall|i: int| 0 <= i < paths@.len() ==> (#[trigger] paths@[i])@ == pieces(list@, COLON)[i],
{
    let mut paths: Vec<FilePath> = Vec::new();
    for bytes in it: split_bytes(&list.bytes, COLON).into_iter()
        invariant
            it.seq().len() == pieces(list@, COLON).len(),
            forall|i: int|
                0 <= i < it.seq().len() ==> (#[trigger] it.seq()[i])@ == pieces(list@, COLON)[i],
            paths@.len() == it.index(),
            forall|i: int|
                0 <= i < paths@.len() ==> (#[trigger] paths@[i])@ == pieces(list@, COLON)[i],
    {
        paths.push(FilePath { bytes });
    }
    paths
}

fn name_extension_start(name: &Vec<u8>) -> (start: Option<usize>)
    ensures
        match start {
            Some(start) => last_dot(name@) == start - 1 && 1 < start <= name@.len()
                && extension_of(name@) == Some(name@.subrange(start as int, name@.len() as int)),
            None => extension_of(name@) is None,
        },
{
    let mut i: usize = name.len();
    assert(name@.take(i as int) =~= name@);
    while i > 0
        invariant
            i <= name.len(),
            last_dot(name@) == last_dot(name@.take(i as int)),
        decreases i,
    {
        assert(name@.take(i as int).last() == name@[i - 1]);
        if name[i - 1] == DOT {
            if i == 1 || (name.len() == 2 && name[0] == DOT && name[1] == DOT) {
                proof {
                    if i != 1 {
                        assert(name@ =~= seq![DOT, DOT]);
                    }
                }
                return None;
            }
            proof {
                if name@ == seq![DOT, DOT] {
                    assert(name@[0] == DOT && name@[1] == DOT);
                }
            }
            return Some(i);
        }
        assert(name@.take(i as int).drop_last() =~= name@.take(i - 1));
        i -= 1;
    }
    None
}

/// What comes after the last dot of a name.
pub fn name_extension(name: &Vec<u8>) -> (extension: Option<Vec<u8>>)
    ensures
        match extension {
            Some(extension) => extension_of(name@) == Some(extension@),
            None => extension_of(name@) is None,
        },
{
    match name_extension_start(name) {
        Some(start) => Some(bytes_between(name, start, name.len())),
        None => None,
    }
}

/// A name without its extension.
pub fn name_stem(name: &Vec<u8>) -> (stem: Vec<u8>)
    ensures
        stem@ == stem_of(name@),
{
    match name_extension_start(name) {
        Some(start) => bytes_between(name, 0, start - 1),
        None => copy_bytes(name),
    }
}

fn piece_component(piece: Vec<u8>, first: bool) -> (component: Option<Component>)
    ensures
        match component {
            Some(component) => part_of(piece@, first) == Some(component@),
            None => part_of(piece@, first) is None,
        },
{
    if piece.len() == 0 {
        return None;
    }
    if piece.len() == 1 && piece[0] == DOT {
        assert(piece@ =~= seq![DOT]);
        return if first {
            Some(Component::CurDir)
        } else {
            None
        };
    }
    if piece.len() == 2 && piece[0] == DOT && piece[1] == DOT {
        assert(piece@ =~= seq![DOT, DOT]);
        return Some(Component::ParentDir);
    }
    proof {
        if piece@ == seq![DOT] {
            assert(piece@[0] == DOT);
        }
        if piece@ == seq![DOT, DOT] {
            assert(piece@[0] == DOT && piece@[1] == DOT);
        }
    }
    Some(Component::Normal(piece))
}

/// The parts that components stand for.
pub open spec fn views(components: Seq<Component>) -> Seq<Part> {
    components.map_values(|c: Component| c@)
}

impl Component {
    /// Whether two components are the same part.
    pub fn is_same(&self, other: &Component) -> (same: bool)
        ensures
            same == (self@ == other@),
    {
        match (self, other) {
            (Component::RootDir, Component::RootDir) => true,
            (Component::CurDir, Component::CurDir) => true,
            (Component::ParentDir, Component::ParentDir) => true,
            (Component::Normal(a), Component::Normal(b)) => bytes_equal(a, b),
            _ => false,
        }
    }
}

impl FilePath {
    /// The path that is written as a text.
    pub fn from_text(text: &str) -> (path: FilePath)
        ensures
            path@ == encode_utf8(text@),
    {
        FilePath { bytes: text.as_bytes_vec() }
    }

    /// A copy of the path.
    pub fn copy(&self) -> (copy: FilePath)
        ensures
            copy@ == self@,
    {
        FilePath { bytes: copy_bytes(&self.bytes) }
    }

    /// Whether the path begins at the root.
    pub fn is_absolute(&self) -> (result: bool)
        ensures
            result == absolute(self@),
    {
        self.bytes.len() > 0 && self.bytes[0] == SLASH
    }

    /// The other path seen from this one.
    pub fn join(&self, other: &FilePath) -> (path: FilePath)
        ensures
            path@ == joined(self@, other@),
    {
        if other.is_absolute() {
            return other.copy();
        }
        let mut bytes = copy_bytes(&self.bytes);
        if bytes.len() > 0 && bytes[bytes.len() - 1] != SLASH {
            bytes.push(SLASH);
        }
        let mut more = copy_bytes(&other.bytes);
        bytes.append(&mut more);
        assert(bytes@ =~= joined(self@, other@));
        FilePath { bytes }
    }

    /// The parts of the path.
    pub fn components(&self) -> (components: Vec<Component>)
        ensures
            views(components@) == parts(self@),
    {
        let mut components: Vec<Component> = Vec::new();
        if self.is_absolute() {
            components.push(Component::RootDir);
        }
        let ghost start = views(components@);
        assert(start =~= if absolute(self@) {
            seq![Part::RootDir]
        } else {
            Seq::empty()
        });
        let ghost all = pieces(self@, SLASH);
        let mut first = true;
        assert(all.take(0) =~= Seq::empty());
        assert(views(components@) =~= start + parts_of(all.take(0)));
        for piece in it: split_bytes(&self.bytes, SLASH).into_iter()
            invariant
                it.seq().len() == all.len(),
                forall|i: int| 0 <= i < it.seq().len() ==> (#[trigger] it.seq()[i])@ == all[i],
                first == (it.index() == 0),
                views(components@) == start + parts_of(all.take(it.index())),
        {
            let ghost i = it.index();
            let ghost before = components@;
            proof {
                let next = all.take(i + 1);
                assert(next.drop_last() =~= all.take(i));
                assert(next.last() == piece@);
            }
            if let Some(component) = piece_component(piece, first) {
                components.push(component);
                assert(views(components@) =~= views(before).push(component@));
            }
            assert(views(components@) =~= start + parts_of(all.take(i + 1)));
            first = false;
        }
        assert(all.take(all.len() as int) =~= all);
        components
    }

    /// Whether two paths have the same parts.
    pub fn is_same(&self, other: &FilePath) -> (same: bool)
        ensures
            same == (parts(self@) == parts(other@)),
    {
        let a = self.components();
        let b = other.components();
        if a.len() != b.len() {
            assert(parts(self@).len() != parts(other@).len());
            return false;
        }
        let mut i: usize = 0;
        while i < a.len()
            invariant
                i <= a.len(),
                a.len() == b.len(),
                views(a@) == parts(self@),
                views(b@) == parts(other@),
                forall|j: int| 0 <= j < i ==> (#[trigger] a@[j])@ == b@[j]@,
            decreases a.len() - i,
        {
            if !a[i].is_same(&b[i]) {
                assert(views(a@)[i as int] != views(b@)[i as int]);
                return false;
            }
            i += 1;
        }
        assert(views(a@) =~= views(b@));
        true
    }

    /// The last part of the path, if it is a name.
    pub fn file_name(&self) -> (name: Option<Vec<u8>>)
        ensures
            match name {
                Some(name) => file_name(self@) == Some(name@),
                None => file_name(self@) is None,
            },
    {
        let mut components = self.components();
        let ghost all = components@;
        match components.pop() {
            Some(Component::Normal(name)) => {
                assert(views(all).last() == Part::Normal(name@));
                Some(name)
            },
            Some(component) => {
                assert(views(all).last() == component@);
                None
            },
            None => None,
        }
    }
}

/// Joining keeps the name: a name that is joined to a directory is the name of the result.
pub proof fn joined_name(dir: Seq<u8>, name: Seq<u8>)
    requires
        name.len() > 0,
        !name.contains(SLASH),
        name != seq![DOT],
        name != seq![DOT, DOT],
    ensures
        file_name(joined(dir, name)) == Some(name),
{
    assert(name[0] != SLASH) by {
        assert(name.contains(name[0]));
    }
    let base = if dir.len() == 0 || dir.last() == SLASH {
        dir
    } else {
        dir.push(SLASH)
    };
    assert(joined(dir, name) == base + name);
    lemma_pieces_append(base, name);
    let all = pieces(base + name, SLASH);
    lemma_last_piece(base);
    assert(all.last() =~= name);
    assert(parts_of(all).last() == Part::Normal(name));
}

/// Bytes without a separator only lengthen the last piece.
proof fn lemma_pieces_append(base: Seq<u8>, name: Seq<u8>)
    requires
        !name.contains(SLASH),
    ensures
        pieces(base + name, SLASH).len() == pieces(base, SLASH).len(),
        pieces(base, SLASH).len() > 0,
        pieces(base + name, SLASH).last() == pieces(base, SLASH).last() + name,
    decreases name.len(),
{
    lemma_some_piece(base);
    if name.len() == 0 {
        assert(base + name =~= base);
        assert(pieces(base, SLASH).last() + name =~= pieces(base, SLASH).last());
    } else {
        let rest = name.drop_last();
        assert(!rest.contains(SLASH)) by {
            if rest.contains(SLASH) {
                let i = rest.index_of(SLASH);
                assert(name[i] == SLASH);
            }
        }
        lemma_pieces_append(base, rest);
        assert((base + name).drop_last() =~= base + rest);
        assert((base + name).last() == name.last());
        assert(name.contains(name.last())) by {
            assert(name[name.len() - 1] == name.last());
        }
        assert(pieces(base, SLASH).last() + rest.push(name.last()) =~= (pieces(base, SLASH).last()
            + rest).push(name.last()));
        assert(rest.push(name.last()) =~= name);
    }
}

/// There is always a piece.
proof fn lemma_some_piece(s: Seq<u8>)
    ensures
        pieces(s, SLASH).len() > 0,
    decreases s.len(),
{
    if s.len() > 0 {
        lemma_some_piece(s.drop_last());
    }
}

/// The last piece of a path that is empty or ends in a separator is empty.
proof fn lemma_last_piece(base: Seq<u8>)
    requires
        base.len() == 0 || base.last() == SLASH,
    ensures
        pieces(base, SLASH).last() == Seq::<u8>::empty(),
{
}

} // verus!
