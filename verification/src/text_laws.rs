//! What holds of cutting, trimming and reading text, and of names of files.
use crate::path::{
    absolute, bytes_before, extension_of, joined, last_dot, parts, parts_of, pieces, stem_of, COLON,
    DOT, Part, SLASH,
};
use crate::text::{
    all_digits, ascii_lowercase, decimal, parsed_i32, split, trimmed, white, without_sign,
};
use vstd::prelude::*;
use vstd::utf8::char_u32_cast;

verus! {

/// What follows the last separator is the last piece.
pub proof fn last_piece_follows_the_last_separator(
    head: Seq<char>,
    tail: Seq<char>,
    separator: char,
)
    requires
        !tail.contains(separator),
    ensures
        split(head.push(separator) + tail, separator).len() == split(head, separator).len() + 1,
        split(head.push(separator) + tail, separator).drop_last() == split(head, separator),
        split(head.push(separator) + tail, separator).last() == tail,
    decreases tail.len(),
{
    let whole = head.push(separator) + tail;
    if tail.len() == 0 {
        assert(whole =~= head.push(separator));
        assert(whole.drop_last() =~= head);
        assert(split(whole, separator).drop_last() =~= split(head, separator));
        assert(tail =~= Seq::empty());
    } else {
        let less = tail.drop_last();
        assert(!less.contains(separator)) by {
            if less.contains(separator) {
                let i = less.index_of(separator);
                assert(tail[i] == separator);
            }
        }
        assert(tail.contains(tail.last()));
        last_piece_follows_the_last_separator(head, less, separator);
        assert(whole.drop_last() =~= head.push(separator) + less);
        assert(whole.last() == tail.last());
        assert(less.push(tail.last()) =~= tail);
        let rest = split(whole.drop_last(), separator);
        assert(split(whole, separator).drop_last() =~= rest.drop_last());
    }
}

/// A text without separators is one piece.
pub proof fn text_without_separators_is_one_piece(s: Seq<char>, separator: char)
    requires
        !s.contains(separator),
    ensures
        split(s, separator) == seq![s],
    decreases s.len(),
{
    if s.len() > 0 {
        let less = s.drop_last();
        assert(!less.contains(separator)) by {
            if less.contains(separator) {
                let i = less.index_of(separator);
                assert(s[i] == separator);
            }
        }
        assert(s.contains(s.last()));
        text_without_separators_is_one_piece(less, separator);
        assert(less.push(s.last()) =~= s);
        assert(split(s, separator) =~= seq![s]);
    } else {
        assert(s =~= Seq::empty());
        assert(split(s, separator) =~= seq![s]);
    }
}

/// The pieces one after the other, with separators between them.
pub open spec fn rejoined(pieces: Seq<Seq<char>>, separator: char) -> Seq<char>
    decreases pieces.len(),
{
    if pieces.len() == 0 {
        Seq::empty()
    } else if pieces.len() == 1 {
        pieces[0]
    } else {
        rejoined(pieces.drop_last(), separator).push(separator) + pieces.last()
    }
}

/// Cutting loses nothing: the pieces hold no separators, and with separators between them they are
/// the text again.
pub proof fn pieces_join_back(s: Seq<char>, separator: char)
    ensures
        split(s, separator).len() > 0,
        rejoined(split(s, separator), separator) == s,
        forall|i: int|
            0 <= i < split(s, separator).len() ==> !(#[trigger] split(s, separator)[i]).contains(
                separator,
            ),
    decreases s.len(),
{
    let all = split(s, separator);
    if s.len() == 0 {
        assert(s =~= Seq::empty());
    } else {
        let less = s.drop_last();
        let rest = split(less, separator);
        pieces_join_back(less, separator);
        if s.last() == separator {
            assert(all.drop_last() =~= rest);
            assert(rejoined(all, separator) =~= s);
        } else {
            let n = rest.len() - 1;
            let last = rest.last();
            assert(all.drop_last() =~= rest.drop_last());
            assert(all.last() == last.push(s.last()));
            assert(!rest[n].contains(separator));
            assert(!last.push(s.last()).contains(separator)) by {
                if last.push(s.last()).contains(separator) {
                    let i = last.push(s.last()).index_of(separator);
                    if i < last.len() {
                        assert(last[i] == separator);
                    }
                }
            }
            assert forall|i: int| 0 <= i < all.len() implies !(#[trigger] all[i]).contains(
                separator,
            ) by {
                if i < n {
                    assert(all[i] == rest[i]);
                }
            }
            if n == 0 {
                assert(rest.drop_last().len() == 0);
                assert(rejoined(all, separator) =~= s);
            } else {
                assert(rejoined(all, separator) =~= rejoined(rest, separator).push(s.last()));
                assert(less.push(s.last()) =~= s);
            }
        }
    }
}

/// Trimming removes white space at the ends, all of it, and nothing else.
pub proof fn trimming_removes_white_space_at_the_ends(s: Seq<char>)
    ensures
        trimmed(s).len() > 0 ==> !white(trimmed(s)[0]) && !white(trimmed(s).last()),
        exists|from: int, to: int|
            0 <= from <= to <= s.len() && #[trigger] s.subrange(from, to) == trimmed(s) && (
            forall|i: int| 0 <= i < from ==> white(#[trigger] s[i])) && (forall|i: int|
                to <= i < s.len() ==> white(#[trigger] s[i])),
    decreases s.len(),
{
    if s.len() > 0 && white(s[0]) {
        let less = s.drop_first();
        trimming_removes_white_space_at_the_ends(less);
        let (from, to) = choose|from: int, to: int|
            0 <= from <= to <= less.len() && #[trigger] less.subrange(from, to) == trimmed(less) && (
            forall|i: int| 0 <= i < from ==> white(#[trigger] less[i])) && (forall|i: int|
                to <= i < less.len() ==> white(#[trigger] less[i]));
        assert(s.subrange(from + 1, to + 1) =~= less.subrange(from, to));
        assert forall|i: int| 0 <= i < from + 1 implies white(#[trigger] s[i]) by {
            if i > 0 {
                assert(less[i - 1] == s[i]);
            }
        }
        assert forall|i: int| to + 1 <= i < s.len() implies white(#[trigger] s[i]) by {
            assert(less[i - 1] == s[i]);
        }
    } else if s.len() > 0 && white(s.last()) {
        let less = s.drop_last();
        trimming_removes_white_space_at_the_ends(less);
        let (from, to) = choose|from: int, to: int|
            0 <= from <= to <= less.len() && #[trigger] less.subrange(from, to) == trimmed(less) && (
            forall|i: int| 0 <= i < from ==> white(#[trigger] less[i])) && (forall|i: int|
                to <= i < less.len() ==> white(#[trigger] less[i]));
        assert(s.subrange(from, to) =~= less.subrange(from, to));
        assert forall|i: int| 0 <= i < from implies white(#[trigger] s[i]) by {
            assert(less[i] == s[i]);
        }
        assert forall|i: int| to <= i < s.len() implies white(#[trigger] s[i]) by {
            if i < less.len() {
                assert(less[i] == s[i]);
            }
        }
    } else {
        assert(s.subrange(0, s.len() as int) =~= s);
    }
}

/// The decimal digits of a number.
pub open spec fn digits_of(n: int) -> Seq<char>
    decreases n,
{
    if n < 10 {
        seq![('0' as u32 + n) as char]
    } else {
        digits_of(n / 10).push(('0' as u32 + n % 10) as char)
    }
}

proof fn lemma_digits(n: int)
    requires
        0 <= n,
    ensures
        digits_of(n).len() > 0,
        all_digits(digits_of(n)),
        decimal(digits_of(n)) == n,
    decreases n,
{
    let s = digits_of(n);
    if n < 10 {
        assert(s.drop_last() =~= Seq::empty());
        assert(decimal(s.drop_last()) == 0);
    } else {
        lemma_digits(n / 10);
        assert(s.drop_last() =~= digits_of(n / 10));
        assert forall|i: int| 0 <= i < s.len() implies '0' <= #[trigger] s[i] <= '9' by {
            if i < s.len() - 1 {
                assert(digits_of(n / 10)[i] == s[i]);
            }
        }
    }
}

/// A number is read from its digits, with a sign or without.
pub proof fn numbers_are_read_from_their_digits(n: int)
    requires
        0 <= n <= i32::MAX,
    ensures
        parsed_i32(digits_of(n)) == Some(n),
        parsed_i32(seq!['+'] + digits_of(n)) == Some(n),
        parsed_i32(seq!['-'] + digits_of(n)) == Some(-n),
{
    lemma_digits(n);
    let s = digits_of(n);
    assert('0' <= s[0] <= '9');
    assert(without_sign(s) == s);
    assert((seq!['+'] + s).drop_first() =~= s);
    assert((seq!['-'] + s).drop_first() =~= s);
}

/// What is read as a number has nothing but digits after its sign.
pub proof fn only_digits_are_numbers(s: Seq<char>, i: int)
    requires
        parsed_i32(s) is Some,
        0 <= i < s.len(),
        i == 0 ==> s[0] != '-' && s[0] != '+',
    ensures
        '0' <= s[i] <= '9',
{
    let digits = without_sign(s);
    if digits != s {
        assert(digits[i - 1] == s[i]);
    } else {
        assert(digits[i] == s[i]);
    }
}

proof fn lemma_last_dot(stem: Seq<u8>, extension: Seq<u8>)
    requires
        !extension.contains(DOT),
    ensures
        last_dot(stem.push(DOT) + extension) == stem.len(),
    decreases extension.len(),
{
    let name = stem.push(DOT) + extension;
    if extension.len() == 0 {
        assert(name.last() == DOT);
    } else {
        let less = extension.drop_last();
        assert(!less.contains(DOT)) by {
            if less.contains(DOT) {
                let i = less.index_of(DOT);
                assert(extension[i] == DOT);
            }
        }
        assert(extension.contains(extension.last()));
        lemma_last_dot(stem, less);
        assert(name.drop_last() =~= stem.push(DOT) + less);
    }
}

proof fn lemma_no_dot(name: Seq<u8>)
    requires
        !name.contains(DOT),
    ensures
        last_dot(name) == -1,
    decreases name.len(),
{
    if name.len() > 0 {
        let less = name.drop_last();
        assert(!less.contains(DOT)) by {
            if less.contains(DOT) {
                let i = less.index_of(DOT);
                assert(name[i] == DOT);
            }
        }
        assert(name.contains(name.last()));
        lemma_no_dot(less);
    }
}

/// What follows the last dot of a name is its extension, and what comes before it is its stem. A
/// name without a dot, or with none but one at its start, has no extension.
pub proof fn names_are_cut_at_the_last_dot(stem: Seq<u8>, extension: Seq<u8>)
    requires
        !extension.contains(DOT),
    ensures
        stem.len() > 0 && stem.push(DOT) + extension != seq![DOT, DOT] ==> extension_of(
            stem.push(DOT) + extension,
        ) == Some(extension) && stem_of(stem.push(DOT) + extension) == stem,
        extension_of(extension) is None,
        stem_of(extension) == extension,
        extension_of(seq![DOT] + extension) is None,
        stem_of(seq![DOT] + extension) == seq![DOT] + extension,
{
    let name = stem.push(DOT) + extension;
    lemma_last_dot(stem, extension);
    assert(name.subrange((stem.len() + 1) as int, name.len() as int) =~= extension);
    assert(name.subrange(0, stem.len() as int) =~= stem);
    lemma_no_dot(extension);
    lemma_last_dot(Seq::empty(), extension);
    assert(Seq::<u8>::empty().push(DOT) + extension =~= seq![DOT] + extension);
}

/// Names are ordered as in a dictionary: by the first byte in which they differ, and a name goes
/// before its continuations.
pub proof fn first_difference_decides(common: Seq<u8>, a: Seq<u8>, b: Seq<u8>)
    requires
        a.len() > 0 && b.len() > 0 ==> a[0] != b[0],
    ensures
        a.len() > 0 && b.len() > 0 ==> bytes_before(common + a, common + b) == (a[0] < b[0]),
        a.len() == 0 ==> bytes_before(common + a, common + b) == (b.len() > 0),
        b.len() == 0 ==> !bytes_before(common + a, common + b),
    decreases common.len(),
{
    if common.len() == 0 {
        assert(common + a =~= a);
        assert(common + b =~= b);
    } else {
        let less = common.drop_first();
        first_difference_decides(less, a, b);
        assert((common + a).drop_first() =~= less + a);
        assert((common + b).drop_first() =~= less + b);
    }
}

/// A list of paths is cut at colons: no path holds one, and what follows the last colon is the last
/// path.
pub proof fn paths_are_cut_at_colons(head: Seq<u8>, tail: Seq<u8>)
    requires
        !tail.contains(COLON),
    ensures
        pieces(head.push(COLON) + tail, COLON) == pieces(head, COLON).push(tail),
        pieces(tail, COLON) == seq![tail],
    decreases tail.len(),
{
    let whole = head.push(COLON) + tail;
    if tail.len() == 0 {
        assert(tail =~= Seq::empty());
        assert(whole =~= head.push(COLON));
        assert(whole.drop_last() =~= head);
        assert(pieces(tail, COLON) =~= seq![tail]);
    } else {
        let less = tail.drop_last();
        assert(!less.contains(COLON)) by {
            if less.contains(COLON) {
                let i = less.index_of(COLON);
                assert(tail[i] == COLON);
            }
        }
        assert(tail.contains(tail.last()));
        paths_are_cut_at_colons(head, less);
        assert(whole.drop_last() =~= head.push(COLON) + less);
        assert(less.push(tail.last()) =~= tail);
        assert(pieces(whole, COLON) =~= pieces(head, COLON).push(tail));
        assert(pieces(tail, COLON) =~= seq![tail]);
    }
}

/// A path that does not begin at the root goes behind the directory, with one slash between them;
/// one that does stands for itself.
pub proof fn joining_puts_a_slash_between(dir: Seq<u8>, name: Seq<u8>)
    ensures
        name.len() > 0 && name[0] == SLASH ==> joined(dir, name) == name,
        (name.len() == 0 || name[0] != SLASH) && dir.len() > 0 && dir.last() != SLASH ==> joined(
            dir,
            name,
        ) == dir + seq![SLASH] + name,
        (name.len() == 0 || name[0] != SLASH) && (dir.len() == 0 || dir.last() == SLASH) ==> joined(
            dir,
            name,
        ) == dir + name,
        joined(dir, name).len() >= name.len(),
{
    if dir.len() > 0 {
        assert(dir.push(SLASH) + name =~= dir + seq![SLASH] + name);
    }
}

/// Among the ASCII characters, space, tab, line breaks and page breaks are white space, and no
/// others.
pub proof fn ascii_white_space(c: char)
    requires
        (c as u32) < 0x80,
    ensures
        white(c) <==> c == ' ' || c == '\t' || c == '\n' || c == '\r' || c as u32 == 0xb || c as u32
            == 0xc,
{
    char_u32_cast(c, c as u32);
    assert(' ' as u32 == 0x20 && '\t' as u32 == 9 && '\n' as u32 == 10 && '\r' as u32 == 13);
}

/// Lower case differs in the letters from `A` to `Z` alone, each of which becomes the small one.
pub proof fn only_capital_letters_change(s: Seq<char>, i: int)
    requires
        0 <= i < s.len(),
    ensures
        ascii_lowercase(s).len() == s.len(),
        !('A' <= s[i] <= 'Z') ==> ascii_lowercase(s)[i] == s[i],
        'A' <= s[i] <= 'Z' ==> ascii_lowercase(s)[i] as u32 == s[i] as u32 + ('a' as u32 - 'A' as u32),
{
}

proof fn lemma_pieces_end(base: Seq<u8>, name: Seq<u8>)
    requires
        base.len() == 0 || base.last() == SLASH,
        !name.contains(SLASH),
    ensures
        pieces(base, SLASH).len() > 0,
        pieces(base, SLASH).last().len() == 0,
        pieces(base + name, SLASH) == pieces(base, SLASH).drop_last().push(name),
    decreases name.len(),
{
    if name.len() == 0 {
        assert(base + name =~= base);
        assert(name =~= Seq::empty());
        if base.len() == 0 {
            assert(base =~= Seq::empty());
        }
        assert(pieces(base, SLASH).last() =~= name);
        assert(pieces(base, SLASH) =~= pieces(base, SLASH).drop_last().push(name));
    } else {
        let less = name.drop_last();
        assert(!less.contains(SLASH)) by {
            if less.contains(SLASH) {
                let i = less.index_of(SLASH);
                assert(name[i] == SLASH);
            }
        }
        assert(name.contains(name.last()));
        lemma_pieces_end(base, less);
        assert((base + name).drop_last() =~= base + less);
        assert((base + name).last() == name.last());
        assert(less.push(name.last()) =~= name);
        assert(pieces(base + name, SLASH) =~= pieces(base, SLASH).drop_last().push(name));
    }
}

/// A path has one part more than its directory: the name. A name alone is one part, `..` leads up,
/// and `.` behind a directory stands for nothing, as a slash at the end does.
pub proof fn names_are_the_parts_of_a_path(dir: Seq<u8>, name: Seq<u8>)
    requires
        dir.len() > 0,
        name.len() > 0,
        !name.contains(SLASH),
    ensures
        name != seq![DOT] && name != seq![DOT, DOT] ==> parts(joined(dir, name)) == parts(dir).push(
            Part::Normal(name),
        ) && parts(name) == seq![Part::Normal(name)],
        name == seq![DOT, DOT] ==> parts(joined(dir, name)) == parts(dir).push(Part::ParentDir)
            && parts(name) == seq![Part::ParentDir],
        name == seq![DOT] ==> parts(joined(dir, name)) == parts(dir) && parts(name)
            == seq![Part::CurDir],
        parts(dir.push(SLASH)) == parts(dir),
        parts(seq![SLASH]) == seq![Part::RootDir],
{
    assert(name.contains(name[0]));
    let base = if dir.last() == SLASH {
        dir
    } else {
        dir.push(SLASH)
    };
    let whole = base + name;
    assert(joined(dir, name) == whole);
    lemma_pieces_end(base, name);
    let before = pieces(base, SLASH).drop_last();
    let all = pieces(whole, SLASH);
    assert(all.drop_last() =~= before);
    let longer = pieces(dir.push(SLASH), SLASH);
    assert(dir.push(SLASH).drop_last() =~= dir);
    assert(longer.drop_last() =~= pieces(dir, SLASH));
    assert(longer.last().len() == 0);
    assert(parts_of(longer) == parts_of(pieces(dir, SLASH)));
    assert(absolute(dir.push(SLASH)) == absolute(dir));
    assert(parts(dir.push(SLASH)) =~= parts(dir));
    assert(parts(base) == parts(dir));
    assert(parts_of(pieces(base, SLASH)) == parts_of(before));
    assert(absolute(whole) == absolute(base));
    assert(all.len() > 1) by {
        lemma_pieces_end(base, Seq::empty());
        assert(pieces(base, SLASH).len() > 1) by {
            assert(base.drop_last().push(SLASH) =~= base);
            lemma_some_pieces(base.drop_last());
        }
    }
    assert(parts(whole) =~= (if absolute(base) {
        seq![Part::RootDir]
    } else {
        Seq::empty()
    }) + parts_of(all));
    if name != seq![DOT] {
        let part = if name == seq![DOT, DOT] {
            Part::ParentDir
        } else {
            Part::Normal(name)
        };
        assert(parts_of(all) == parts_of(before).push(part));
        assert(parts(whole) =~= parts(base).push(part));
    } else {
        assert(parts_of(all) == parts_of(before));
    }
    lemma_pieces_end(Seq::empty(), name);
    assert(Seq::<u8>::empty() + name =~= name);
    assert(pieces(Seq::empty(), SLASH).drop_last() =~= Seq::empty());
    let alone = pieces(name, SLASH);
    assert(alone =~= seq![name]);
    assert(alone.drop_last() =~= Seq::empty());
    assert(parts_of(alone.drop_last()) =~= Seq::empty());
    assert(!absolute(name));
    assert(parts(name) =~= parts_of(alone));
    let root = seq![SLASH];
    assert(root.drop_last() =~= Seq::empty());
    let two = pieces(root, SLASH);
    assert(two.drop_last() =~= pieces(Seq::empty(), SLASH));
    let one = pieces(Seq::<u8>::empty(), SLASH);
    assert(one.drop_last() =~= Seq::empty());
    assert(parts_of(one) =~= Seq::empty());
    assert(parts_of(two) =~= Seq::empty());
    assert(parts(root) =~= seq![Part::RootDir]);
}

proof fn lemma_some_pieces(s: Seq<u8>)
    ensures
        pieces(s, SLASH).len() > 0,
    decreases s.len(),
{
    if s.len() > 0 {
        lemma_some_pieces(s.drop_last());
    }
}

} // verus!
