//! What holds of reading and indexing desktop entries.
use crate::desktop_entry::{
    file_keys, id_of, index_of, is_entry, keys_below, keys_of_dirs, keys_of_files, keys_of_roots,
    read_line, read_lines, reading, source_of, unescaped, with_key, with_keys, without_suffix,
    DesktopEntry, DirEntry, Reading, Source,
};
use crate::path::{extension_of, joined, parts, pieces, stem_of, Part};
use crate::text::{first_index, lowercase, split, trimmed};
use crate::xdg::{dirs_for, theme_dirs_for, Environment};
use vstd::prelude::*;
use vstd::utf8::{decode_utf8, encode_utf8, valid_utf8};

verus! {

/// Escapes are decoded wherever they stand: a backslash with `s`, `n`, `t` or `r` stands for a
/// space, a line break, a tab or a carriage return, and two backslashes for one. With any other
/// character it stays, and so does one at the end.
pub proof fn escapes_are_decoded(before: Seq<char>, c: char, after: Seq<char>)
    requires
        !before.contains('\\'),
    ensures
        ({
            let decoded = unescaped(before + seq!['\\', c] + after);
            &&& c == 's' ==> decoded == before + seq![' '] + unescaped(after)
            &&& c == 'n' ==> decoded == before + seq!['\n'] + unescaped(after)
            &&& c == 't' ==> decoded == before + seq!['\t'] + unescaped(after)
            &&& c == 'r' ==> decoded == before + seq!['\r'] + unescaped(after)
            &&& c == '\\' ==> decoded == before + seq!['\\'] + unescaped(after)
            &&& c != 's' && c != 'n' && c != 't' && c != 'r' && c != '\\' ==> decoded == before
                + seq!['\\', c] + unescaped(after)
        }),
        unescaped(before.push('\\')) == before.push('\\'),
    decreases before.len(),
{
    let whole = before + seq!['\\', c] + after;
    let short = before.push('\\');
    if before.len() == 0 {
        assert(whole[0] == '\\' && whole[1] == c);
        assert(whole.skip(2) =~= after);
        assert(short =~= seq!['\\']);
        assert(short.skip(1) =~= Seq::empty());
        assert(unescaped(short.skip(1)) =~= Seq::empty());
        assert(unescaped(short) =~= short);
        let decoded = unescaped(whole);
        assert(c == 's' ==> decoded =~= before + seq![' '] + unescaped(after));
        assert(c == 'n' ==> decoded =~= before + seq!['\n'] + unescaped(after));
        assert(c == 't' ==> decoded =~= before + seq!['\t'] + unescaped(after));
        assert(c == 'r' ==> decoded =~= before + seq!['\r'] + unescaped(after));
        assert(c == '\\' ==> decoded =~= before + seq!['\\'] + unescaped(after));
        assert(c != 's' && c != 'n' && c != 't' && c != 'r' && c != '\\' ==> decoded =~= before
            + seq!['\\', c] + unescaped(after));
    } else {
        let less = before.skip(1);
        assert(before.contains(before[0]));
        assert(!less.contains('\\')) by {
            if less.contains('\\') {
                let i = less.index_of('\\');
                assert(before[i + 1] == '\\');
            }
        }
        escapes_are_decoded(less, c, after);
        assert(whole[0] == before[0]);
        assert(whole.skip(1) =~= less + seq!['\\', c] + after);
        assert(short[0] == before[0]);
        assert(short.skip(1) =~= less.push('\\'));
        assert(unescaped(short) =~= short);
        let decoded = unescaped(whole);
        assert(c == 's' ==> decoded =~= before + seq![' '] + unescaped(after));
        assert(c == 'n' ==> decoded =~= before + seq!['\n'] + unescaped(after));
        assert(c == 't' ==> decoded =~= before + seq!['\t'] + unescaped(after));
        assert(c == 'r' ==> decoded =~= before + seq!['\r'] + unescaped(after));
        assert(c == '\\' ==> decoded =~= before + seq!['\\'] + unescaped(after));
        assert(c != 's' && c != 'n' && c != 't' && c != 'r' && c != '\\' ==> decoded =~= before
            + seq!['\\', c] + unescaped(after));
    }
}

/// The line begins a group.
pub open spec fn begins_group(line: Seq<char>) -> bool {
    line.len() > 0 && line[0] == '[' && line.last() == ']'
}

/// The last group that begins before the line is the one that counts.
pub open spec fn is_in_group(lines: Seq<Seq<char>>, j: int) -> bool {
    exists|i: int|
        0 <= i < j && trimmed(#[trigger] lines[i]) == "[Desktop Entry]"@ && forall|k: int|
            i < k < j ==> !begins_group(trimmed(#[trigger] lines[k]))
}

/// The line gives a key a value.
pub open spec fn gives(line: Seq<char>, key: Seq<char>, value: Seq<char>) -> bool {
    trimmed(line) == key.push('=') + value
}

proof fn lemma_group(lines: Seq<Seq<char>>)
    ensures
        read_lines(lines).inside == is_in_group(lines, lines.len() as int),
    decreases lines.len(),
{
    reveal_strlit("[Desktop Entry]");
    let n = lines.len() as int;
    if n > 0 {
        let less = lines.drop_last();
        let line = trimmed(lines.last());
        lemma_group(less);
        if begins_group(line) {
            if line == "[Desktop Entry]"@ {
                assert(trimmed(lines[n - 1]) == "[Desktop Entry]"@);
            } else {
                if is_in_group(lines, n) {
                    let i = choose|i: int|
                        0 <= i < n && trimmed(#[trigger] lines[i]) == "[Desktop Entry]"@ && forall|
                            k: int,
                        |
                            i < k < n ==> !begins_group(trimmed(#[trigger] lines[k]));
                    assert(!begins_group(trimmed(lines[n - 1])) || i == n - 1);
                }
            }
        } else {
            if is_in_group(less, n - 1) {
                let i = choose|i: int|
                    0 <= i < n - 1 && trimmed(#[trigger] less[i]) == "[Desktop Entry]"@ && forall|
                        k: int,
                    |
                        i < k < n - 1 ==> !begins_group(trimmed(#[trigger] less[k]));
                assert(trimmed(lines[i]) == "[Desktop Entry]"@);
                assert forall|k: int| i < k < n implies !begins_group(
                    trimmed(#[trigger] lines[k]),
                ) by {
                    if k < n - 1 {
                        assert(less[k] == lines[k]);
                    }
                }
            }
            if is_in_group(lines, n) {
                let i = choose|i: int|
                    0 <= i < n && trimmed(#[trigger] lines[i]) == "[Desktop Entry]"@ && forall|
                        k: int,
                    |
                        i < k < n ==> !begins_group(trimmed(#[trigger] lines[k]));
                assert("[Desktop Entry]"@.last() == ']');
                assert(i != n - 1);
                assert(trimmed(less[i]) == "[Desktop Entry]"@);
                assert forall|k: int| i < k < n - 1 implies !begins_group(
                    trimmed(#[trigger] less[k]),
                ) by {
                    assert(less[k] == lines[k]);
                }
            }
        }
    }
}

proof fn lemma_in_group(lines: Seq<Seq<char>>, j: int)
    requires
        0 <= j <= lines.len(),
    ensures
        is_in_group(lines, j) == is_in_group(lines.take(j), j),
{
    let less = lines.take(j);
    if is_in_group(lines, j) {
        let i = choose|i: int|
            0 <= i < j && trimmed(#[trigger] lines[i]) == "[Desktop Entry]"@ && forall|k: int|
                i < k < j ==> !begins_group(trimmed(#[trigger] lines[k]));
        assert(trimmed(less[i]) == "[Desktop Entry]"@);
        assert forall|k: int| i < k < j implies !begins_group(trimmed(#[trigger] less[k])) by {
            assert(less[k] == lines[k]);
        }
    }
    if is_in_group(less, j) {
        let i = choose|i: int|
            0 <= i < j && trimmed(#[trigger] less[i]) == "[Desktop Entry]"@ && forall|k: int|
                i < k < j ==> !begins_group(trimmed(#[trigger] less[k]));
        assert(trimmed(lines[i]) == "[Desktop Entry]"@);
        assert forall|k: int| i < k < j implies !begins_group(trimmed(#[trigger] lines[k])) by {
            assert(less[k] == lines[k]);
        }
    }
}

proof fn lemma_first_index(key: Seq<char>, value: Seq<char>, c: char)
    requires
        !key.contains(c),
    ensures
        first_index(key.push(c) + value, c) == key.len(),
    decreases key.len(),
{
    let s = key.push(c) + value;
    if key.len() > 0 {
        let less = key.drop_first();
        assert(key.contains(key[0]));
        assert(!less.contains(c)) by {
            if less.contains(c) {
                let i = less.index_of(c);
                assert(key[i + 1] == c);
            }
        }
        lemma_first_index(less, value, c);
        assert(s.drop_first() =~= less.push(c) + value);
    }
}

proof fn lemma_index_found(s: Seq<char>, c: char)
    requires
        s.contains(c),
    ensures
        0 <= first_index(s, c) < s.len(),
        s[first_index(s, c)] == c,
    decreases s.len(),
{
    if s[0] != c {
        let less = s.drop_first();
        let i = s.index_of(c);
        assert(less[i - 1] == c);
        lemma_index_found(less, c);
    }
}

/// The lines that give the key a value are those that are read.
proof fn lemma_given(line: Seq<char>, key: Seq<char>, value: Seq<char>)
    requires
        !key.contains('='),
    ensures
        line == key.push('=') + value ==> line.contains('=') && line.take(first_index(line, '='))
            == key && line.skip(first_index(line, '=') + 1) == value,
        line.contains('=') && line.take(first_index(line, '=')) == key && line.skip(
            first_index(line, '=') + 1,
        ) == value ==> line == key.push('=') + value,
{
    if line == key.push('=') + value {
        lemma_first_index(key, value, '=');
        assert(line[key.len() as int] == '=');
        assert(line.take(key.len() as int) =~= key);
        assert(line.skip(key.len() as int + 1) =~= value);
    }
    if line.contains('=') && line.take(first_index(line, '=')) == key && line.skip(
        first_index(line, '=') + 1,
    ) == value {
        lemma_index_found(line, '=');
        assert(line =~= key.push('=') + value);
    }
}

/// The value of a key is the one that the last line in the group gives it.
pub open spec fn is_last_value(
    lines: Seq<Seq<char>>,
    key: Seq<char>,
    value: Seq<char>,
    j: int,
) -> bool {
    &&& 0 <= j < lines.len()
    &&& is_in_group(lines, j)
    &&& gives(lines[j], key, value)
    &&& forall|k: int, other: Seq<char>|
        j < k < lines.len() && is_in_group(lines, k) ==> !#[trigger] gives(lines[k], key, other)
}

/// No line in the group gives the key a value.
pub open spec fn has_no_value(lines: Seq<Seq<char>>, key: Seq<char>) -> bool {
    forall|k: int, value: Seq<char>|
        0 <= k < lines.len() && is_in_group(lines, k) ==> !#[trigger] gives(lines[k], key, value)
}

/// What was read for a key.
spec fn read_for(r: Reading, key: Seq<char>) -> Option<Seq<char>> {
    if key == "Icon"@ {
        r.icon
    } else {
        r.class
    }
}

proof fn lemma_read(lines: Seq<Seq<char>>, key: Seq<char>) -> (at: int)
    requires
        key == "Icon"@ || key == "StartupWMClass"@,
    ensures
        read_for(read_lines(lines), key) matches Some(value) ==> is_last_value(
            lines,
            key,
            value,
            at,
        ),
        read_for(read_lines(lines), key) is None ==> has_no_value(lines, key),
    decreases lines.len(),
{
    reveal_strlit("Icon");
    reveal_strlit("StartupWMClass");
    let n = lines.len() as int;
    if n > 0 {
        let less = lines.drop_last();
        let line = trimmed(lines.last());
        let before = read_lines(less);
        let j = lemma_read(less, key);
        lemma_group(less);
        assert(lines.take(n - 1) =~= less);
        lemma_in_group(lines, n - 1);
        assert forall|k: int| 0 <= k <= n - 1 implies #[trigger] is_in_group(lines, k)
            == is_in_group(less, k) by {
            lemma_in_group(lines, k);
            lemma_in_group(less, k);
            assert(lines.take(k) =~= less.take(k));
        }
        assert(!key.contains('='));
        assert(key[0] != '#' && key[0] != '[');
        assert forall|value: Seq<char>| #[trigger] gives(lines[n - 1], key, value)
            && before.inside implies read_for(read_line(before, line), key) == Some(value) by {
            lemma_given(line, key, value);
            assert(line[0] == key[0]);
        }
        let at = first_index(line, '=');
        let value = line.skip(at + 1);
        let after = read_line(before, line);
        assert(read_lines(lines) == after);
        lemma_given(line, key, value);
        if read_for(after, key) == Some(value) && before.inside && gives(lines[n - 1], key, value) {
            assert(is_last_value(lines, key, value, n - 1));
            n - 1
        } else {
            assert(read_for(after, key) == read_for(before, key));
            assert forall|other: Seq<char>| is_in_group(lines, n - 1) implies !#[trigger] gives(
                lines[n - 1],
                key,
                other,
            ) by {
                if gives(lines[n - 1], key, other) {
                    lemma_given(line, key, other);
                }
            }
            match read_for(before, key) {
                Some(old) => {
                    assert(lines[j] == less[j]);
                    assert forall|k: int, other: Seq<char>|
                        j < k < n && is_in_group(lines, k) implies !#[trigger] gives(
                        lines[k],
                        key,
                        other,
                    ) by {
                        if k < n - 1 {
                            assert(lines[k] == less[k]);
                            assert(!gives(less[k], key, other));
                        }
                    }
                    assert(is_last_value(lines, key, old, j));
                    j
                },
                None => {
                    assert forall|k: int, other: Seq<char>|
                        0 <= k < n && is_in_group(lines, k) implies !#[trigger] gives(
                        lines[k],
                        key,
                        other,
                    ) by {
                        if k < n - 1 {
                            assert(lines[k] == less[k]);
                            assert(!gives(less[k], key, other));
                        }
                    }
                    assert(has_no_value(lines, key));
                    j
                },
            }
        }
    } else {
        assert(has_no_value(lines, key));
        0
    }
}

/// A desktop entry has the icon that the last `Icon` line of its group names: a file where the
/// value begins with a slash, else a name. Without such a line there is no entry. The class of its
/// windows is that of the last `StartupWMClass` line. Lines of other groups do not count.
pub proof fn entry_says_what_its_lines_say(contents: Seq<char>, entry: Option<DesktopEntry>)
    requires
        is_entry(contents, entry),
    ensures
        ({
            let lines = split(contents, '\n');
            &&& entry is None ==> has_no_value(lines, "Icon"@)
            &&& entry matches Some(entry) ==> {
                &&& exists|value: Seq<char>, j: int| #[trigger]
                    is_last_value(lines, "Icon"@, value, j) && entry.icon@ == source_of(
                        unescaped(value),
                    )
                &&& entry.startup_wm_class is None ==> has_no_value(lines, "StartupWMClass"@)
                &&& entry.startup_wm_class matches Some(class) ==> exists|value: Seq<char>, j: int|
                    #[trigger]
                    is_last_value(lines, "StartupWMClass"@, value, j) && class@ == unescaped(value)
            }
        }),
{
    reveal_strlit("Icon");
    reveal_strlit("StartupWMClass");
    let lines = split(contents, '\n');
    let i = lemma_read(lines, "Icon"@);
    let j = lemma_read(lines, "StartupWMClass"@);
    assert("Icon"@.len() != "StartupWMClass"@.len());
}

/// A key is found under what it is without white space at its ends, and under the lower case of
/// that.
pub open spec fn answers_to(key: Seq<char>, asked: Seq<char>) -> bool {
    trimmed(key).len() > 0 && (asked == trimmed(key) || asked == lowercase(trimmed(key)))
}

/// The first key that answers decides, and where none does there is nothing.
pub proof fn first_answering_key_decides(keys: Seq<(Seq<char>, Source)>, asked: Seq<char>)
    ensures
        with_keys(Map::empty(), keys).contains_key(asked) <==> exists|i: int|
            0 <= i < keys.len() && answers_to((#[trigger] keys[i]).0, asked),
        forall|i: int|
            0 <= i < keys.len() && answers_to((#[trigger] keys[i]).0, asked) && (forall|j: int|
                0 <= j < i ==> !answers_to((#[trigger] keys[j]).0, asked)) ==> with_keys(
                Map::empty(),
                keys,
            )[asked] == keys[i].1,
    decreases keys.len(),
{
    let all = with_keys(Map::empty(), keys);
    if keys.len() > 0 {
        let less = keys.drop_last();
        first_answering_key_decides(less, asked);
        let before = with_keys(Map::empty(), less);
        let last = keys.last();
        assert(all == with_key(before, last.0, last.1));
        assert(keys[keys.len() - 1] == last);
        assert forall|i: int| 0 <= i < less.len() implies #[trigger] keys[i] == less[i] by {}
        assert(before.contains_key(asked) ==> all.contains_key(asked) && all[asked]
            == before[asked]);
        assert(!before.contains_key(asked) && answers_to(last.0, asked) ==> all.contains_key(asked)
            && all[asked] == last.1);
        assert(all.contains_key(asked) ==> before.contains_key(asked) || answers_to(
            last.0,
            asked,
        ));
        if before.contains_key(asked) {
            let i = choose|i: int|
                0 <= i < less.len() && answers_to((#[trigger] less[i]).0, asked);
            assert(answers_to(keys[i].0, asked));
        }
        if exists|i: int| 0 <= i < keys.len() && answers_to((#[trigger] keys[i]).0, asked) {
            let i = choose|i: int|
                0 <= i < keys.len() && answers_to((#[trigger] keys[i]).0, asked);
            if i < less.len() {
                assert(answers_to(less[i].0, asked));
            }
        }
        assert forall|i: int|
            0 <= i < keys.len() && answers_to((#[trigger] keys[i]).0, asked) && (forall|j: int|
                0 <= j < i ==> !answers_to((#[trigger] keys[j]).0, asked)) implies all[asked]
            == keys[i].1 by {
            if i < less.len() {
                assert(answers_to(less[i].0, asked));
                assert forall|j: int| 0 <= j < i implies !answers_to(
                    (#[trigger] less[j]).0,
                    asked,
                ) by {
                    assert(keys[j] == less[j]);
                }
            } else {
                if before.contains_key(asked) {
                    let j = choose|j: int|
                        0 <= j < less.len() && answers_to((#[trigger] less[j]).0, asked);
                    assert(!answers_to(keys[j].0, asked));
                }
            }
        }
    }
}

/// A desktop file with an icon is filed under its identifier, with and without `.desktop`, under
/// its name without extension, and under the class of its windows, and under nothing else.
pub proof fn desktop_file_is_filed(
    dir: Seq<u8>,
    name: Seq<u8>,
    contents: String,
    icon: Seq<char>,
    key: Seq<char>,
    source: Source,
)
    requires
        extension_of(name) == Some(encode_utf8("desktop"@)),
        reading(contents@).icon == Some(icon),
    ensures
        file_keys(dir, name, Some(contents)).contains((key, source)) <==> source == source_of(
            unescaped(icon),
        ) && {
            ||| id_of(parts(joined(dir, name))) == Some(key)
            ||| id_of(parts(joined(dir, name))) matches Some(id) && key == without_suffix(id)
            ||| valid_utf8(stem_of(name)) && key == decode_utf8(stem_of(name))
            ||| reading(contents@).class matches Some(class) && key == unescaped(class)
        },
{
    let keys = file_keys(dir, name, Some(contents));
    let r = reading(contents@);
    let found = source_of(unescaped(icon));
    let a = match id_of(parts(joined(dir, name))) {
        Some(id) => seq![(id, found), (without_suffix(id), found)],
        None => Seq::<(Seq<char>, Source)>::empty(),
    };
    let b = if valid_utf8(stem_of(name)) {
        seq![(decode_utf8(stem_of(name)), found)]
    } else {
        Seq::<(Seq<char>, Source)>::empty()
    };
    let c = match r.class {
        Some(class) => seq![(unescaped(class), found)],
        None => Seq::<(Seq<char>, Source)>::empty(),
    };
    assert(keys == a + b + c);
    let item = (key, source);
    if keys.contains(item) {
        let i = keys.index_of(item);
        if i < a.len() {
            assert(keys[i] == a[i]);
        } else if i < a.len() + b.len() {
            assert(keys[i] == b[i - a.len()]);
        } else {
            assert(keys[i] == c[i - a.len() - b.len()]);
        }
    }
    if source == found {
        if id_of(parts(joined(dir, name))) is Some {
            assert(keys[0] == a[0]);
            assert(keys[1] == a[1]);
        }
        if valid_utf8(stem_of(name)) {
            assert(keys[a.len() as int] == b[0]);
        }
        if r.class is Some {
            assert(keys[(a.len() + b.len()) as int] == c[0]);
        }
    }
}

/// Files that are not named like desktop files, that cannot be read, or that name no icon are not
/// filed.
pub proof fn other_files_are_not_filed(dir: Seq<u8>, name: Seq<u8>, contents: Option<String>)
    requires
        extension_of(name) != Some(encode_utf8("desktop"@)) || contents is None || (
        contents matches Some(text) && reading(text@).icon is None),
    ensures
        file_keys(dir, name, contents).len() == 0,
{
}

/// The identifier of a path has the names of its directories before that of the file, with dashes
/// between them.
pub proof fn identifiers_join_names_with_dashes(front: Seq<Part>, back: Seq<Part>)
    requires
        id_of(front) matches Some(id) && id.len() > 0,
        back.len() > 0,
        id_of(back) is Some,
        back[0] matches Part::Normal(name) && decode_utf8(name).len() > 0,
    ensures
        id_of(front + back) == Some(id_of(front)->0.push('-') + id_of(back)->0),
        id_of(back)->0.len() > 0,
    decreases back.len(),
{
    let whole = front + back;
    let less = back.drop_last();
    assert(whole.drop_last() =~= front + less);
    assert(whole.last() == back.last());
    if back.len() == 1 {
        assert(less =~= Seq::empty());
        assert(front + less =~= front);
        assert(id_of(less) == Some(Seq::<char>::empty()));
    } else {
        assert(less[0] == back[0]);
        identifiers_join_names_with_dashes(front, less);
        let name = back.last()->Normal_0;
        assert(id_of(whole)->0 =~= id_of(front)->0.push('-') + id_of(back)->0);
    }
}

/// The identifier of a single name is the name. What is no name, such as `..`, has none.
pub proof fn identifier_of_a_name_is_the_name(part: Part)
    ensures
        part matches Part::Normal(name) ==> (valid_utf8(name) ==> id_of(seq![part]) == Some(
            decode_utf8(name),
        )) && (!valid_utf8(name) ==> id_of(seq![part]) is None),
        !(part is Normal) ==> id_of(seq![part]) is None,
{
    let parts = seq![part];
    assert(parts.drop_last() =~= Seq::empty());
    assert(id_of(parts.drop_last()) == Some(Seq::<char>::empty()));
}

proof fn lemma_either(a: Seq<(Seq<char>, Source)>, b: Seq<(Seq<char>, Source)>, x: (Seq<char>, Source))
    ensures
        (a + b).contains(x) <==> a.contains(x) || b.contains(x),
{
    let c = a + b;
    if c.contains(x) {
        let i = c.index_of(x);
        if i < a.len() {
            assert(a[i] == x);
        } else {
            assert(b[i - a.len()] == x);
        }
    }
    if a.contains(x) {
        assert(c[a.index_of(x)] == x);
    }
    if b.contains(x) {
        assert(c[a.len() + b.index_of(x)] == x);
    }
}

proof fn lemma_files(entries: Seq<DirEntry>, dir: Seq<u8>, x: (Seq<char>, Source))
    ensures
        keys_of_files(entries, dir).contains(x) <==> exists|i: int|
            0 <= i < entries.len() && is_key_of_file(#[trigger] entries[i], dir, x),
    decreases entries.len(),
{
    if entries.len() > 0 {
        let less = entries.drop_last();
        lemma_files(less, dir, x);
        let last = match entries.last() {
            DirEntry::File { name, contents } => file_keys(dir, name@, contents),
            DirEntry::Dir { .. } => Seq::<(Seq<char>, Source)>::empty(),
        };
        lemma_either(keys_of_files(less, dir), last, x);
        assert(entries[entries.len() - 1] == entries.last());
        if keys_of_files(less, dir).contains(x) {
            let i = choose|i: int|
                0 <= i < less.len() && is_key_of_file(#[trigger] less[i], dir, x);
            assert(entries[i] == less[i]);
        }
        if exists|i: int| 0 <= i < entries.len() && is_key_of_file(#[trigger] entries[i], dir, x) {
            let i = choose|i: int|
                0 <= i < entries.len() && is_key_of_file(#[trigger] entries[i], dir, x);
            if i < less.len() {
                assert(less[i] == entries[i]);
            }
        }
    }
}

proof fn lemma_dirs(entries: Seq<DirEntry>, dir: Seq<u8>, x: (Seq<char>, Source))
    ensures
        keys_of_dirs(entries, dir).contains(x) <==> exists|i: int|
            0 <= i < entries.len() && is_key_below(#[trigger] entries[i], dir, x),
    decreases entries.len(),
{
    if entries.len() > 0 {
        let n = entries.len() - 1;
        let less = entries.subrange(0, n);
        lemma_dirs(less, dir, x);
        let last = match entries[n] {
            DirEntry::Dir { name, entries: below } => keys_below(below@, joined(dir, name@)),
            DirEntry::File { .. } => Seq::<(Seq<char>, Source)>::empty(),
        };
        lemma_either(last, keys_of_dirs(less, dir), x);
        if keys_of_dirs(less, dir).contains(x) {
            let i = choose|i: int| 0 <= i < less.len() && is_key_below(#[trigger] less[i], dir, x);
            assert(entries[i] == less[i]);
        }
        if exists|i: int| 0 <= i < entries.len() && is_key_below(#[trigger] entries[i], dir, x) {
            let i = choose|i: int|
                0 <= i < entries.len() && is_key_below(#[trigger] entries[i], dir, x);
            if i < less.len() {
                assert(less[i] == entries[i]);
            }
        }
    }
}

/// The key is one of a file.
pub open spec fn is_key_of_file(entry: DirEntry, dir: Seq<u8>, x: (Seq<char>, Source)) -> bool {
    match entry {
        DirEntry::File { name, contents } => file_keys(dir, name@, contents).contains(x),
        DirEntry::Dir { .. } => false,
    }
}

/// The key is one below a directory, seen from where the directory is.
pub open spec fn is_key_below(entry: DirEntry, dir: Seq<u8>, x: (Seq<char>, Source)) -> bool {
    match entry {
        DirEntry::Dir { name, entries: below } => keys_below(below@, joined(dir, name@)).contains(x),
        DirEntry::File { .. } => false,
    }
}

/// Everything below a directory is filed: the keys of its files, and the keys below its
/// directories, and no others. Those of its own files come first.
pub proof fn whole_directory_is_filed(entries: Seq<DirEntry>, dir: Seq<u8>, x: (Seq<char>, Source))
    ensures
        keys_below(entries, dir).contains(x) <==> exists|i: int|
            0 <= i < entries.len() && (is_key_of_file(#[trigger] entries[i], dir, x)
                || is_key_below(entries[i], dir, x)),
        (exists|i: int| 0 <= i < entries.len() && is_key_of_file(#[trigger] entries[i], dir, x))
            ==> keys_below(entries, dir).take(keys_of_files(entries, dir).len() as int).contains(x),
{
    lemma_files(entries, dir, x);
    lemma_dirs(entries, dir, x);
    let files = keys_of_files(entries, dir);
    let dirs = keys_of_dirs(entries, dir);
    let all = keys_below(entries, dir);
    assert(all == files + dirs);
    assert(all.take(files.len() as int) =~= files);
    lemma_either(files, dirs, x);
    if files.contains(x) {
        let i = choose|i: int|
            0 <= i < entries.len() && is_key_of_file(#[trigger] entries[i], dir, x);
        assert(is_key_of_file(entries[i], dir, x));
    }
    if dirs.contains(x) {
        let i = choose|i: int| 0 <= i < entries.len() && is_key_below(#[trigger] entries[i], dir, x);
        assert(is_key_below(entries[i], dir, x));
    }
}

/// Every application directory is searched: the keys are those below each of them, those of an
/// earlier one before those of a later one.
pub proof fn earlier_directories_come_first(front: Seq<Vec<DirEntry>>, last: Vec<DirEntry>)
    ensures
        keys_of_roots(front.push(last)) == keys_of_roots(front) + keys_below(last@, Seq::empty()),
        index_of(front.push(last)) == with_keys(
            index_of(front),
            keys_below(last@, Seq::empty()),
        ),
{
    let all = front.push(last);
    assert(all.drop_last() =~= front);
    lemma_with_more_keys(Map::empty(), keys_of_roots(front), keys_below(last@, Seq::empty()));
}

proof fn lemma_with_more_keys(
    icons: Map<Seq<char>, Source>,
    a: Seq<(Seq<char>, Source)>,
    b: Seq<(Seq<char>, Source)>,
)
    ensures
        with_keys(icons, a + b) == with_keys(with_keys(icons, a), b),
    decreases b.len(),
{
    if b.len() == 0 {
        assert(a + b =~= a);
    } else {
        assert((a + b).drop_last() =~= a + b.drop_last());
        assert((a + b).last() == b.last());
        lemma_with_more_keys(icons, a, b.drop_last());
    }
}

/// The directories of a kind are that of the user, then those of the system: those that the
/// environment lists, or else the two common ones.
pub proof fn system_directories_follow_the_user(env: Environment, child: Seq<char>)
    ensures
        ({
            let all = dirs_for(env, child);
            let first: int = if env.data_home is Some || env.home is Some {
                1
            } else {
                0
            };
            &&& env.data_dirs is None ==> all.len() == first + 2 && all[first] == joined(
                encode_utf8("/usr/local/share"@),
                encode_utf8(child),
            ) && all[first + 1] == joined(encode_utf8("/usr/share"@), encode_utf8(child))
            &&& env.data_dirs matches Some(list) ==> all.len() == first + pieces(list@, 0x3a).len()
                && forall|i: int|
                0 <= i < pieces(list@, 0x3a).len() ==> #[trigger] all[first + i] == joined(
                    pieces(list@, 0x3a)[i],
                    encode_utf8(child),
                )
        }),
        env.home matches Some(home) ==> theme_dirs_for(env) == dirs_for(env, "icons"@).push(
            joined(home@, encode_utf8(".icons"@)),
        ),
        env.home is None ==> theme_dirs_for(env) == dirs_for(env, "icons"@),
{
}

} // verus!
