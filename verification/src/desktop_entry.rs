//! Desktop entries, and an index of the icons that they name.
use crate::path::{
    absolute, bytes_equal, copy_bytes, extension_of, joined, name_extension, name_stem, parts,
    read_utf8, stem_of, views, Component, FilePath, Part,
};
use crate::text::{
    equals, find_char, first_index, from_chars, lowercase, slice_of, split, split_chars, to_chars,
    to_lowercase, trim, trimmed,
};
use vstd::hash_map::StringHashMap;
use vstd::prelude::*;
use vstd::utf8::{
    char_is_scalar, char_u32_cast, decode_utf8, encode_scalar, encode_utf8, valid_utf8,
};

verus! {

/// Where an icon comes from.
pub ghost enum Source {
    /// A file.
    File(Seq<u8>),
    /// A name, to be looked up in icon themes.
    Name(Seq<char>),
}

/// Where an icon comes from. Absolute paths are loaded directly, while names are looked up in icon
/// themes.
#[derive(Debug, Clone)]
pub enum IconSource {
    /// A file.
    File(FilePath),
    /// A name.
    Name(String),
}

/// What matters of a desktop entry.
#[derive(Debug, Clone)]
pub struct DesktopEntry {
    /// The icon.
    pub icon: IconSource,
    /// The class of the windows of the application.
    pub startup_wm_class: Option<String>,
}

impl View for IconSource {
    type V = Source;

    open spec fn view(&self) -> Source {
        match self {
            IconSource::File(path) => Source::File(path@),
            IconSource::Name(name) => Source::Name(name@),
        }
    }
}

/// The value with its escapes decoded. Unknown escapes stay as they are.
pub open spec fn unescaped(s: Seq<char>) -> Seq<char>
    decreases s.len(),
{
    if s.len() == 0 {
        s
    } else if s[0] != '\\' || s.len() == 1 {
        seq![s[0]] + unescaped(s.skip(1))
    } else {
        escape(s[1]) + unescaped(s.skip(2))
    }
}

/// What a backslash and a character stand for.
pub open spec fn escape(c: char) -> Seq<char> {
    if c == 's' {
        seq![' ']
    } else if c == 'n' {
        seq!['\n']
    } else if c == 't' {
        seq!['\t']
    } else if c == 'r' {
        seq!['\r']
    } else if c == '\\' {
        seq!['\\']
    } else {
        seq!['\\', c]
    }
}

/// Decodes the simple backslash escapes used in desktop-entry string values.
pub fn unescape_desktop_value(value: &str) -> (result: String)
    ensures
        result@ == unescaped(value@),
{
    let chars = to_chars(value);
    let mut out = String::new();
    let mut i: usize = 0;
    assert(chars@.skip(0) =~= chars@);
    assert(out@ + unescaped(chars@.skip(0)) =~= unescaped(chars@));
    while i < chars.len()
        invariant
            i <= chars.len(),
            out@ + unescaped(chars@.skip(i as int)) == unescaped(chars@),
        decreases chars.len() - i,
    {
        let ghost rest = chars@.skip(i as int);
        let ghost start = out@;
        assert(rest[0] == chars@[i as int]);
        assert(rest.skip(1) =~= chars@.skip(i + 1));
        let ch = chars[i];
        if ch != '\\' || i == chars.len() - 1 {
            out.push(ch);
            assert(out@ + unescaped(rest.skip(1)) =~= start + (seq![ch] + unescaped(rest.skip(1))));
            i += 1;
        } else {
            let next = chars[i + 1];
            assert(rest[1] == next);
            assert(rest.skip(2) =~= chars@.skip(i + 2));
            if next == 's' {
                out.push(' ');
            } else if next == 'n' {
                out.push('\n');
            } else if next == 't' {
                out.push('\t');
            } else if next == 'r' {
                out.push('\r');
            } else if next == '\\' {
                out.push('\\');
            } else {
                out.push('\\');
                out.push(next);
            }
            assert(out@ =~= start + escape(next));
            assert(out@ + unescaped(rest.skip(2)) =~= start + (escape(next) + unescaped(
                rest.skip(2),
            )));
            i += 2;
        }
    }
    assert(chars@.skip(i as int) =~= Seq::empty());
    assert(out@ + unescaped(chars@.skip(i as int)) =~= out@);
    out
}

/// The icon that a text names: a file where it is an absolute path, else a name.
pub open spec fn source_of(text: Seq<char>) -> Source {
    if absolute(encode_utf8(text)) {
        Source::File(encode_utf8(text))
    } else {
        Source::Name(text)
    }
}

/// Both are the same file, or both are the same name.
pub open spec fn same_source(a: Source, b: Source) -> bool {
    match (a, b) {
        (Source::File(a), Source::File(b)) => parts(a) == parts(b),
        (Source::Name(a), Source::Name(b)) => a == b,
        _ => false,
    }
}

impl IconSource {
    /// The icon that the value of an `Icon` key names.
    pub fn from_icon_value(value: &str) -> (source: IconSource)
        ensures
            source@ == source_of(unescaped(value@)),
    {
        let value = unescape_desktop_value(value);
        let path = FilePath::from_text(value.as_str());

        if path.is_absolute() {
            IconSource::File(path)
        } else {
            IconSource::Name(value)
        }
    }

    /// A copy.
    pub fn copy(&self) -> (copy: IconSource)
        ensures
            copy@ == self@,
    {
        match self {
            IconSource::File(path) => IconSource::File(path.copy()),
            IconSource::Name(name) => IconSource::Name(name.clone()),
        }
    }

    /// Whether both are the same.
    pub fn is_same(&self, other: &IconSource) -> (same: bool)
        ensures
            same == same_source(self@, other@),
    {
        match (self, other) {
            (IconSource::File(a), IconSource::File(b)) => a.is_same(b),
            (IconSource::Name(a), IconSource::Name(b)) => *a == *b,
            _ => false,
        }
    }
}

/// The text without a `.desktop` at its end.
pub open spec fn without_suffix(s: Seq<char>) -> Seq<char> {
    if ".desktop"@.is_suffix_of(s) {
        s.take(s.len() - ".desktop"@.len())
    } else {
        s
    }
}

/// Removes a `.desktop` suffix when present.
pub fn trim_desktop_suffix(value: &str) -> (result: &str)
    ensures
        result@ == without_suffix(value@),
{
    let chars = to_chars(value);
    let suffix = to_chars(".desktop");
    let n: usize = chars.len();
    let m: usize = suffix.len();
    if n < m {
        return value;
    }
    let end = slice_of(&chars, n - m, n);
    if equals(&end, &suffix) {
        assert(".desktop"@.is_suffix_of(value@));
        value.substring_char(0, n - m)
    } else {
        proof {
            if ".desktop"@.is_suffix_of(value@) {
                assert(end@ =~= suffix@);
            }
        }
        value
    }
}

/// What was read of a desktop entry.
pub ghost struct Reading {
    /// Whether the current group is the one that counts.
    pub inside: bool,
    /// The value of `Icon`.
    pub icon: Option<Seq<char>>,
    /// The value of `StartupWMClass`.
    pub class: Option<Seq<char>>,
}

/// What is read of a line without white space at its ends.
pub open spec fn read_line(before: Reading, line: Seq<char>) -> Reading {
    if line.len() == 0 || line[0] == '#' {
        before
    } else if line[0] == '[' && line.last() == ']' {
        Reading { inside: line == "[Desktop Entry]"@, ..before }
    } else if !before.inside || !line.contains('=') {
        before
    } else {
        let at = first_index(line, '=');
        let key = line.take(at);
        let value = line.skip(at + 1);
        if key == "Icon"@ {
            Reading { icon: Some(value), ..before }
        } else if key == "StartupWMClass"@ {
            Reading { class: Some(value), ..before }
        } else {
            before
        }
    }
}

/// What is read of lines.
pub open spec fn read_lines(lines: Seq<Seq<char>>) -> Reading
    decreases lines.len(),
{
    if lines.len() == 0 {
        Reading { inside: false, icon: None, class: None }
    } else {
        read_line(read_lines(lines.drop_last()), trimmed(lines.last()))
    }
}

/// What is read of the contents of a file.
pub open spec fn reading(contents: Seq<char>) -> Reading {
    read_lines(split(contents, '\n'))
}

/// `entry` is what the contents of a file say. Without an icon there is none.
pub open spec fn is_entry(contents: Seq<char>, entry: Option<DesktopEntry>) -> bool {
    let r = reading(contents);
    match r.icon {
        None => entry is None,
        Some(icon) => {
            &&& entry is Some
            &&& entry->0.icon@ == source_of(unescaped(icon))
            &&& entry->0.startup_wm_class is Some == r.class is Some
            &&& r.class matches Some(class) ==> entry->0.startup_wm_class->0@ == unescaped(class)
        },
    }
}

/// Parses the `[Desktop Entry]` group for the `Icon` and `StartupWMClass` keys.
pub fn parse_desktop_entry(contents: &str) -> (entry: Option<DesktopEntry>)
    ensures
        is_entry(contents@, entry),
{
    let group = to_chars("[Desktop Entry]");
    let icon_key = to_chars("Icon");
    let class_key = to_chars("StartupWMClass");
    let ghost lines = split(contents@, '\n');
    let mut in_desktop_entry = false;
    let mut icon: Option<String> = None;
    let mut class: Option<String> = None;
    let all = split_chars(&to_chars(contents), '\n');
    let mut i: usize = 0;
    assert(lines.take(0) =~= Seq::empty());
    while i < all.len()
        invariant
            i <= all.len(),
            all@.len() == lines.len(),
            forall|j: int| 0 <= j < all@.len() ==> (#[trigger] all@[j])@ == lines[j],
            group@ == "[Desktop Entry]"@,
            icon_key@ == "Icon"@,
            class_key@ == "StartupWMClass"@,
            ({
                let r = read_lines(lines.take(i as int));
                &&& in_desktop_entry == r.inside
                &&& icon is Some == r.icon is Some
                &&& icon matches Some(icon) ==> icon@ == r.icon->0
                &&& class is Some == r.class is Some
                &&& class matches Some(class) ==> class@ == r.class->0
            }),
        decreases all.len() - i,
    {
        proof {
            let next = lines.take(i + 1);
            assert(next.drop_last() =~= lines.take(i as int));
            assert(next.last() == all@[i as int]@);
        }
        let line = trim(&all[i]);
        i += 1;
        if line.len() == 0 || line[0] == '#' {
            continue;
        }

        if line[0] == '[' && line[line.len() - 1] == ']' {
            in_desktop_entry = equals(&line, &group);
            continue;
        }

        if !in_desktop_entry {
            continue;
        }

        let at = find_char(&line, '=');
        if at == line.len() {
            assert(!line@.contains('='));
            continue;
        }
        assert(line@.contains('='));
        let key = slice_of(&line, 0, at);
        assert(key@ =~= line@.take(at as int));
        let value = slice_of(&line, at + 1, line.len());
        assert(value@ =~= line@.skip(at + 1));

        if equals(&key, &icon_key) {
            icon = Some(from_chars(&value));
        } else if equals(&key, &class_key) {
            class = Some(from_chars(&value));
        }
    }
    assert(lines.take(i as int) =~= lines);
    let startup_wm_class = match class {
        Some(class) => Some(unescape_desktop_value(class.as_str())),
        None => None,
    };
    match icon {
        Some(icon) => Some(
            DesktopEntry { icon: IconSource::from_icon_value(icon.as_str()), startup_wm_class },
        ),
        None => None,
    }
}

/// Lookup table from app identifiers and desktop-file identifiers to icons.
pub struct DesktopEntryIndex {
    icons: StringHashMap<IconSource>,
}

impl View for DesktopEntryIndex {
    type V = Map<Seq<char>, Source>;

    closed spec fn view(&self) -> Map<Seq<char>, Source> {
        Map::new(|key: Seq<char>| self.icons@.contains_key(key), |key: Seq<char>| self.icons@[key]@)
    }
}

/// The table with a key, unless it is there already.
pub open spec fn with_new_key(
    icons: Map<Seq<char>, Source>,
    key: Seq<char>,
    icon: Source,
) -> Map<Seq<char>, Source> {
    if icons.contains_key(key) {
        icons
    } else {
        icons.insert(key, icon)
    }
}

/// The table with a key, as it is written and in lower case, as far as they are not there already.
/// White space at its ends does not count, and an empty key is not taken.
pub open spec fn with_key(
    icons: Map<Seq<char>, Source>,
    key: Seq<char>,
    icon: Source,
) -> Map<Seq<char>, Source> {
    let key = trimmed(key);
    if key.len() == 0 {
        icons
    } else {
        with_new_key(with_new_key(icons, key, icon), lowercase(key), icon)
    }
}

/// The table with keys, one after the other.
pub open spec fn with_keys(
    icons: Map<Seq<char>, Source>,
    keys: Seq<(Seq<char>, Source)>,
) -> Map<Seq<char>, Source>
    decreases keys.len(),
{
    if keys.len() == 0 {
        icons
    } else {
        with_key(with_keys(icons, keys.drop_last()), keys.last().0, keys.last().1)
    }
}

impl Default for DesktopEntryIndex {
    /// An empty table.
    fn default() -> (index: DesktopEntryIndex)
        ensures
            index@ == Map::<Seq<char>, Source>::empty(),
    {
        DesktopEntryIndex::new()
    }
}

impl DesktopEntryIndex {
    /// An empty table.
    pub fn new() -> (index: DesktopEntryIndex)
        ensures
            index@ == Map::<Seq<char>, Source>::empty(),
    {
        let index = DesktopEntryIndex { icons: StringHashMap::new() };
        assert(index@ =~= Map::<Seq<char>, Source>::empty());
        index
    }

    /// The icon of a key.
    pub fn get(&self, key: &str) -> (icon: Option<&IconSource>)
        ensures
            match icon {
                Some(icon) => self@.contains_key(key@) && icon@ == self@[key@],
                None => !self@.contains_key(key@),
            },
    {
        self.icons.get(key)
    }

    fn insert_new(&mut self, key: String, icon: &IconSource)
        ensures
            final(self)@ == with_new_key(old(self)@, key@, icon@),
    {
        if !self.icons.contains_key(key.as_str()) {
            self.icons.insert(key, icon.copy());
            assert(self@ =~= old(self)@.insert(key@, icon@));
        }
    }

    /// Inserts a key only if it has not already been provided by a higher-priority directory. Both
    /// original and lowercase forms are stored because app identifiers and desktop files are not
    /// always consistent.
    pub fn insert(&mut self, key: &str, icon: &IconSource)
        ensures
            final(self)@ == with_key(old(self)@, key@, icon@),
    {
        let key = trim(&to_chars(key));
        if key.len() == 0 {
            return ;
        }
        let key = from_chars(&key);
        let lower = to_lowercase(key.as_str());
        self.insert_new(key, icon);
        self.insert_new(lower, icon);
    }
}

/// The identifier of a desktop file whose path has these parts: its names, joined with `-`. There
/// is none where a part is not a name, or not a text.
pub open spec fn id_of(parts: Seq<Part>) -> Option<Seq<char>>
    decreases parts.len(),
{
    if parts.len() == 0 {
        Some(Seq::empty())
    } else {
        match (id_of(parts.drop_last()), parts.last()) {
            (Some(id), Part::Normal(name)) if valid_utf8(name) => Some(
                if id.len() == 0 {
                    decode_utf8(name)
                } else {
                    id.push('-') + decode_utf8(name)
                },
            ),
            _ => None,
        }
    }
}

/// Once a part has no text there is no identifier.
proof fn lemma_no_id(parts: Seq<Part>, k: int)
    requires
        0 <= k <= parts.len(),
        id_of(parts.take(k)) is None,
    ensures
        id_of(parts) is None,
    decreases parts.len() - k,
{
    if k < parts.len() {
        assert(parts.take(k + 1).drop_last() =~= parts.take(k));
        lemma_no_id(parts, k + 1);
    } else {
        assert(parts.take(k) =~= parts);
    }
}

/// Converts a path relative to an applications directory into a desktop-file identifier.
pub fn desktop_file_id(relative: &FilePath) -> (id: Option<String>)
    ensures
        match id {
            Some(id) => id_of(parts(relative@)) == Some(id@),
            None => id_of(parts(relative@)) is None,
        },
{
    let components = relative.components();
    let ghost all = parts(relative@);
    let mut id = String::new();
    let mut i: usize = 0;
    assert(all.take(0) =~= Seq::empty());
    while i < components.len()
        invariant
            i <= components.len(),
            views(components@) == all,
            all == parts(relative@),
            id_of(all.take(i as int)) == Some(id@),
        decreases components.len() - i,
    {
        proof {
            let next = all.take(i + 1);
            assert(next.drop_last() =~= all.take(i as int));
            assert(next.last() == views(components@)[i as int]);
        }
        let name = match &components[i] {
            Component::Normal(name) => read_utf8(name),
            _ => None,
        };
        let name = match name {
            Some(name) => name,
            None => {
                proof {
                    lemma_no_id(all, i + 1);
                }
                return None;
            },
        };
        if id.as_str().is_empty() {
            id = name;
        } else {
            id.push('-');
            id.append(name.as_str());
        }
        i += 1;
    }
    assert(all.take(i as int) =~= all);
    Some(id)
}

/// An entry of a directory.
#[derive(Debug)]
pub enum DirEntry {
    /// A directory.
    Dir {
        /// Its name.
        name: Vec<u8>,
        /// What is in it, as far as it can be listed.
        entries: Vec<DirEntry>,
    },
    /// A file, or what is neither a file nor a directory.
    File {
        /// Its name.
        name: Vec<u8>,
        /// The text in it, if it can be read.
        contents: Option<String>,
    },
}

/// The name is that of a desktop file.
pub open spec fn desktop_name(name: Seq<u8>) -> bool {
    extension_of(name) == Some(encode_utf8("desktop"@))
}

/// Whether a name is that of a desktop file.
pub fn is_desktop_name(name: &Vec<u8>) -> (result: bool)
    ensures
        result == desktop_name(name@),
{
    match name_extension(name) {
        Some(extension) => {
            let desktop = FilePath::from_text("desktop");
            bytes_equal(&extension, &desktop.bytes)
        },
        None => false,
    }
}

/// The keys of a desktop file: its identifier with and without suffix, its name without extension,
/// and the class of its windows.
pub open spec fn file_keys(
    dir: Seq<u8>,
    name: Seq<u8>,
    contents: Option<String>,
) -> Seq<(Seq<char>, Source)> {
    match contents {
        Some(contents) if desktop_name(name) => {
            let r = reading(contents@);
            match r.icon {
                Some(icon) => keys_of(dir, name, source_of(unescaped(icon)), r.class),
                None => Seq::empty(),
            }
        },
        _ => Seq::empty(),
    }
}

/// The keys of a desktop file with an icon.
pub open spec fn keys_of(
    dir: Seq<u8>,
    name: Seq<u8>,
    icon: Source,
    class: Option<Seq<char>>,
) -> Seq<(Seq<char>, Source)> {
    (match id_of(parts(joined(dir, name))) {
        Some(id) => seq![(id, icon), (without_suffix(id), icon)],
        None => Seq::empty(),
    }) + (if valid_utf8(stem_of(name)) {
        seq![(decode_utf8(stem_of(name)), icon)]
    } else {
        Seq::empty()
    }) + (match class {
        Some(class) => seq![(unescaped(class), icon)],
        None => Seq::empty(),
    })
}

/// The keys of the files in a directory.
pub open spec fn keys_of_files(entries: Seq<DirEntry>, dir: Seq<u8>) -> Seq<(Seq<char>, Source)>
    decreases entries.len(),
{
    if entries.len() == 0 {
        Seq::empty()
    } else {
        keys_of_files(entries.drop_last(), dir) + match entries.last() {
            DirEntry::File { name, contents } => file_keys(dir, name@, contents),
            DirEntry::Dir { .. } => Seq::empty(),
        }
    }
}

/// The keys below the directories in a directory, the last one first.
pub open spec fn keys_of_dirs(entries: Seq<DirEntry>, dir: Seq<u8>) -> Seq<(Seq<char>, Source)>
    decreases entries, 0nat,
{
    if entries.len() == 0 {
        Seq::empty()
    } else {
        let last = entries[entries.len() - 1];
        let rest = entries.subrange(0, entries.len() - 1);
        (match last {
            DirEntry::Dir { name, entries: below } => keys_below(below@, joined(dir, name@)),
            DirEntry::File { .. } => Seq::empty(),
        }) + keys_of_dirs(rest, dir)
    }
}

/// The keys below a directory: those of its files, then those below its directories.
pub open spec fn keys_below(entries: Seq<DirEntry>, dir: Seq<u8>) -> Seq<(Seq<char>, Source)>
    decreases entries, 1nat,
{
    keys_of_files(entries, dir) + keys_of_dirs(entries, dir)
}

/// Taking keys in two portions is taking them all.
proof fn lemma_with_keys(
    icons: Map<Seq<char>, Source>,
    a: Seq<(Seq<char>, Source)>,
    b: Seq<(Seq<char>, Source)>,
)
    ensures
        with_keys(icons, a + b) == with_keys(with_keys(icons, a), b),
    decreases b.len(),
{
    if b.len() == 0 {
        assert(a + b =~= a);
    } else {
        assert((a + b).drop_last() =~= a + b.drop_last());
        assert((a + b).last() == b.last());
        lemma_with_keys(icons, a, b.drop_last());
    }
}

/// Taking one key.
proof fn lemma_with_one_key(icons: Map<Seq<char>, Source>, key: Seq<char>, icon: Source)
    ensures
        with_keys(icons, seq![(key, icon)]) == with_key(icons, key, icon),
{
    let keys = seq![(key, icon)];
    assert(keys.drop_last() =~= Seq::empty());
    assert(with_keys(icons, keys.drop_last()) == icons);
}

impl DesktopEntryIndex {
    fn insert_file(&mut self, dir: &FilePath, name: &Vec<u8>, contents: &Option<String>)
        ensures
            final(self)@ == with_keys(old(self)@, file_keys(dir@, name@, *contents)),
    {
        if !is_desktop_name(name) {
            return ;
        }
        let contents = match contents {
            Some(contents) => contents,
            None => return ,
        };
        let entry = match parse_desktop_entry(contents.as_str()) {
            Some(entry) => entry,
            None => return ,
        };
        let ghost icon = entry.icon@;
        let ghost m0 = self@;
        let ghost keys1 = match id_of(parts(joined(dir@, name@))) {
            Some(id) => seq![(id, icon), (without_suffix(id), icon)],
            None => Seq::<(Seq<char>, Source)>::empty(),
        };
        let relative = dir.join(&FilePath { bytes: copy_bytes(name) });
        if let Some(desktop_id) = desktop_file_id(&relative) {
            self.insert(desktop_id.as_str(), &entry.icon);
            self.insert(trim_desktop_suffix(desktop_id.as_str()), &entry.icon);
            proof {
                let a = seq![(desktop_id@, icon)];
                let b = seq![(without_suffix(desktop_id@), icon)];
                lemma_with_keys(m0, a, b);
                lemma_with_one_key(m0, desktop_id@, icon);
                lemma_with_one_key(with_keys(m0, a), without_suffix(desktop_id@), icon);
                assert(a + b =~= keys1);
            }
        }
        assert(self@ == with_keys(m0, keys1));

        let ghost keys2 = if valid_utf8(stem_of(name@)) {
            seq![(decode_utf8(stem_of(name@)), icon)]
        } else {
            Seq::<(Seq<char>, Source)>::empty()
        };
        proof {
            lemma_with_keys(m0, keys1, keys2);
        }
        if let Some(stem) = read_utf8(&name_stem(name)) {
            self.insert(stem.as_str(), &entry.icon);
            proof {
                lemma_with_one_key(with_keys(m0, keys1), stem@, icon);
            }
        }
        assert(self@ == with_keys(m0, keys1 + keys2));

        let ghost class = reading(contents@).class;
        let ghost keys3 = match class {
            Some(class) => seq![(unescaped(class), icon)],
            None => Seq::<(Seq<char>, Source)>::empty(),
        };
        proof {
            lemma_with_keys(m0, keys1 + keys2, keys3);
        }
        if let Some(startup_wm_class) = entry.startup_wm_class {
            self.insert(startup_wm_class.as_str(), &entry.icon);
            proof {
                lemma_with_one_key(with_keys(m0, keys1 + keys2), startup_wm_class@, icon);
            }
        }
        assert(keys_of(dir@, name@, icon, class) =~= keys1 + keys2 + keys3);
    }

    fn insert_files(&mut self, entries: &Vec<DirEntry>, dir: &FilePath)
        ensures
            final(self)@ == with_keys(old(self)@, keys_of_files(entries@, dir@)),
    {
        let ghost m0 = self@;
        let mut i: usize = 0;
        assert(entries@.take(0) =~= Seq::empty());
        while i < entries.len()
            invariant
                i <= entries.len(),
                self@ == with_keys(m0, keys_of_files(entries@.take(i as int), dir@)),
            decreases entries.len() - i,
        {
            let ghost before = keys_of_files(entries@.take(i as int), dir@);
            proof {
                let next = entries@.take(i + 1);
                assert(next.drop_last() =~= entries@.take(i as int));
                assert(next.last() == entries@[i as int]);
            }
            match &entries[i] {
                DirEntry::File { name, contents } => {
                    proof {
                        lemma_with_keys(m0, before, file_keys(dir@, name@, *contents));
                    }
                    self.insert_file(dir, name, contents);
                },
                DirEntry::Dir { .. } => {
                    assert(before + Seq::<(Seq<char>, Source)>::empty() =~= before);
                },
            }
            i += 1;
        }
        assert(entries@.take(i as int) =~= entries@);
    }

    fn insert_below(&mut self, entries: &Vec<DirEntry>, dir: &FilePath)
        ensures
            final(self)@ == with_keys(old(self)@, keys_below(entries@, dir@)),
        decreases entries,
    {
        let ghost m0 = self@;
        self.insert_files(entries, dir);
        let ghost m1 = self@;
        let ghost all = keys_of_dirs(entries@, dir@);
        let ghost mut done: Seq<(Seq<char>, Source)> = Seq::empty();
        let mut i: usize = entries.len();
        assert(entries@.subrange(0, i as int) =~= entries@);
        assert(done + all =~= all);
        while i > 0
            invariant
                i <= entries.len(),
                self@ == with_keys(m1, done),
                all == done + keys_of_dirs(entries@.subrange(0, i as int), dir@),
            decreases i,
        {
            let ghost rest = entries@.subrange(0, i as int);
            i -= 1;
            proof {
                assert(rest.subrange(0, i as int) =~= entries@.subrange(0, i as int));
                assert(rest[i as int] == entries@[i as int]);
            }
            match &entries[i] {
                DirEntry::Dir { name, entries: below } => {
                    let path = dir.join(&FilePath { bytes: copy_bytes(name) });
                    proof {
                        let here = keys_below(below@, joined(dir@, name@));
                        lemma_with_keys(m1, done, here);
                        assert(done + (here + keys_of_dirs(entries@.subrange(0, i as int), dir@))
                            =~= (done + here) + keys_of_dirs(
                            entries@.subrange(0, i as int),
                            dir@,
                        ));
                        done = done + here;
                    }
                    self.insert_below(below, &path);
                },
                DirEntry::File { .. } => {
                    assert(Seq::<(Seq<char>, Source)>::empty() + keys_of_dirs(
                        entries@.subrange(0, i as int),
                        dir@,
                    ) =~= keys_of_dirs(entries@.subrange(0, i as int), dir@));
                },
            }
        }
        proof {
            assert(entries@.subrange(0, 0) =~= Seq::empty());
            assert(all =~= done);
            lemma_with_keys(m0, keys_of_files(entries@, dir@), all);
        }
    }
}

/// Walks one application directory and records usable desktop entries.
///
/// Files are taken before directories, and of the directories the last one first. Entries are
/// indexed by desktop-file identifier, file stem, and `StartupWMClass`.
pub fn scan_application_dir(root: &Vec<DirEntry>, index: &mut DesktopEntryIndex)
    ensures
        final(index)@ == with_keys(old(index)@, keys_below(root@, Seq::empty())),
{
    let dir = FilePath { bytes: Vec::new() };
    assert(dir@ =~= Seq::empty());
    index.insert_below(root, &dir);
}

/// The keys below several directories, in their order.
pub open spec fn keys_of_roots(roots: Seq<Vec<DirEntry>>) -> Seq<(Seq<char>, Source)>
    decreases roots.len(),
{
    if roots.len() == 0 {
        Seq::empty()
    } else {
        keys_of_roots(roots.drop_last()) + keys_below(roots.last()@, Seq::empty())
    }
}

/// The table of everything below the application directories.
pub open spec fn index_of(roots: Seq<Vec<DirEntry>>) -> Map<Seq<char>, Source> {
    with_keys(Map::empty(), keys_of_roots(roots))
}

/// Scans application directories into a table. Later duplicate keys do not overwrite earlier ones.
pub fn build_desktop_entry_index(roots: &Vec<Vec<DirEntry>>) -> (index: DesktopEntryIndex)
    ensures
        index@ == index_of(roots@),
{
    let mut index = DesktopEntryIndex::new();
    let ghost m0 = index@;
    let mut i: usize = 0;
    assert(roots@.take(0) =~= Seq::empty());
    while i < roots.len()
        invariant
            i <= roots.len(),
            m0 == Map::<Seq<char>, Source>::empty(),
            index@ == with_keys(m0, keys_of_roots(roots@.take(i as int))),
        decreases roots.len() - i,
    {
        proof {
            let next = roots@.take(i + 1);
            assert(next.drop_last() =~= roots@.take(i as int));
            assert(next.last() == roots@[i as int]);
            lemma_with_keys(
                m0,
                keys_of_roots(roots@.take(i as int)),
                keys_below(roots@[i as int]@, Seq::empty()),
            );
        }
        scan_application_dir(&roots[i], &mut index);
        i += 1;
    }
    assert(roots@.take(i as int) =~= roots@);
    index
}

/// Returns the table of this process, building it on first use.
pub fn desktop_entry_index<F: FnOnce() -> Vec<Vec<DirEntry>>>(
    slot: &mut Option<DesktopEntryIndex>,
    list: F,
) -> (index: &DesktopEntryIndex)
    requires
        list.requires(()),
    ensures
        *final(slot) == Some(*index),
        *old(slot) is Some ==> *final(slot) == *old(slot),
        *old(slot) is None ==> exists|roots: Vec<Vec<DirEntry>>| #[trigger]
            list.ensures((), roots) && index@ == index_of(roots@),
{
    if slot.is_none() {
        let roots = list();
        *slot = Some(build_desktop_entry_index(&roots));
    }
    slot.as_ref().unwrap()
}

/// The first key wins: what a table says of a key, it still says after more keys were taken.
pub proof fn first_key_wins(
    icons: Map<Seq<char>, Source>,
    keys: Seq<(Seq<char>, Source)>,
    key: Seq<char>,
)
    requires
        icons.contains_key(key),
    ensures
        with_keys(icons, keys).contains_key(key),
        with_keys(icons, keys)[key] == icons[key],
    decreases keys.len(),
{
    if keys.len() > 0 {
        first_key_wins(icons, keys.drop_last(), key);
    }
}

/// A key that was taken is found, as it is written and in lower case.
pub proof fn taken_key_is_found(
    icons: Map<Seq<char>, Source>,
    keys: Seq<(Seq<char>, Source)>,
    i: int,
)
    requires
        0 <= i < keys.len(),
        trimmed(keys[i].0).len() > 0,
    ensures
        with_keys(icons, keys).contains_key(trimmed(keys[i].0)),
        with_keys(icons, keys).contains_key(lowercase(trimmed(keys[i].0))),
    decreases keys.len(),
{
    if i < keys.len() - 1 {
        taken_key_is_found(icons, keys.drop_last(), i);
    }
}

/// A higher-priority directory wins: a key that the first directories have is not changed by the
/// last one.
pub proof fn earlier_directory_wins(roots: Seq<Vec<DirEntry>>, key: Seq<char>)
    requires
        roots.len() > 0,
        index_of(roots.drop_last()).contains_key(key),
    ensures
        index_of(roots).contains_key(key),
        index_of(roots)[key] == index_of(roots.drop_last())[key],
{
    let before = keys_of_roots(roots.drop_last());
    let more = keys_below(roots.last()@, Seq::empty());
    lemma_with_keys(Map::empty(), before, more);
    first_key_wins(with_keys(Map::empty(), before), more, key);
}

/// A value without backslashes stays as it is.
pub proof fn plain_values_stay(value: Seq<char>)
    requires
        !value.contains('\\'),
    ensures
        unescaped(value) == value,
    decreases value.len(),
{
    if value.len() > 0 {
        assert(value.contains(value[0]));
        assert(!value.skip(1).contains('\\')) by {
            if value.skip(1).contains('\\') {
                let i = value.skip(1).index_of('\\');
                assert(value[i + 1] == '\\');
            }
        }
        plain_values_stay(value.skip(1));
        assert(seq![value[0]] + value.skip(1) =~= value);
    }
}

/// Decoding never makes a value longer.
pub proof fn unescaping_does_not_lengthen(value: Seq<char>)
    ensures
        unescaped(value).len() <= value.len(),
    decreases value.len(),
{
    if value.len() > 0 {
        if value[0] != '\\' || value.len() == 1 {
            unescaping_does_not_lengthen(value.skip(1));
        } else {
            unescaping_does_not_lengthen(value.skip(2));
        }
    }
}

/// A suffix is removed once.
pub proof fn suffix_is_removed(stem: Seq<char>)
    ensures
        without_suffix(stem + ".desktop"@) == stem,
{
    let full = stem + ".desktop"@;
    assert(full.subrange(full.len() - ".desktop"@.len(), full.len() as int) =~= ".desktop"@);
    assert(full.take(full.len() - ".desktop"@.len()) =~= stem);
}

proof fn lemma_slash(c: char)
    ensures
        c as u32 == 0x2f <==> c == '/',
{
    char_u32_cast(c, c as u32);
    assert('/' as u32 == 0x2f);
}

/// A value names a file exactly where it begins with a slash.
pub proof fn slash_names_a_file(text: Seq<char>)
    ensures
        source_of(text) is File <==> text.len() > 0 && text[0] == '/',
{
    if text.len() > 0 {
        let n = text[0] as u32;
        char_is_scalar(text[0]);
        lemma_slash(text[0]);
        assert(n < 0x80 ==> ((n & 0x7f) as u8 == 0x2f <==> n == 0x2f)) by (bit_vector);
        assert((0xc0u8 | ((n >> 6) & 0x1f) as u8) != 0x2f) by (bit_vector);
        assert((0xe0u8 | ((n >> 12) & 0x0f) as u8) != 0x2f) by (bit_vector);
        assert((0xf0u8 | ((n >> 18) & 0x7) as u8) != 0x2f) by (bit_vector);
        assert(encode_utf8(text)[0] == encode_scalar(n)[0]);
        assert(encode_scalar(n)[0] == 0x2f <==> n == 0x2f);
    } else {
        assert(encode_utf8(text) =~= Seq::empty());
    }
}

} // verus!
