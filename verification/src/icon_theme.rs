//! Looking up icons by name in icon themes.
use crate::path::{
    bytes_before, bytes_equal, copy_bytes, dictionary_order, extension_of, file_name,
    is_bytes_before, joined, name_extension, parts, read_utf8, FilePath,
};
use crate::sorting::{is_ordering, is_sorted_from, is_sorting, picked, precedes, stable_sort};
use crate::text::{
    ascii_lowercase, contains, contains_part, find_char, first_index, from_chars, parse_i32,
    parsed_i32, slice_of, to_ascii_lowercase, to_chars,
};
use crate::xdg::{dirs_for, path_views, pixmap_dirs, Environment};
use vstd::prelude::*;
use vstd::utf8::{decode_utf8, encode_utf8, valid_utf8};

verus! {

/// The bytes are those of a file extension that icons have.
pub open spec fn icon_extension(extension: Seq<u8>) -> bool {
    extension == encode_utf8("svg"@) || extension == encode_utf8("png"@) || extension
        == encode_utf8("xpm"@)
}

/// The name of an icon is that of a file.
pub open spec fn known_extension(icon_name: Seq<char>) -> bool {
    match file_name(encode_utf8(icon_name)) {
        Some(name) => match extension_of(name) {
            Some(extension) => icon_extension(extension),
            None => false,
        },
        None => false,
    }
}

/// Checks whether an icon name already has a file extension. Dotted app identifiers are not
/// treated as file names unless their end is an icon format.
pub fn has_known_icon_extension(icon_name: &str) -> (result: bool)
    ensures
        result == known_extension(icon_name@),
{
    let path = FilePath::from_text(icon_name);
    let name = match path.file_name() {
        Some(name) => name,
        None => return false,
    };
    let extension = match name_extension(&name) {
        Some(extension) => extension,
        None => return false,
    };
    let svg = FilePath::from_text("svg");
    let png = FilePath::from_text("png");
    let xpm = FilePath::from_text("xpm");
    bytes_equal(&extension, &svg.bytes) || bytes_equal(&extension, &png.bytes) || bytes_equal(
        &extension,
        &xpm.bytes,
    )
}

/// The file names of an icon, with their priorities.
pub open spec fn names_of(icon_name: Seq<char>) -> Seq<(u16, Seq<char>)> {
    if known_extension(icon_name) {
        seq![(0u16, icon_name)]
    } else {
        seq![
            (0u16, icon_name + ".svg"@),
            (1u16, icon_name + ".png"@),
            (2u16, icon_name + ".xpm"@),
        ]
    }
}

/// The file names as texts.
pub open spec fn name_views(names: Seq<(u16, String)>) -> Seq<(u16, Seq<char>)> {
    names.map_values(|name: (u16, String)| (name.0, name.1@))
}

fn with_ending(name: &str, ending: &str) -> (full: String)
    ensures
        full@ == name@ + ending@,
{
    let mut full = name.to_owned();
    full.append(ending);
    full
}

/// Returns possible file names for an icon name, preserving explicit known extensions. A scalable
/// format is tried before raster formats.
pub fn icon_file_names(icon_name: &str) -> (names: Vec<(u16, String)>)
    ensures
        name_views(names@) == names_of(icon_name@),
{
    let mut names: Vec<(u16, String)> = Vec::new();
    if has_known_icon_extension(icon_name) {
        names.push((0, icon_name.to_owned()));
    } else {
        names.push((0, with_ending(icon_name, ".svg")));
        names.push((1, with_ending(icon_name, ".png")));
        names.push((2, with_ending(icon_name, ".xpm")));
    }
    assert(name_views(names@) =~= names_of(icon_name@));
    names
}

/// The priority of an icon theme, the lower the better: the one that the user asked for, then the
/// two common ones.
pub open spec fn priority_of(theme_name: Seq<char>, wanted: Option<String>) -> u16 {
    if wanted matches Some(wanted) && wanted@ == theme_name {
        0
    } else if theme_name == "hicolor"@ {
        10
    } else if theme_name == "Adwaita"@ {
        20
    } else {
        100
    }
}

/// Scores an icon theme. `wanted` is the theme that the user asked for.
pub fn theme_priority(theme_name: &String, wanted: &Option<String>) -> (priority: u16)
    ensures
        priority == priority_of(theme_name@, *wanted),
{
    let asked_for = match wanted {
        Some(wanted) => *wanted == *theme_name,
        None => false,
    };
    if asked_for {
        0
    } else if *theme_name == "hicolor".to_owned() {
        10
    } else if *theme_name == "Adwaita".to_owned() {
        20
    } else {
        100
    }
}

/// The part of a size name before a scale.
pub open spec fn size_base(s: Seq<char>) -> Seq<char> {
    s.take(first_index(s, '@'))
}

/// The scale in a size name, `1` where there is none.
pub open spec fn size_scale(s: Seq<char>) -> Option<int> {
    let at = first_index(s, '@');
    if at < s.len() {
        parsed_i32(s.skip(at + 1))
    } else {
        Some(1)
    }
}

/// The size that a directory name like `48x48` or `32x32@2` stands for, whatever its magnitude:
/// the larger side times the scale, a scale below one counting as one.
pub open spec fn dir_size(s: Seq<char>) -> Option<int> {
    let base = size_base(s);
    let x = first_index(base, 'x');
    if x < base.len() {
        match (parsed_i32(base.take(x)), parsed_i32(base.skip(x + 1)), size_scale(s)) {
            (Some(w), Some(h), Some(scale)) => Some(
                (if w > h {
                    w
                } else {
                    h
                }) * (if scale > 1 {
                    scale
                } else {
                    1
                }),
            ),
            _ => None,
        }
    } else {
        None
    }
}

/// The number fits into 32 bits.
pub open spec fn fits(n: int) -> bool {
    i32::MIN <= n <= i32::MAX
}

/// The size that a directory name stands for fits into 32 bits.
pub open spec fn size_fits(s: Seq<char>) -> bool {
    dir_size(s) matches Some(n) ==> fits(n)
}

/// The size that a directory name stands for, in more bits than it can need.
fn wide_dir_size(chars: &Vec<char>) -> (size: Option<i64>)
    ensures
        match size {
            Some(size) => dir_size(chars@) == Some(size as int),
            None => dir_size(chars@) is None,
        },
        size matches Some(size) ==> -0x8000_0000 * 0x7fff_ffff <= size <= 0x7fff_ffff * 0x7fff_ffff,
{
    let at = find_char(chars, '@');
    let base = slice_of(chars, 0, at);
    assert(base@ =~= size_base(chars@));
    let x = find_char(&base, 'x');
    if x == base.len() {
        return None;
    }
    let left = slice_of(&base, 0, x);
    let right = slice_of(&base, x + 1, base.len());
    assert(left@ =~= base@.take(x as int));
    assert(right@ =~= base@.skip(x + 1));
    let width: i32 = match parse_i32(&left) {
        Some(width) => width,
        None => return None,
    };
    let height: i32 = match parse_i32(&right) {
        Some(height) => height,
        None => return None,
    };
    let scale: i32 = if at < chars.len() {
        let text = slice_of(chars, at + 1, chars.len());
        assert(text@ =~= chars@.skip(at + 1));
        match parse_i32(&text) {
            Some(scale) => scale,
            None => return None,
        }
    } else {
        1
    };
    let side: i64 = if width > height {
        width as i64
    } else {
        height as i64
    };
    let factor: i64 = if scale > 1 {
        scale as i64
    } else {
        1
    };
    assert(-0x8000_0000 * 0x7fff_ffff <= side * factor <= 0x7fff_ffff * 0x7fff_ffff)
        by (nonlinear_arith)
        requires
            -0x8000_0000 <= side <= 0x7fff_ffff,
            1 <= factor <= 0x7fff_ffff,
    ;
    Some(side * factor)
}

/// Parses icon-theme size directory names like `48x48` or `32x32@2`. The returned value is the
/// effective physical size, using the larger dimension for safety.
pub fn parse_icon_dir_size(size_name: &str) -> (size: Option<i32>)
    requires
        size_fits(size_name@),
    ensures
        match size {
            Some(size) => dir_size(size_name@) == Some(size as int),
            None => dir_size(size_name@) is None,
        },
{
    match wide_dir_size(&to_chars(size_name)) {
        Some(size) => Some(size as i32),
        None => None,
    }
}

/// Whether the size that a directory name stands for fits into 32 bits.
pub fn icon_dir_size_fits(size_name: &str) -> (result: bool)
    ensures
        result == size_fits(size_name@),
{
    match wide_dir_size(&to_chars(size_name)) {
        Some(size) => -0x8000_0000 <= size && size <= 0x7fff_ffff,
        None => true,
    }
}

/// How far a size directory is from what is asked for. Scalable directories are ideal, and
/// symbolic icons are worst; unknown names are in between.
pub open spec fn size_score(size_name: Seq<char>, desired_size: int) -> int {
    let lower = ascii_lowercase(size_name);
    if contains_part(lower, "symbolic"@) {
        2000
    } else if contains_part(lower, "scalable"@) {
        0
    } else {
        match dir_size(lower) {
            Some(size) => {
                let distance = if size < desired_size {
                    desired_size - size
                } else {
                    size - desired_size
                };
                if distance < 1999 {
                    distance
                } else {
                    1999
                }
            },
            None => 1000,
        }
    }
}

/// Scoring a size directory stays within 32 bits: neither its size nor how far that is from what
/// is asked for is larger.
pub open spec fn score_fits(size_name: Seq<char>, desired_size: int) -> bool {
    let lower = ascii_lowercase(size_name);
    ||| contains_part(lower, "symbolic"@)
    ||| contains_part(lower, "scalable"@)
    ||| dir_size(lower) is None
    ||| fits(dir_size(lower)->0) && fits(dir_size(lower)->0 - desired_size)
}

/// Whether scoring a size directory stays within 32 bits.
pub fn icon_size_score_fits(size_name: &str, desired_size: i32) -> (result: bool)
    ensures
        result == score_fits(size_name@, desired_size as int),
{
    let lower = to_ascii_lowercase(size_name);
    if contains(&lower, "symbolic") || contains(&lower, "scalable") {
        return true;
    }
    match wide_dir_size(&lower) {
        Some(size) => {
            -0x8000_0000 <= size && size <= 0x7fff_ffff && -0x8000_0000 <= size - desired_size as i64
                && size - desired_size as i64 <= 0x7fff_ffff
        },
        None => true,
    }
}

/// Scores an icon size directory by closeness to the requested physical size.
pub fn icon_size_score(size_name: &str, desired_size: i32) -> (score: u16)
    requires
        score_fits(size_name@, desired_size as int),
    ensures
        score == size_score(size_name@, desired_size as int),
{
    let lower = to_ascii_lowercase(size_name);

    if contains(&lower, "symbolic") {
        return 2000;
    }
    if contains(&lower, "scalable") {
        return 0;
    }

    match parse_icon_dir_size(from_chars(&lower).as_str()) {
        Some(size) => {
            let distance: i64 = if size < desired_size {
                desired_size as i64 - size as i64
            } else {
                size as i64 - desired_size as i64
            };
            if distance < 1999 {
                distance as u16
            } else {
                1999
            }
        },
        None => 1000,
    }
}

/// What knows the files.
///
/// The method carries no contract: a file may come and go at any time.
pub trait Files {
    /// Whether there is a file at a path.
    fn is_file(&self, path: &FilePath) -> bool;
}

/// `answer` was given to whether there is a file at the path.
pub open spec fn is_file_answer<F: Files>(files: &F, path: Seq<u8>, answer: bool) -> bool {
    exists|p: FilePath| p@ == path && #[trigger] call_ensures(F::is_file, (files, &p), answer)
}

/// How good a candidate is, part by part, the lower the better: theme, size, context, format, and
/// root directory.
pub type Score = (u16, u16, u16, u16, u16);

/// The score of a directory: theme, size, context, and root directory.
pub type BaseScore = (u16, u16, u16, u16);

/// The score is better.
pub open spec fn better(a: Score, b: Score) -> bool {
    ||| a.0 < b.0
    ||| a.0 == b.0 && a.1 < b.1
    ||| a.0 == b.0 && a.1 == b.1 && a.2 < b.2
    ||| a.0 == b.0 && a.1 == b.1 && a.2 == b.2 && a.3 < b.3
    ||| a.0 == b.0 && a.1 == b.1 && a.2 == b.2 && a.3 == b.3 && a.4 < b.4
}

/// A file found for an icon.
pub type Candidate = (Score, FilePath);

/// The candidates with their paths as bytes.
pub open spec fn candidate_views(candidates: Seq<Candidate>) -> Seq<(Score, Seq<u8>)> {
    candidates.map_values(|c: Candidate| (c.0, c.1@))
}

/// The files of a directory that are there, as `answers` tell, with their scores.
pub open spec fn found_in(
    dir: Seq<u8>,
    base: BaseScore,
    names: Seq<(u16, Seq<char>)>,
    answers: Seq<bool>,
) -> Seq<(Score, Seq<u8>)>
    decreases names.len(),
{
    if names.len() == 0 {
        Seq::empty()
    } else {
        let before = found_in(dir, base, names.drop_last(), answers);
        let (priority, name) = names.last();
        if answers[names.len() - 1] {
            before.push(
                ((base.0, base.1, base.2, priority, base.3), joined(dir, encode_utf8(name))),
            )
        } else {
            before
        }
    }
}

/// `answers` were given to which of the files of a directory are there.
pub open spec fn are_file_answers<F: Files>(
    files: &F,
    dir: Seq<u8>,
    names: Seq<(u16, Seq<char>)>,
    answers: Seq<bool>,
) -> bool {
    &&& answers.len() == names.len()
    &&& forall|i: int|
        0 <= i < names.len() ==> is_file_answer(
            files,
            joined(dir, encode_utf8(names[i].1)),
            #[trigger] answers[i],
        )
}

/// `found` are the files of an icon that are in a directory.
pub open spec fn is_found_in<F: Files>(
    files: &F,
    dir: Seq<u8>,
    icon_name: Seq<char>,
    base: BaseScore,
    found: Seq<(Score, Seq<u8>)>,
) -> bool {
    exists|answers: Seq<bool>| #[trigger]
        are_file_answers(files, dir, names_of(icon_name), answers) && found == found_in(
            dir,
            base,
            names_of(icon_name),
            answers,
        )
}

/// The files found depend on the answers for their names alone.
proof fn lemma_found_in(
    dir: Seq<u8>,
    base: BaseScore,
    names: Seq<(u16, Seq<char>)>,
    a: Seq<bool>,
    b: Seq<bool>,
)
    requires
        names.len() <= a.len(),
        names.len() <= b.len(),
        forall|i: int| 0 <= i < names.len() ==> a[i] == b[i],
    ensures
        found_in(dir, base, names, a) == found_in(dir, base, names, b),
    decreases names.len(),
{
    if names.len() > 0 {
        lemma_found_in(dir, base, names.drop_last(), a, b);
    }
}

/// Adds the icon files of one directory to the scored candidates.
pub fn add_icon_file_candidates<F: Files>(
    candidates: &mut Vec<Candidate>,
    files: &F,
    dir: &FilePath,
    icon_name: &str,
    base_score: BaseScore,
)
    ensures
        exists|found: Seq<(Score, Seq<u8>)>| #[trigger]
            is_found_in(files, dir@, icon_name@, base_score, found) && candidate_views(
                final(candidates)@,
            ) == candidate_views(old(candidates)@) + found,
{
    let names = icon_file_names(icon_name);
    let ghost all = names_of(icon_name@);
    let ghost start = candidate_views(candidates@);
    let ghost mut answers: Seq<bool> = Seq::empty();
    let mut i: usize = 0;
    assert(all.take(0) =~= Seq::empty());
    assert(candidate_views(candidates@) =~= start + found_in(
        dir@,
        base_score,
        all.take(0),
        answers,
    ));
    while i < names.len()
        invariant
            i <= names.len(),
            name_views(names@) == all,
            answers.len() == i,
            forall|j: int|
                0 <= j < i ==> is_file_answer(
                    files,
                    joined(dir@, encode_utf8(all[j].1)),
                    #[trigger] answers[j],
                ),
            candidate_views(candidates@) == start + found_in(
                dir@,
                base_score,
                all.take(i as int),
                answers,
            ),
        decreases names.len() - i,
    {
        let ghost before = candidates@;
        let ghost old_answers = answers;
        assert(name_views(names@)[i as int] == (names@[i as int].0, names@[i as int].1@));
        let priority: u16 = names[i].0;
        let path = dir.join(&FilePath::from_text(names[i].1.as_str()));
        let there = files.is_file(&path);
        proof {
            assert(is_file_answer(files, path@, there));
            answers = answers.push(there);
            let next = all.take(i + 1);
            assert(next.drop_last() =~= all.take(i as int));
            assert(next.last() == all[i as int]);
            lemma_found_in(dir@, base_score, all.take(i as int), old_answers, answers);
        }
        if there {
            candidates.push(
                (
                    (base_score.0, base_score.1, base_score.2, priority, base_score.3),
                    path,
                ),
            );
            assert(candidate_views(candidates@) =~= candidate_views(before).push(
                ((base_score.0, base_score.1, base_score.2, priority, base_score.3), path@),
            ));
        }
        i += 1;
        assert(candidate_views(candidates@) =~= start + found_in(
            dir@,
            base_score,
            all.take(i as int),
            answers,
        ));
    }
    proof {
        assert(all.take(i as int) =~= all);
        assert(are_file_answers(files, dir@, all, answers));
        assert(is_found_in(
            files,
            dir@,
            icon_name@,
            base_score,
            found_in(dir@, base_score, all, answers),
        ));
    }
}

/// A directory of an icon theme, with the names of the size directories in it.
#[derive(Debug)]
pub struct ThemeListing {
    /// The name of the theme.
    pub name: Vec<u8>,
    /// The names of the directories in it.
    pub sizes: Vec<Vec<u8>>,
}

/// A directory of icon themes.
#[derive(Debug)]
pub struct RootListing {
    /// The directory.
    pub path: FilePath,
    /// The themes in it.
    pub themes: Vec<ThemeListing>,
}

/// A directory to look in, and its score.
pub type Place = (Seq<u8>, BaseScore);

/// The places of a size directory: its directory of application icons, then itself.
pub open spec fn places_of_size(
    theme: Seq<u8>,
    priority: u16,
    root_order: u16,
    size: Seq<u8>,
    desired_size: int,
) -> Seq<Place> {
    if valid_utf8(size) {
        let score = size_score(decode_utf8(size), desired_size) as u16;
        let dir = joined(theme, size);
        seq![
            (joined(dir, encode_utf8("apps"@)), (priority, score, 0u16, root_order)),
            (dir, (priority, score, 1u16, root_order)),
        ]
    } else {
        Seq::empty()
    }
}

/// The places of the size directories of a theme.
pub open spec fn places_of_sizes(
    theme: Seq<u8>,
    priority: u16,
    root_order: u16,
    sizes: Seq<Vec<u8>>,
    desired_size: int,
) -> Seq<Place>
    decreases sizes.len(),
{
    if sizes.len() == 0 {
        Seq::empty()
    } else {
        places_of_sizes(theme, priority, root_order, sizes.drop_last(), desired_size)
            + places_of_size(theme, priority, root_order, sizes.last()@, desired_size)
    }
}

/// The places of a theme. One whose name is not a text has none.
pub open spec fn places_of_theme(
    root: Seq<u8>,
    root_order: u16,
    theme: ThemeListing,
    wanted: Option<String>,
    desired_size: int,
) -> Seq<Place> {
    if valid_utf8(theme.name@) {
        places_of_sizes(
            joined(root, theme.name@),
            priority_of(decode_utf8(theme.name@), wanted),
            root_order,
            theme.sizes@,
            desired_size,
        )
    } else {
        Seq::empty()
    }
}

/// The places of themes.
pub open spec fn places_of_themes(
    root: Seq<u8>,
    root_order: u16,
    themes: Seq<ThemeListing>,
    wanted: Option<String>,
    desired_size: int,
) -> Seq<Place>
    decreases themes.len(),
{
    if themes.len() == 0 {
        Seq::empty()
    } else {
        places_of_themes(root, root_order, themes.drop_last(), wanted, desired_size)
            + places_of_theme(root, root_order, themes.last(), wanted, desired_size)
    }
}

/// The number cut to 16 bits.
pub open spec fn short(n: int) -> u16 {
    (n % 0x1_0000) as u16
}

/// The places of directories of icon themes.
pub open spec fn places_of_roots(
    roots: Seq<RootListing>,
    wanted: Option<String>,
    desired_size: int,
) -> Seq<Place>
    decreases roots.len(),
{
    if roots.len() == 0 {
        Seq::empty()
    } else {
        places_of_roots(roots.drop_last(), wanted, desired_size) + places_of_themes(
            roots.last().path@,
            short(roots.len() - 1),
            roots.last().themes@,
            wanted,
            desired_size,
        )
    }
}

/// The priority of loose icon files: a final fallback, behind every theme.
pub const PIXMAP_PRIORITY: u16 = 200;

/// The places of loose icon files.
pub open spec fn places_of_pixmaps(dirs: Seq<Seq<u8>>) -> Seq<Place> {
    dirs.map(|i: int, dir: Seq<u8>| (dir, (PIXMAP_PRIORITY, 0u16, 0u16, short(i))))
}

/// The portions one after the other.
pub open spec fn in_order(portions: Seq<Seq<(Score, Seq<u8>)>>) -> Seq<(Score, Seq<u8>)>
    decreases portions.len(),
{
    if portions.len() == 0 {
        Seq::empty()
    } else {
        in_order(portions.drop_last()) + portions.last()
    }
}

/// `portions` are the files of an icon in each of the places.
pub open spec fn are_found_in<F: Files>(
    files: &F,
    places: Seq<Place>,
    icon_name: Seq<char>,
    portions: Seq<Seq<(Score, Seq<u8>)>>,
) -> bool {
    &&& portions.len() == places.len()
    &&& forall|i: int|
        0 <= i < places.len() ==> is_found_in(
            files,
            places[i].0,
            icon_name,
            places[i].1,
            #[trigger] portions[i],
        )
}

/// `found` are the files of an icon in the places, one place after the other.
pub open spec fn is_found<F: Files>(
    files: &F,
    places: Seq<Place>,
    icon_name: Seq<char>,
    found: Seq<(Score, Seq<u8>)>,
) -> bool {
    exists|portions: Seq<Seq<(Score, Seq<u8>)>>| #[trigger]
        are_found_in(files, places, icon_name, portions) && found == in_order(portions)
}

/// The order of names.
pub open spec fn name_order() -> spec_fn(Vec<u8>, Vec<u8>) -> bool {
    |a: Vec<u8>, b: Vec<u8>| bytes_before(a@, b@)
}

/// The order of themes by name.
pub open spec fn theme_order() -> spec_fn(ThemeListing, ThemeListing) -> bool {
    |a: ThemeListing, b: ThemeListing| bytes_before(a.name@, b.name@)
}

/// The order of candidates by score.
pub open spec fn score_order() -> spec_fn(Candidate, Candidate) -> bool {
    |a: Candidate, b: Candidate| better(a.0, b.0)
}

/// Sorts the names of the directories in a directory, so that what comes first is the same on all
/// filesystems.
pub fn sorted_child_dirs(names: Vec<Vec<u8>>) -> (sorted: Vec<Vec<u8>>)
    ensures
        is_sorted_from(names@, name_order(), sorted@),
{
    let less = |a: &Vec<u8>, b: &Vec<u8>| -> (r: bool)
        ensures
            r == bytes_before(a@, b@),
        { is_bytes_before(a, b) };
    stable_sort(names, less, Ghost(name_order()))
}

/// `sorted` is the theme with its size directories in order.
pub open spec fn is_sorted_theme(theme: ThemeListing, sorted: ThemeListing) -> bool {
    sorted.name == theme.name && is_sorted_from(theme.sizes@, name_order(), sorted.sizes@)
}

/// `sorted` are the themes in order, with their size directories in order.
pub open spec fn are_sorted_themes(
    themes: Seq<ThemeListing>,
    sorted: Seq<ThemeListing>,
) -> bool {
    exists|order: Seq<ThemeListing>| #[trigger]
        is_sorted_from(themes, theme_order(), order) && sorted.len() == order.len() && forall|i: int|
            0 <= i < order.len() ==> is_sorted_theme(order[i], #[trigger] sorted[i])
}

/// `sorted` are the listings with their themes and size directories in order.
pub open spec fn are_sorted_roots(roots: Seq<RootListing>, sorted: Seq<RootListing>) -> bool {
    &&& sorted.len() == roots.len()
    &&& forall|i: int|
        0 <= i < roots.len() ==> (#[trigger] sorted[i]).path == roots[i].path && are_sorted_themes(
            roots[i].themes@,
            sorted[i].themes@,
        )
}

fn sort_themes(themes: Vec<ThemeListing>) -> (sorted: Vec<ThemeListing>)
    ensures
        are_sorted_themes(themes@, sorted@),
{
    let less = |a: &ThemeListing, b: &ThemeListing| -> (r: bool)
        ensures
            r == bytes_before(a.name@, b.name@),
        { is_bytes_before(&a.name, &b.name) };
    let by_name = stable_sort(themes, less, Ghost(theme_order()));
    let ghost order = by_name@;
    let mut sorted: Vec<ThemeListing> = Vec::new();
    for theme in it: by_name.into_iter()
        invariant
            it.seq() == order,
            sorted@.len() == it.index(),
            forall|i: int| 0 <= i < sorted@.len() ==> is_sorted_theme(order[i], #[trigger] sorted@[i]),
    {
        let ThemeListing { name, sizes } = theme;
        sorted.push(ThemeListing { name, sizes: sorted_child_dirs(sizes) });
    }
    sorted
}

fn sort_roots(roots: Vec<RootListing>) -> (sorted: Vec<RootListing>)
    ensures
        are_sorted_roots(roots@, sorted@),
{
    let ghost all = roots@;
    let mut sorted: Vec<RootListing> = Vec::new();
    for root in it: roots.into_iter()
        invariant
            it.seq() == all,
            sorted@.len() == it.index(),
            forall|i: int|
                0 <= i < sorted@.len() ==> (#[trigger] sorted@[i]).path == all[i].path
                    && are_sorted_themes(all[i].themes@, sorted@[i].themes@),
    {
        let RootListing { path, themes } = root;
        sorted.push(RootListing { path, themes: sort_themes(themes) });
    }
    sorted
}

/// The places with their directories as bytes.
pub open spec fn place_views(places: Seq<(FilePath, BaseScore)>) -> Seq<Place> {
    places.map_values(|p: (FilePath, BaseScore)| (p.0@, p.1))
}

/// Scoring the size directories of a theme stays within 32 bits.
pub open spec fn theme_fits(theme: ThemeListing, desired_size: int) -> bool {
    forall|i: int|
        0 <= i < theme.sizes@.len() && valid_utf8((#[trigger] theme.sizes@[i])@) ==> score_fits(
            decode_utf8(theme.sizes@[i]@),
            desired_size,
        )
}

/// Scoring all size directories stays within 32 bits.
pub open spec fn listing_fits(roots: Seq<RootListing>, desired_size: int) -> bool {
    forall|i: int, j: int|
        0 <= i < roots.len() && 0 <= j < roots[i].themes@.len() ==> theme_fits(
            #[trigger] roots[i].themes@[j],
            desired_size,
        )
}

fn add_places_of_theme(
    places: &mut Vec<(FilePath, BaseScore)>,
    root: &FilePath,
    root_order: u16,
    theme: &ThemeListing,
    wanted: &Option<String>,
    desired_size: i32,
)
    requires
        theme_fits(*theme, desired_size as int),
    ensures
        place_views(final(places)@) == place_views(old(places)@) + places_of_theme(
            root@,
            root_order,
            *theme,
            *wanted,
            desired_size as int,
        ),
{
    let theme_name = match read_utf8(&theme.name) {
        Some(theme_name) => theme_name,
        None => {
            assert(place_views(places@) =~= place_views(places@) + Seq::<Place>::empty());
            return ;
        },
    };
    let priority = theme_priority(&theme_name, wanted);
    let theme_dir = root.join(&FilePath { bytes: copy_bytes(&theme.name) });
    let ghost start = place_views(places@);
    let ghost sizes = theme.sizes@;
    let mut i: usize = 0;
    assert(sizes.take(0) =~= Seq::empty());
    assert(place_views(places@) =~= start + places_of_sizes(
        theme_dir@,
        priority,
        root_order,
        sizes.take(0),
        desired_size as int,
    ));
    while i < theme.sizes.len()
        invariant
            i <= theme.sizes.len(),
            sizes == theme.sizes@,
            theme_fits(*theme, desired_size as int),
            place_views(places@) == start + places_of_sizes(
                theme_dir@,
                priority,
                root_order,
                sizes.take(i as int),
                desired_size as int,
            ),
        decreases theme.sizes.len() - i,
    {
        let ghost before = places@;
        proof {
            let next = sizes.take(i + 1);
            assert(next.drop_last() =~= sizes.take(i as int));
            assert(next.last() == sizes[i as int]);
        }
        let ghost done = places_of_sizes(
            theme_dir@,
            priority,
            root_order,
            sizes.take(i as int),
            desired_size as int,
        );
        let ghost here = places_of_size(
            theme_dir@,
            priority,
            root_order,
            sizes[i as int]@,
            desired_size as int,
        );
        if let Some(size_name) = read_utf8(&theme.sizes[i]) {
            let score = icon_size_score(size_name.as_str(), desired_size);
            let dir = theme_dir.join(&FilePath { bytes: copy_bytes(&theme.sizes[i]) });
            let apps = dir.join(&FilePath::from_text("apps"));
            // Themes keep app icons in a directory of their own, but some place files directly in
            // the size directory, so keep both forms.
            places.push((apps, (priority, score, 0, root_order)));
            places.push((dir, (priority, score, 1, root_order)));
        }
        i += 1;
        assert(place_views(places@) =~= place_views(before) + here);
        assert(start + (done + here) =~= (start + done) + here);
    }
    assert(sizes.take(i as int) =~= sizes);
}

fn add_places_of_root(
    places: &mut Vec<(FilePath, BaseScore)>,
    root: &RootListing,
    root_order: u16,
    wanted: &Option<String>,
    desired_size: i32,
)
    requires
        forall|j: int|
            0 <= j < root.themes@.len() ==> theme_fits(
                #[trigger] root.themes@[j],
                desired_size as int,
            ),
    ensures
        place_views(final(places)@) == place_views(old(places)@) + places_of_themes(
            root.path@,
            root_order,
            root.themes@,
            *wanted,
            desired_size as int,
        ),
{
    let ghost start = place_views(places@);
    let ghost themes = root.themes@;
    let mut i: usize = 0;
    assert(themes.take(0) =~= Seq::empty());
    assert(place_views(places@) =~= start + places_of_themes(
        root.path@,
        root_order,
        themes.take(0),
        *wanted,
        desired_size as int,
    ));
    while i < root.themes.len()
        invariant
            i <= root.themes.len(),
            themes == root.themes@,
            forall|j: int|
                0 <= j < root.themes@.len() ==> theme_fits(
                    #[trigger] root.themes@[j],
                    desired_size as int,
                ),
            place_views(places@) == start + places_of_themes(
                root.path@,
                root_order,
                themes.take(i as int),
                *wanted,
                desired_size as int,
            ),
        decreases root.themes.len() - i,
    {
        proof {
            let next = themes.take(i + 1);
            assert(next.drop_last() =~= themes.take(i as int));
            assert(next.last() == themes[i as int]);
        }
        let ghost done = places_of_themes(
            root.path@,
            root_order,
            themes.take(i as int),
            *wanted,
            desired_size as int,
        );
        let ghost here = places_of_theme(
            root.path@,
            root_order,
            themes[i as int],
            *wanted,
            desired_size as int,
        );
        add_places_of_theme(places, &root.path, root_order, &root.themes[i], wanted, desired_size);
        i += 1;
        assert(start + (done + here) =~= (start + done) + here);
    }
    assert(themes.take(i as int) =~= themes);
}

/// Sorting does not change whether scoring stays within 32 bits.
proof fn lemma_sorted_fits(
    roots: Seq<RootListing>,
    sorted: Seq<RootListing>,
    desired_size: int,
)
    requires
        are_sorted_roots(roots, sorted),
        listing_fits(roots, desired_size),
    ensures
        listing_fits(sorted, desired_size),
{
    assert forall|i: int, j: int|
        0 <= i < sorted.len() && 0 <= j < sorted[i].themes@.len() implies theme_fits(
        #[trigger] sorted[i].themes@[j],
        desired_size,
    ) by {
        let themes = roots[i].themes@;
        let after = sorted[i].themes@;
        assert(sorted[i].path == roots[i].path);
        assert(are_sorted_themes(themes, after));
        let order = choose|order: Seq<ThemeListing>| #[trigger]
            is_sorted_from(themes, theme_order(), order) && after.len() == order.len() && forall|
                k: int,
            |
                0 <= k < order.len() ==> is_sorted_theme(order[k], #[trigger] after[k]);
        let by = choose|by: Seq<int>| #[trigger]
            is_sorting(themes, theme_order(), by) && order == picked(themes, by);
        assert(order[j] == themes[by[j]]);
        assert(theme_fits(roots[i].themes@[by[j]], desired_size));
        assert(is_sorted_theme(order[j], after[j]));
        let sizes = order[j].sizes@;
        let how = choose|how: Seq<int>| #[trigger]
            is_sorting(sizes, name_order(), how) && after[j].sizes@ == picked(sizes, how);
        assert forall|k: int|
            0 <= k < after[j].sizes@.len() && valid_utf8(
                (#[trigger] after[j].sizes@[k])@,
            ) implies score_fits(decode_utf8(after[j].sizes@[k]@), desired_size) by {
            assert(after[j].sizes@[k] == sizes[how[k]]);
        }
    }
}

fn icon_places(
    roots: &Vec<RootListing>,
    env: &Environment,
    wanted: &Option<String>,
    desired_size: i32,
) -> (places: Vec<(FilePath, BaseScore)>)
    requires
        listing_fits(roots@, desired_size as int),
    ensures
        place_views(places@) == places_of_roots(roots@, *wanted, desired_size as int)
            + places_of_pixmaps(dirs_for(*env, "pixmaps"@)),
{
    let mut places: Vec<(FilePath, BaseScore)> = Vec::new();
    let ghost all = roots@;
    let mut i: usize = 0;
    assert(all.take(0) =~= Seq::empty());
    assert(place_views(places@) =~= places_of_roots(all.take(0), *wanted, desired_size as int));
    while i < roots.len()
        invariant
            i <= roots.len(),
            all == roots@,
            listing_fits(roots@, desired_size as int),
            place_views(places@) == places_of_roots(
                all.take(i as int),
                *wanted,
                desired_size as int,
            ),
        decreases roots.len() - i,
    {
        proof {
            let next = all.take(i + 1);
            assert(next.drop_last() =~= all.take(i as int));
            assert(next.last() == all[i as int]);
        }
        let root_order: u16 = (i % 0x1_0000) as u16;
        assert forall|j: int| 0 <= j < roots@[i as int].themes@.len() implies theme_fits(
            #[trigger] roots@[i as int].themes@[j],
            desired_size as int,
        ) by {}
        add_places_of_root(&mut places, &roots[i], root_order, wanted, desired_size);
        i += 1;
    }
    assert(all.take(i as int) =~= all);

    let ghost themed = place_views(places@);
    let dirs = pixmap_dirs(env);
    let ghost loose = dirs_for(*env, "pixmaps"@);
    let mut i: usize = 0;
    assert(places_of_pixmaps(loose).take(0) =~= Seq::empty());
    assert(themed + places_of_pixmaps(loose).take(0) =~= themed);
    while i < dirs.len()
        invariant
            i <= dirs.len(),
            path_views(dirs@) == loose,
            place_views(places@) == themed + places_of_pixmaps(loose).take(i as int),
        decreases dirs.len() - i,
    {
        let ghost before = places@;
        assert(path_views(dirs@)[i as int] == dirs@[i as int]@);
        let root_order: u16 = (i % 0x1_0000) as u16;
        places.push((dirs[i].copy(), (PIXMAP_PRIORITY, 0, 0, root_order)));
        i += 1;
        proof {
            assert(places_of_pixmaps(loose)[i - 1] == (
                loose[i - 1],
                (PIXMAP_PRIORITY, 0u16, 0u16, short(i - 1)),
            ));
            assert(place_views(places@) =~= place_views(before).push(
                (loose[i - 1], (PIXMAP_PRIORITY, 0u16, 0u16, root_order)),
            ));
            assert(place_views(places@) =~= themed + places_of_pixmaps(loose).take(i as int));
        }
    }
    assert(places_of_pixmaps(loose).take(i as int) =~= places_of_pixmaps(loose));
    places
}

/// The paths, without those that are the same as the one before.
pub open spec fn without_repeats(candidates: Seq<(Score, Seq<u8>)>) -> Seq<Seq<u8>>
    decreases candidates.len(),
{
    if candidates.len() == 0 {
        Seq::empty()
    } else {
        let kept = without_repeats(candidates.drop_last());
        let path = candidates.last().1;
        if kept.len() > 0 && parts(kept.last()) == parts(path) {
            kept
        } else {
            kept.push(path)
        }
    }
}

/// The order of scored paths.
pub open spec fn path_order() -> spec_fn((Score, Seq<u8>), (Score, Seq<u8>)) -> bool {
    |a: (Score, Seq<u8>), b: (Score, Seq<u8>)| better(a.0, b.0)
}

/// `paths` are the files that were found, the best ones first.
pub open spec fn is_best_first(found: Seq<(Score, Seq<u8>)>, paths: Seq<Seq<u8>>) -> bool {
    exists|ordered: Seq<(Score, Seq<u8>)>| #[trigger]
        is_sorted_from(found, path_order(), ordered) && paths == without_repeats(ordered)
}

/// What is sorted as candidates is sorted as scored paths.
proof fn lemma_sorted_views(candidates: Seq<Candidate>, sorted: Seq<Candidate>)
    requires
        is_sorted_from(candidates, score_order(), sorted),
    ensures
        is_sorted_from(candidate_views(candidates), path_order(), candidate_views(sorted)),
{
    let order = choose|order: Seq<int>| #[trigger]
        is_sorting(candidates, score_order(), order) && sorted == picked(candidates, order);
    let views = candidate_views(candidates);
    assert(candidate_views(sorted) =~= picked(views, order));
    lemma_scores_are_ordered(views);
    lemma_candidates_are_ordered(candidates);
    assert forall|i: int, j: int| 0 <= i < j < order.len() implies #[trigger] precedes(
        views,
        path_order(),
        order[i],
        order[j],
    ) by {
        assert(precedes(candidates, score_order(), order[i], order[j]));
    }
    assert(is_sorting(views, path_order(), order));
}

proof fn lemma_candidates_are_ordered(candidates: Seq<Candidate>)
    ensures
        is_ordering(candidates, score_order()),
{
}

proof fn lemma_scores_are_ordered(found: Seq<(Score, Seq<u8>)>)
    ensures
        is_ordering(found, path_order()),
{
}

fn is_better(a: Score, b: Score) -> (result: bool)
    ensures
        result == better(a, b),
{
    if a.0 != b.0 {
        a.0 < b.0
    } else if a.1 != b.1 {
        a.1 < b.1
    } else if a.2 != b.2 {
        a.2 < b.2
    } else if a.3 != b.3 {
        a.3 < b.3
    } else {
        a.4 < b.4
    }
}

/// Puts the best candidates first.
pub fn best_first(candidates: Vec<Candidate>) -> (paths: Vec<FilePath>)
    ensures
        is_best_first(candidate_views(candidates@), path_views(paths@)),
{
    let ghost all = candidates@;
    let less = |a: &Candidate, b: &Candidate| -> (r: bool)
        ensures
            r == better(a.0, b.0),
        { is_better(a.0, b.0) };
    let sorted = stable_sort(candidates, less, Ghost(score_order()));
    let ghost ordered = sorted@;
    proof {
        lemma_sorted_views(all, ordered);
    }
    let ghost views = candidate_views(ordered);
    let mut paths: Vec<FilePath> = Vec::new();
    assert(views.take(0) =~= Seq::empty());
    assert(path_views(paths@) =~= without_repeats(views.take(0)));
    for candidate in it: sorted.into_iter()
        invariant
            it.seq() == ordered,
            views == candidate_views(ordered),
            path_views(paths@) == without_repeats(views.take(it.index())),
    {
        let ghost i = it.index();
        let ghost before = paths@;
        proof {
            let next = views.take(i + 1);
            assert(next.drop_last() =~= views.take(i));
            assert(next.last() == (candidate.0, candidate.1@));
        }
        let (_, path) = candidate;
        let n: usize = paths.len();
        assert(n > 0 ==> path_views(before).last() == before[n - 1]@);
        if n == 0 || !paths[n - 1].is_same(&path) {
            paths.push(path);
            assert(path_views(paths@) =~= path_views(before).push(path@));
        }
    }
    assert(views.take(views.len() as int) =~= views);
    paths
}

/// `paths` are the existing files of an icon, the best ones first.
pub open spec fn are_themed_candidates<F: Files>(
    files: &F,
    roots: Seq<RootListing>,
    env: Environment,
    wanted: Option<String>,
    icon_name: Seq<char>,
    desired_size: int,
    paths: Seq<Seq<u8>>,
) -> bool {
    exists|sorted: Seq<RootListing>, found: Seq<(Score, Seq<u8>)>|
        #![trigger are_sorted_roots(roots, sorted), is_best_first(found, paths)]
        are_sorted_roots(roots, sorted) && is_found(
            files,
            places_of_roots(sorted, wanted, desired_size) + places_of_pixmaps(
                dirs_for(env, "pixmaps"@),
            ),
            icon_name,
            found,
        ) && is_best_first(found, paths)
}

/// Returns existing icon files for an icon name, ordered by likely visual quality.
///
/// It prefers certain themes, closer sizes, app-context directories, and scalable files. `roots`
/// are the listed directories of [`crate::xdg::icon_theme_dirs`], and `wanted` is the theme that
/// the user asked for.
pub fn themed_icon_candidates<F: Files>(
    files: &F,
    roots: Vec<RootListing>,
    env: &Environment,
    wanted: &Option<String>,
    icon_name: &str,
    desired_size: i32,
) -> (paths: Vec<FilePath>)
    requires
        listing_fits(roots@, desired_size as int),
    ensures
        are_themed_candidates(
            files,
            roots@,
            *env,
            *wanted,
            icon_name@,
            desired_size as int,
            path_views(paths@),
        ),
{
    let ghost given = roots@;
    let roots = sort_roots(roots);
    proof {
        lemma_sorted_fits(given, roots@, desired_size as int);
    }
    let places = icon_places(&roots, env, wanted, desired_size);
    let ghost all = place_views(places@);

    let mut candidates: Vec<Candidate> = Vec::new();
    let ghost mut portions: Seq<Seq<(Score, Seq<u8>)>> = Seq::empty();
    let mut i: usize = 0;
    assert(candidate_views(candidates@) =~= in_order(portions));
    while i < places.len()
        invariant
            i <= places.len(),
            all == place_views(places@),
            portions.len() == i,
            forall|j: int|
                0 <= j < i ==> is_found_in(
                    files,
                    all[j].0,
                    icon_name@,
                    all[j].1,
                    #[trigger] portions[j],
                ),
            candidate_views(candidates@) == in_order(portions),
        decreases places.len() - i,
    {
        let ghost before = candidate_views(candidates@);
        assert(all[i as int] == (places@[i as int].0@, places@[i as int].1));
        add_icon_file_candidates(&mut candidates, files, &places[i].0, icon_name, places[i].1);
        proof {
            let here = choose|here: Seq<(Score, Seq<u8>)>| #[trigger]
                is_found_in(
                    files,
                    places@[i as int].0@,
                    icon_name@,
                    places@[i as int].1,
                    here,
                ) && candidate_views(candidates@) == before + here;
            assert(portions.push(here).drop_last() =~= portions);
            portions = portions.push(here);
        }
        i += 1;
    }
    assert(are_found_in(files, all, icon_name@, portions));
    let ghost found = candidate_views(candidates@);
    let paths = best_first(candidates);
    assert(is_best_first(found, path_views(paths@)));
    paths
}

/// Whether scoring all size directories stays within 32 bits.
pub fn is_listing_fitting(roots: &Vec<RootListing>, desired_size: i32) -> (result: bool)
    ensures
        result == listing_fits(roots@, desired_size as int),
{
    let mut i: usize = 0;
    while i < roots.len()
        invariant
            i <= roots.len(),
            forall|k: int, j: int|
                0 <= k < i && 0 <= j < roots@[k].themes@.len() ==> theme_fits(
                    #[trigger] roots@[k].themes@[j],
                    desired_size as int,
                ),
        decreases roots.len() - i,
    {
        let themes = &roots[i].themes;
        let mut j: usize = 0;
        while j < themes.len()
            invariant
                i < roots.len(),
                themes@ == roots@[i as int].themes@,
                j <= themes.len(),
                forall|l: int|
                    0 <= l < j ==> theme_fits(#[trigger] themes@[l], desired_size as int),
            decreases themes.len() - j,
        {
            if !is_theme_fitting(&themes[j], desired_size) {
                assert(!theme_fits(roots@[i as int].themes@[j as int], desired_size as int));
                return false;
            }
            j += 1;
        }
        i += 1;
    }
    true
}

fn is_theme_fitting(theme: &ThemeListing, desired_size: i32) -> (result: bool)
    ensures
        result == theme_fits(*theme, desired_size as int),
{
    let mut i: usize = 0;
    while i < theme.sizes.len()
        invariant
            i <= theme.sizes.len(),
            forall|k: int|
                0 <= k < i && valid_utf8((#[trigger] theme.sizes@[k])@) ==> score_fits(
                    decode_utf8(theme.sizes@[k]@),
                    desired_size as int,
                ),
        decreases theme.sizes.len() - i,
    {
        if let Some(size_name) = read_utf8(&theme.sizes[i]) {
            if !icon_size_score_fits(size_name.as_str(), desired_size) {
                assert(valid_utf8(theme.sizes@[i as int]@));
                return false;
            }
        }
        i += 1;
    }
    true
}

/// Every candidate was there when it was asked for.
pub proof fn candidates_exist<F: Files>(
    files: &F,
    dir: Seq<u8>,
    icon_name: Seq<char>,
    base: BaseScore,
    found: Seq<(Score, Seq<u8>)>,
    i: int,
)
    requires
        is_found_in(files, dir, icon_name, base, found),
        0 <= i < found.len(),
    ensures
        is_file_answer(files, found[i].1, true),
{
    let names = names_of(icon_name);
    let answers = choose|answers: Seq<bool>| #[trigger]
        are_file_answers(files, dir, names, answers) && found == found_in(
            dir,
            base,
            names,
            answers,
        );
    assert(names =~= names.take(names.len() as int));
    lemma_found_exists(files, dir, base, names, names, answers, i);
}

proof fn lemma_found_exists<F: Files>(
    files: &F,
    dir: Seq<u8>,
    base: BaseScore,
    all: Seq<(u16, Seq<char>)>,
    names: Seq<(u16, Seq<char>)>,
    answers: Seq<bool>,
    i: int,
)
    requires
        are_file_answers(files, dir, all, answers),
        names.len() <= all.len(),
        names == all.take(names.len() as int),
        0 <= i < found_in(dir, base, names, answers).len(),
    ensures
        is_file_answer(files, found_in(dir, base, names, answers)[i].1, true),
    decreases names.len(),
{
    if names.len() > 0 {
        let rest = names.drop_last();
        let before = found_in(dir, base, rest, answers);
        if i < before.len() {
            assert(rest =~= all.take(rest.len() as int));
            lemma_found_exists(files, dir, base, all, rest, answers, i);
        } else {
            assert(names.last() == all[names.len() - 1]);
            assert(answers[names.len() - 1]);
            assert(is_file_answer(
                files,
                joined(dir, encode_utf8(all[names.len() - 1].1)),
                answers[names.len() - 1],
            ));
        }
    }
}

/// Every file that is found in a place was there when it was asked for.
proof fn lemma_portions_exist<F: Files>(
    files: &F,
    places: Seq<Place>,
    icon_name: Seq<char>,
    portions: Seq<Seq<(Score, Seq<u8>)>>,
    i: int,
)
    requires
        are_found_in(files, places, icon_name, portions),
        0 <= i < in_order(portions).len(),
    ensures
        is_file_answer(files, in_order(portions)[i].1, true),
    decreases portions.len(),
{
    if portions.len() > 0 {
        let rest = portions.drop_last();
        let before = in_order(rest);
        if i < before.len() {
            let fewer = places.drop_last();
            assert forall|k: int| 0 <= k < fewer.len() implies is_found_in(
                files,
                fewer[k].0,
                icon_name,
                fewer[k].1,
                #[trigger] rest[k],
            ) by {
                assert(rest[k] == portions[k]);
            }
            lemma_portions_exist(files, fewer, icon_name, rest, i);
        } else {
            let last = portions.len() - 1;
            assert(is_found_in(files, places[last].0, icon_name, places[last].1, portions[last]));
            candidates_exist(
                files,
                places[last].0,
                icon_name,
                places[last].1,
                portions[last],
                i - before.len(),
            );
        }
    }
}

/// Only existing files are returned: every path was there when it was asked for.
pub proof fn returned_files_exist<F: Files>(
    files: &F,
    roots: Seq<RootListing>,
    env: Environment,
    wanted: Option<String>,
    icon_name: Seq<char>,
    desired_size: int,
    paths: Seq<Seq<u8>>,
    i: int,
)
    requires
        are_themed_candidates(files, roots, env, wanted, icon_name, desired_size, paths),
        0 <= i < paths.len(),
    ensures
        is_file_answer(files, paths[i], true),
{
    let (sorted, found) = choose|sorted: Seq<RootListing>, found: Seq<(Score, Seq<u8>)>|
        #![trigger are_sorted_roots(roots, sorted), is_best_first(found, paths)]
        are_sorted_roots(roots, sorted) && is_found(
            files,
            places_of_roots(sorted, wanted, desired_size) + places_of_pixmaps(
                dirs_for(env, "pixmaps"@),
            ),
            icon_name,
            found,
        ) && is_best_first(found, paths);
    let places = places_of_roots(sorted, wanted, desired_size) + places_of_pixmaps(
        dirs_for(env, "pixmaps"@),
    );
    let portions = choose|portions: Seq<Seq<(Score, Seq<u8>)>>| #[trigger]
        are_found_in(files, places, icon_name, portions) && found == in_order(portions);
    let ordered = choose|ordered: Seq<(Score, Seq<u8>)>| #[trigger]
        is_sorted_from(found, path_order(), ordered) && paths == without_repeats(ordered);
    let order = choose|order: Seq<int>| #[trigger]
        is_sorting(found, path_order(), order) && ordered == picked(found, order);
    repeats_are_dropped(ordered);
    assert(has_path(ordered, paths[i]));
    let k = choose|k: int| 0 <= k < ordered.len() && (#[trigger] ordered[k]).1 == paths[i];
    assert(ordered[k] == found[order[k]]);
    lemma_portions_exist(files, places, icon_name, portions, order[k]);
}

/// The best candidates come first, and equally good ones in the order in which they were found.
pub proof fn better_comes_first(
    found: Seq<(Score, Seq<u8>)>,
    order: Seq<int>,
    i: int,
    j: int,
)
    requires
        is_sorting(found, path_order(), order),
        0 <= i < j < order.len(),
    ensures
        better(found[order[i]].0, found[order[j]].0) || (found[order[i]].0 == found[order[j]].0
            && order[i] < order[j]),
{
    lemma_scores_are_ordered(found);
    assert(precedes(found, path_order(), order[i], order[j]));
}

/// The candidates whose paths are kept, by their indices.
proof fn lemma_kept_candidates(candidates: Seq<(Score, Seq<u8>)>) -> (kept: Seq<int>)
    ensures
        kept.len() == without_repeats(candidates).len(),
        forall|i: int|
            0 <= i < kept.len() ==> 0 <= #[trigger] kept[i] < candidates.len()
                && without_repeats(candidates)[i] == candidates[kept[i]].1,
        forall|i: int, j: int| 0 <= i < j < kept.len() ==> #[trigger] kept[i] < #[trigger] kept[j],
    decreases candidates.len(),
{
    if candidates.len() == 0 {
        Seq::empty()
    } else {
        let rest = candidates.drop_last();
        let before = lemma_kept_candidates(rest);
        assert forall|i: int| 0 <= i < before.len() implies candidates[#[trigger] before[i]]
            == rest[before[i]] by {}
        if without_repeats(candidates).len() > before.len() {
            before.push(candidates.len() - 1)
        } else {
            before
        }
    }
}

/// `scores` are those with which the paths were found.
pub open spec fn are_scores_of(
    found: Seq<(Score, Seq<u8>)>,
    paths: Seq<Seq<u8>>,
    scores: Seq<Score>,
) -> bool {
    &&& scores.len() == paths.len()
    &&& forall|i: int| 0 <= i < paths.len() ==> found.contains((#[trigger] scores[i], paths[i]))
}

/// Files are returned in the order of their quality: none has a better score than one before it.
pub proof fn better_files_come_first(found: Seq<(Score, Seq<u8>)>, paths: Seq<Seq<u8>>)
    requires
        is_best_first(found, paths),
    ensures
        exists|scores: Seq<Score>| #[trigger]
            are_scores_of(found, paths, scores) && forall|i: int, j: int|
                0 <= i < j < paths.len() ==> !better(#[trigger] scores[j], #[trigger] scores[i]),
{
    let ordered = choose|ordered: Seq<(Score, Seq<u8>)>| #[trigger]
        is_sorted_from(found, path_order(), ordered) && paths == without_repeats(ordered);
    let order = choose|order: Seq<int>| #[trigger]
        is_sorting(found, path_order(), order) && ordered == picked(found, order);
    let kept = lemma_kept_candidates(ordered);
    let scores = kept.map_values(|k: int| ordered[k].0);
    assert forall|i: int| 0 <= i < paths.len() implies found.contains(
        (#[trigger] scores[i], paths[i]),
    ) by {
        assert(ordered[kept[i]] == found[order[kept[i]]]);
    }
    assert forall|i: int, j: int| 0 <= i < j < paths.len() implies !better(
        #[trigger] scores[j],
        #[trigger] scores[i],
    ) by {
        assert(kept[i] < kept[j]);
        better_comes_first(found, order, kept[i], kept[j]);
    }
    assert(are_scores_of(found, paths, scores));
}

/// No two paths in a row are the same, and every path is that of a candidate.
pub proof fn repeats_are_dropped(candidates: Seq<(Score, Seq<u8>)>)
    ensures
        forall|i: int|
            0 < i < without_repeats(candidates).len() ==> parts(
                #[trigger] without_repeats(candidates)[i],
            ) != parts(without_repeats(candidates)[i - 1]),
        forall|i: int|
            0 <= i < without_repeats(candidates).len() ==> has_path(
                candidates,
                #[trigger] without_repeats(candidates)[i],
            ),
    decreases candidates.len(),
{
    if candidates.len() > 0 {
        let rest = candidates.drop_last();
        repeats_are_dropped(rest);
        let all = without_repeats(candidates);
        let kept = without_repeats(rest);
        assert forall|i: int| 0 <= i < all.len() implies has_path(candidates, #[trigger] all[i]) by {
            if i < kept.len() {
                assert(has_path(rest, kept[i]));
                let k = choose|k: int| 0 <= k < rest.len() && (#[trigger] rest[k]).1 == kept[i];
                assert(candidates[k] == rest[k]);
            } else {
                assert(candidates[candidates.len() - 1].1 == all[i]);
            }
        }
    }
}

/// A candidate has the path.
pub open spec fn has_path(candidates: Seq<(Score, Seq<u8>)>, path: Seq<u8>) -> bool {
    exists|k: int| 0 <= k < candidates.len() && (#[trigger] candidates[k]).1 == path
}

/// Listings are sorted the same way on all filesystems: the order of names is a total one.
pub proof fn names_are_ordered(names: Seq<Vec<u8>>)
    ensures
        is_ordering(names, name_order()),
{
    assert forall|i: int, j: int|
        0 <= i < names.len() && 0 <= j < names.len() && #[trigger] name_order()(
            names[i],
            names[j],
        ) implies !name_order()(names[j], names[i]) by {
        dictionary_order(names[i]@, names[j]@, names[j]@);
    }
    assert forall|i: int, j: int, k: int|
        0 <= i < names.len() && 0 <= j < names.len() && 0 <= k < names.len()
            && !#[trigger] name_order()(names[j], names[i]) && !#[trigger] name_order()(
            names[k],
            names[j],
        ) implies !name_order()(names[k], names[i]) by {
        dictionary_order(names[i]@, names[j]@, names[k]@);
        dictionary_order(names[j]@, names[k]@, names[i]@);
        dictionary_order(names[k]@, names[i]@, names[j]@);
    }
}

/// The theme that the user asked for is preferred to any other.
pub proof fn wanted_theme_is_best(wanted: String, other: Seq<char>)
    requires
        other != wanted@,
    ensures
        priority_of(wanted@, Some(wanted)) < priority_of(other, Some(wanted)),
{
}

/// Every place of a theme has the priority of one.
proof fn lemma_theme_places(
    theme: Seq<u8>,
    priority: u16,
    root_order: u16,
    sizes: Seq<Vec<u8>>,
    desired_size: int,
)
    ensures
        forall|i: int|
            0 <= i < places_of_sizes(theme, priority, root_order, sizes, desired_size).len() ==> (
            #[trigger] places_of_sizes(theme, priority, root_order, sizes, desired_size)[i]).1.0
                == priority,
    decreases sizes.len(),
{
    if sizes.len() > 0 {
        lemma_theme_places(theme, priority, root_order, sizes.drop_last(), desired_size);
        let before = places_of_sizes(
            theme,
            priority,
            root_order,
            sizes.drop_last(),
            desired_size,
        );
        let all = places_of_sizes(theme, priority, root_order, sizes, desired_size);
        assert forall|i: int| 0 <= i < all.len() implies (#[trigger] all[i]).1.0 == priority by {
            if i < before.len() {
                assert(all[i] == before[i]);
            }
        }
    }
}

/// Loose icon files are the final fallback: whatever is found in a theme is better than whatever is
/// found outside of themes.
pub proof fn pixmaps_come_last(
    root: Seq<u8>,
    root_order: u16,
    theme: ThemeListing,
    wanted: Option<String>,
    desired_size: int,
    dirs: Seq<Seq<u8>>,
    i: int,
    j: int,
    format: u16,
    other_format: u16,
)
    requires
        0 <= i < places_of_theme(root, root_order, theme, wanted, desired_size).len(),
        0 <= j < dirs.len(),
    ensures
        ({
            let themed = places_of_theme(root, root_order, theme, wanted, desired_size)[i].1;
            let loose = places_of_pixmaps(dirs)[j].1;
            better(
                (themed.0, themed.1, themed.2, format, themed.3),
                (loose.0, loose.1, loose.2, other_format, loose.3),
            )
        }),
{
    let priority = priority_of(decode_utf8(theme.name@), wanted);
    lemma_theme_places(
        joined(root, theme.name@),
        priority,
        root_order,
        theme.sizes@,
        desired_size,
    );
}

/// A scalable directory is as good as one of the exact size, and a symbolic one is the worst.
pub proof fn size_scores_are_ranked(size_name: Seq<char>, desired_size: int)
    ensures
        0 <= size_score(size_name, desired_size) <= 2000,
        size_score(size_name, desired_size) == 2000 <==> contains_part(
            ascii_lowercase(size_name),
            "symbolic"@,
        ),
{
}

} // verus!
