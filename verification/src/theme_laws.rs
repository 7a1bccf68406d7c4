//! What holds of looking for the files of an icon.
use crate::icon_theme::{
    are_file_answers, are_found_in, are_scores_of, are_sorted_roots, are_sorted_themes,
    are_themed_candidates, better, better_files_come_first, dir_size, found_in, in_order,
    is_best_first, is_file_answer, is_found, is_found_in, is_sorted_theme, known_extension,
    name_order, names_of, path_order, places_of_pixmaps, places_of_roots, places_of_size,
    places_of_sizes, places_of_theme, places_of_themes, priority_of, short, size_score, theme_order,
    without_repeats, BaseScore, Files, Place, RootListing, Score, ThemeListing,
};
use crate::path::{file_name, joined, parts, DOT};
use crate::sorting::{is_permutation, is_sorted_from, is_sorting, picked};
use crate::text::{ascii_lowercase, contains_part, first_index};
use crate::text_laws::{
    digits_of, names_are_cut_at_the_last_dot, numbers_are_read_from_their_digits,
    only_digits_are_numbers,
};
use crate::xdg::{dirs_for, Environment};
use vstd::prelude::*;
use vstd::utf8::{decode_utf8, encode_utf8, valid_utf8};

verus! {

/// The theme that the user asked for is best, then `hicolor`, then `Adwaita`, then all others, which
/// are equally good.
pub proof fn themes_are_ranked(wanted: Option<String>, other: Seq<char>, another: Seq<char>)
    requires
        wanted matches Some(wanted) ==> wanted@ != "hicolor"@ && wanted@ != "Adwaita"@ && wanted@
            != other && wanted@ != another,
        other != "hicolor"@,
        other != "Adwaita"@,
        another != "hicolor"@,
        another != "Adwaita"@,
    ensures
        wanted matches Some(theme) ==> priority_of(theme@, wanted) < priority_of("hicolor"@, wanted),
        priority_of("hicolor"@, wanted) < priority_of("Adwaita"@, wanted),
        priority_of("Adwaita"@, wanted) < priority_of(other, wanted),
        priority_of(other, wanted) == priority_of(another, wanted),
{
    reveal_strlit("hicolor");
    reveal_strlit("Adwaita");
    assert("hicolor"@[0] != "Adwaita"@[0]);
}

/// The name of an icon that is that of a file is taken as it is. Any other is tried as a scalable
/// file, then as the two kinds of pictures, each worse than the one before.
pub proof fn scalable_files_are_tried_first(icon_name: Seq<char>)
    ensures
        known_extension(icon_name) ==> names_of(icon_name).len() == 1 && names_of(icon_name)[0].1
            == icon_name,
        !known_extension(icon_name) ==> {
            &&& names_of(icon_name).len() == 3
            &&& names_of(icon_name)[0].1 == icon_name + ".svg"@
            &&& names_of(icon_name)[1].1 == icon_name + ".png"@
            &&& names_of(icon_name)[2].1 == icon_name + ".xpm"@
            &&& names_of(icon_name)[0].0 < names_of(icon_name)[1].0
            &&& names_of(icon_name)[1].0 < names_of(icon_name)[2].0
        },
{
}

/// Scores are compared part by part, each part only where all before it are equal: the theme, the
/// size, the context, the format, the root directory.
pub proof fn first_different_part_decides(a: Score, b: Score)
    ensures
        a.0 < b.0 ==> better(a, b) && !better(b, a),
        a.0 == b.0 && a.1 < b.1 ==> better(a, b) && !better(b, a),
        a.0 == b.0 && a.1 == b.1 && a.2 < b.2 ==> better(a, b) && !better(b, a),
        a.0 == b.0 && a.1 == b.1 && a.2 == b.2 && a.3 < b.3 ==> better(a, b) && !better(b, a),
        a.0 == b.0 && a.1 == b.1 && a.2 == b.2 && a.3 == b.3 && a.4 < b.4 ==> better(a, b)
            && !better(b, a),
        a == b ==> !better(a, b),
{
}

proof fn lemma_index(head: Seq<char>, c: char, tail: Seq<char>)
    requires
        forall|i: int| 0 <= i < head.len() ==> head[i] != c,
    ensures
        first_index(head.push(c) + tail, c) == head.len(),
        first_index(head, c) == head.len(),
    decreases head.len(),
{
    let s = head.push(c) + tail;
    if head.len() > 0 {
        let less = head.drop_first();
        assert forall|i: int| 0 <= i < less.len() implies less[i] != c by {
            assert(less[i] == head[i + 1]);
        }
        lemma_index(less, c, tail);
        assert(s.drop_first() =~= less.push(c) + tail);
    }
}

proof fn lemma_no_letters(n: int, i: int)
    requires
        0 <= n <= i32::MAX,
        0 <= i < digits_of(n).len(),
    ensures
        digits_of(n)[i] != 'x',
        digits_of(n)[i] != '@',
{
    numbers_are_read_from_their_digits(n);
    let s = digits_of(n);
    if s[i] == '-' || s[i] == '+' {
    } else {
        only_digits_are_numbers(s, i);
    }
}

/// A size directory is named after its width and height, with an `x` between them, and the scale
/// behind an `@`. Its size is the larger one, times the scale.
pub proof fn size_names_are_read(w: int, h: int, scale: int)
    requires
        0 <= w <= i32::MAX,
        0 <= h <= i32::MAX,
        0 <= scale <= i32::MAX,
    ensures
        ({
            let name = digits_of(w).push('x') + digits_of(h);
            let side = if w < h {
                h
            } else {
                w
            };
            &&& dir_size(name) == Some(side)
            &&& dir_size(name.push('@') + digits_of(scale)) == Some(
                if scale < 1 {
                    side
                } else {
                    side * scale
                },
            )
        }),
{
    let (p, q, r) = (digits_of(w), digits_of(h), digits_of(scale));
    let name = p.push('x') + q;
    let full = name.push('@') + r;
    numbers_are_read_from_their_digits(w);
    numbers_are_read_from_their_digits(h);
    numbers_are_read_from_their_digits(scale);
    assert forall|i: int| 0 <= i < p.len() implies p[i] != 'x' && p[i] != '@' by {
        lemma_no_letters(w, i);
    }
    assert forall|i: int| 0 <= i < name.len() implies name[i] != '@' by {
        if i < p.len() {
            assert(name[i] == p[i]);
        } else if i > p.len() {
            lemma_no_letters(h, i - p.len() - 1);
            assert(name[i] == q[i - p.len() - 1]);
        }
    }
    lemma_index(p, 'x', q);
    lemma_index(name, '@', r);
    assert(name.take(name.len() as int) =~= name);
    assert(full.take(name.len() as int) =~= name);
    assert(full.skip(name.len() as int + 1) =~= r);
    assert(name.take(p.len() as int) =~= p);
    assert(name.skip(p.len() as int + 1) =~= q);
    let side = if w < h {
        h
    } else {
        w
    };
    assert(side * 1 == side);
}

/// How far a size is from the one that is asked for.
pub open spec fn distance(size: int, desired: int) -> int {
    if size < desired {
        desired - size
    } else {
        size - desired
    }
}

/// A size directory is the better the closer its size is to the one that is asked for. Scalable ones
/// are as good as one of just that size, those of unknown size come behind all that are closer than
/// `1000`, and symbolic ones are the worst.
pub proof fn closer_sizes_are_better(a: Seq<char>, b: Seq<char>, desired: int)
    requires
        !contains_part(ascii_lowercase(a), "symbolic"@),
        !contains_part(ascii_lowercase(b), "symbolic"@),
    ensures
        contains_part(ascii_lowercase(a), "scalable"@) ==> size_score(a, desired) == 0,
        !contains_part(ascii_lowercase(a), "scalable"@) ==> {
            &&& dir_size(ascii_lowercase(a)) is None ==> size_score(a, desired) == 1000
            &&& dir_size(ascii_lowercase(a)) == Some(desired) ==> size_score(a, desired) == 0
            &&& dir_size(ascii_lowercase(a)) matches Some(size) ==> (size_score(a, desired) < 1000
                <==> distance(size, desired) < 1000)
        },
        !contains_part(ascii_lowercase(a), "scalable"@) && !contains_part(
            ascii_lowercase(b),
            "scalable"@,
        ) ==> ((dir_size(ascii_lowercase(a)), dir_size(ascii_lowercase(b))) matches (
            Some(x),
            Some(y),
        ) ==> (distance(x, desired) <= distance(y, desired) ==> size_score(a, desired) <= size_score(
            b,
            desired,
        )) && (distance(x, desired) < distance(y, desired) && distance(x, desired) < 1999
            ==> size_score(a, desired) < size_score(b, desired))),
        size_score(a, desired) < 2000,
{
}

/// Symbolic icons are the worst.
pub proof fn symbolic_icons_are_worst(a: Seq<char>, b: Seq<char>, desired: int)
    requires
        contains_part(ascii_lowercase(a), "symbolic"@),
        !contains_part(ascii_lowercase(b), "symbolic"@),
    ensures
        size_score(b, desired) < size_score(a, desired),
{
}

/// A size directory of a theme, or the directory of application icons in it.
pub ghost struct Spot {
    /// The index of the root directory.
    pub root: int,
    /// The index of the theme in it.
    pub theme: int,
    /// The index of the size directory in that.
    pub size: int,
    /// Whether it is the directory of application icons.
    pub apps: bool,
}

/// There is such a directory, and its names are texts.
pub open spec fn is_spot(roots: Seq<RootListing>, spot: Spot) -> bool {
    &&& 0 <= spot.root < roots.len()
    &&& 0 <= spot.theme < roots[spot.root].themes@.len()
    &&& 0 <= spot.size < roots[spot.root].themes@[spot.theme].sizes@.len()
    &&& valid_utf8(roots[spot.root].themes@[spot.theme].name@)
    &&& valid_utf8(roots[spot.root].themes@[spot.theme].sizes@[spot.size]@)
}

/// The directory: below the root directory that of the theme, below that the one of the size, and
/// below that the one named `apps`.
pub open spec fn dir_of(roots: Seq<RootListing>, spot: Spot) -> Seq<u8> {
    let theme = roots[spot.root].themes@[spot.theme];
    let dir = joined(joined(roots[spot.root].path@, theme.name@), theme.sizes@[spot.size]@);
    if spot.apps {
        joined(dir, encode_utf8("apps"@))
    } else {
        dir
    }
}

/// The score of the directory: that of the theme, that of the size, the directory of application
/// icons before the one that it is in, and earlier root directories before later ones.
pub open spec fn base_of(
    roots: Seq<RootListing>,
    wanted: Option<String>,
    desired: int,
    spot: Spot,
) -> BaseScore {
    let theme = roots[spot.root].themes@[spot.theme];
    (
        priority_of(decode_utf8(theme.name@), wanted),
        size_score(decode_utf8(theme.sizes@[spot.size]@), desired) as u16,
        if spot.apps {
            0
        } else {
            1
        },
        short(spot.root),
    )
}

proof fn lemma_sizes(
    theme: Seq<u8>,
    priority: u16,
    root_order: u16,
    sizes: Seq<Vec<u8>>,
    desired: int,
    place: Place,
)
    ensures
        places_of_sizes(theme, priority, root_order, sizes, desired).contains(place) <==> exists|
            s: int,
        |
            0 <= s < sizes.len() && places_of_size(
                theme,
                priority,
                root_order,
                (#[trigger] sizes[s])@,
                desired,
            ).contains(place),
    decreases sizes.len(),
{
    if sizes.len() > 0 {
        let less = sizes.drop_last();
        lemma_sizes(theme, priority, root_order, less, desired, place);
        let a = places_of_sizes(theme, priority, root_order, less, desired);
        let b = places_of_size(theme, priority, root_order, sizes.last()@, desired);
        lemma_either(a, b, place);
        if a.contains(place) {
            let s = choose|s: int|
                0 <= s < less.len() && places_of_size(
                    theme,
                    priority,
                    root_order,
                    (#[trigger] less[s])@,
                    desired,
                ).contains(place);
            assert(sizes[s] == less[s]);
        }
        if b.contains(place) {
            assert(sizes[sizes.len() - 1] == sizes.last());
        }
        if exists|s: int|
            0 <= s < sizes.len() && places_of_size(
                theme,
                priority,
                root_order,
                (#[trigger] sizes[s])@,
                desired,
            ).contains(place) {
            let s = choose|s: int|
                0 <= s < sizes.len() && places_of_size(
                    theme,
                    priority,
                    root_order,
                    (#[trigger] sizes[s])@,
                    desired,
                ).contains(place);
            if s < less.len() {
                assert(less[s] == sizes[s]);
            }
        }
    }
}

proof fn lemma_either<T>(a: Seq<T>, b: Seq<T>, x: T)
    ensures
        (a + b).contains(x) <==> a.contains(x) || b.contains(x),
{
    let c = a + b;
    if c.contains(x) {
        let i = c.index_of(x);
        if i < a.len() {
            assert(a[i] == x);
        } else {
            assert(b[i - a.len()] == x);
        }
    }
    if a.contains(x) {
        assert(c[a.index_of(x)] == x);
    }
    if b.contains(x) {
        assert(c[a.len() + b.index_of(x)] == x);
    }
}

proof fn lemma_themes(
    root: Seq<u8>,
    root_order: u16,
    themes: Seq<ThemeListing>,
    wanted: Option<String>,
    desired: int,
    place: Place,
)
    ensures
        places_of_themes(root, root_order, themes, wanted, desired).contains(place) <==> exists|
            t: int,
        |
            0 <= t < themes.len() && places_of_theme(
                root,
                root_order,
                #[trigger] themes[t],
                wanted,
                desired,
            ).contains(place),
    decreases themes.len(),
{
    if themes.len() > 0 {
        let less = themes.drop_last();
        lemma_themes(root, root_order, less, wanted, desired, place);
        let a = places_of_themes(root, root_order, less, wanted, desired);
        let b = places_of_theme(root, root_order, themes.last(), wanted, desired);
        lemma_either(a, b, place);
        if a.contains(place) {
            let t = choose|t: int|
                0 <= t < less.len() && places_of_theme(
                    root,
                    root_order,
                    #[trigger] less[t],
                    wanted,
                    desired,
                ).contains(place);
            assert(themes[t] == less[t]);
        }
        if b.contains(place) {
            assert(themes[themes.len() - 1] == themes.last());
        }
        if exists|t: int|
            0 <= t < themes.len() && places_of_theme(
                root,
                root_order,
                #[trigger] themes[t],
                wanted,
                desired,
            ).contains(place) {
            let t = choose|t: int|
                0 <= t < themes.len() && places_of_theme(
                    root,
                    root_order,
                    #[trigger] themes[t],
                    wanted,
                    desired,
                ).contains(place);
            if t < less.len() {
                assert(less[t] == themes[t]);
            }
        }
    }
}

proof fn lemma_roots(
    roots: Seq<RootListing>,
    wanted: Option<String>,
    desired: int,
    place: Place,
)
    ensures
        places_of_roots(roots, wanted, desired).contains(place) <==> exists|r: int|
            0 <= r < roots.len() && places_of_themes(
                (#[trigger] roots[r]).path@,
                short(r),
                roots[r].themes@,
                wanted,
                desired,
            ).contains(place),
    decreases roots.len(),
{
    if roots.len() > 0 {
        let n = roots.len() - 1;
        let less = roots.drop_last();
        lemma_roots(less, wanted, desired, place);
        let a = places_of_roots(less, wanted, desired);
        let b = places_of_themes(
            roots.last().path@,
            short(n),
            roots.last().themes@,
            wanted,
            desired,
        );
        lemma_either(a, b, place);
        if a.contains(place) {
            let r = choose|r: int|
                0 <= r < less.len() && places_of_themes(
                    (#[trigger] less[r]).path@,
                    short(r),
                    less[r].themes@,
                    wanted,
                    desired,
                ).contains(place);
            assert(roots[r] == less[r]);
        }
        if b.contains(place) {
            assert(roots[n] == roots.last());
        }
        if exists|r: int|
            0 <= r < roots.len() && places_of_themes(
                (#[trigger] roots[r]).path@,
                short(r),
                roots[r].themes@,
                wanted,
                desired,
            ).contains(place) {
            let r = choose|r: int|
                0 <= r < roots.len() && places_of_themes(
                    (#[trigger] roots[r]).path@,
                    short(r),
                    roots[r].themes@,
                    wanted,
                    desired,
                ).contains(place);
            if r < less.len() {
                assert(less[r] == roots[r]);
            }
        }
    }
}

/// A place in the listings is that of a directory.
proof fn lemma_spot_of(
    roots: Seq<RootListing>,
    wanted: Option<String>,
    desired: int,
    place: Place,
) -> (spot: Spot)
    requires
        places_of_roots(roots, wanted, desired).contains(place),
    ensures
        is_spot(roots, spot),
        place == (dir_of(roots, spot), base_of(roots, wanted, desired, spot)),
{
    lemma_roots(roots, wanted, desired, place);
    let r = choose|r: int|
        0 <= r < roots.len() && places_of_themes(
            (#[trigger] roots[r]).path@,
            short(r),
            roots[r].themes@,
            wanted,
            desired,
        ).contains(place);
    let root = roots[r].path@;
    let themes = roots[r].themes@;
    lemma_themes(root, short(r), themes, wanted, desired, place);
    let t = choose|t: int|
        0 <= t < themes.len() && places_of_theme(
            root,
            short(r),
            #[trigger] themes[t],
            wanted,
            desired,
        ).contains(place);
    let theme = themes[t];
    let dir = joined(root, theme.name@);
    let priority = priority_of(decode_utf8(theme.name@), wanted);
    lemma_sizes(dir, priority, short(r), theme.sizes@, desired, place);
    let s = choose|s: int|
        0 <= s < theme.sizes@.len() && places_of_size(
            dir,
            priority,
            short(r),
            (#[trigger] theme.sizes@[s])@,
            desired,
        ).contains(place);
    let two = places_of_size(dir, priority, short(r), theme.sizes@[s]@, desired);
    let k = two.index_of(place);
    Spot { root: r, theme: t, size: s, apps: k == 0 }
}

/// A directory in the listings is a place.
proof fn lemma_place_of(
    roots: Seq<RootListing>,
    wanted: Option<String>,
    desired: int,
    spot: Spot,
)
    requires
        is_spot(roots, spot),
    ensures
        places_of_roots(roots, wanted, desired).contains(
            (dir_of(roots, spot), base_of(roots, wanted, desired, spot)),
        ),
{
    let place = (dir_of(roots, spot), base_of(roots, wanted, desired, spot));
    let root = roots[spot.root].path@;
    let themes = roots[spot.root].themes@;
    let theme = themes[spot.theme];
    let dir = joined(root, theme.name@);
    let priority = priority_of(decode_utf8(theme.name@), wanted);
    let two = places_of_size(dir, priority, short(spot.root), theme.sizes@[spot.size]@, desired);
    assert(two[if spot.apps {
        0int
    } else {
        1int
    }] == place);
    lemma_sizes(dir, priority, short(spot.root), theme.sizes@, desired, place);
    lemma_themes(root, short(spot.root), themes, wanted, desired, place);
    lemma_roots(roots, wanted, desired, place);
}

/// A permutation leaves nothing out.
proof fn lemma_onto(order: Seq<int>, n: nat, k: int) -> (i: int)
    requires
        is_permutation(order, n),
        0 <= k < n,
    ensures
        0 <= i < n,
        order[i] == k,
{
    order.unique_seq_to_set();
    let all = vstd::set_lib::set_int_range(0, n as int);
    vstd::set_lib::lemma_int_range(0, n as int);
    assert(order.to_set().subset_of(all)) by {
        assert forall|x: int| order.to_set().contains(x) implies all.contains(x) by {
            assert(order.contains(x));
        }
    }
    vstd::set_lib::lemma_len_subset(order.to_set(), all);
    vstd::set_lib::lemma_subset_equality(order.to_set(), all);
    assert(all.contains(k));
    assert(order.contains(k));
    order.index_of(k)
}

/// What is sorted is what was there, and the other way round.
proof fn lemma_sorted_has<T>(items: Seq<T>, lt: spec_fn(T, T) -> bool, sorted: Seq<T>, k: int) -> (
    i: int)
    requires
        is_sorted_from(items, lt, sorted),
        0 <= k < items.len(),
    ensures
        sorted.len() == items.len(),
        0 <= i < sorted.len(),
        sorted[i] == items[k],
{
    let order = choose|order: Seq<int>| #[trigger]
        is_sorting(items, lt, order) && sorted == picked(items, order);
    lemma_onto(order, items.len(), k)
}

proof fn lemma_sorted_from<T>(items: Seq<T>, lt: spec_fn(T, T) -> bool, sorted: Seq<T>, i: int) -> (
    k: int)
    requires
        is_sorted_from(items, lt, sorted),
        0 <= i < sorted.len(),
    ensures
        sorted.len() == items.len(),
        0 <= k < items.len(),
        sorted[i] == items[k],
{
    let order = choose|order: Seq<int>| #[trigger]
        is_sorting(items, lt, order) && sorted == picked(items, order);
    order[i]
}

/// A directory of the listings is one of the sorted listings.
proof fn lemma_sorted_spot(roots: Seq<RootListing>, sorted: Seq<RootListing>, spot: Spot) -> (
    other: Spot)
    requires
        are_sorted_roots(roots, sorted),
        is_spot(roots, spot),
    ensures
        is_spot(sorted, other),
        dir_of(sorted, other) == dir_of(roots, spot),
        forall|wanted: Option<String>, desired: int|
            base_of(sorted, wanted, desired, other) == base_of(roots, wanted, desired, spot),
{
    let r = spot.root;
    assert(sorted[r].path == roots[r].path && are_sorted_themes(
        roots[r].themes@,
        sorted[r].themes@,
    ));
    let themes = roots[r].themes@;
    let order = choose|order: Seq<ThemeListing>| #[trigger]
        is_sorted_from(themes, theme_order(), order) && sorted[r].themes@.len() == order.len()
            && forall|i: int|
            0 <= i < order.len() ==> is_sorted_theme(order[i], #[trigger] sorted[r].themes@[i]);
    let t = lemma_sorted_has(themes, theme_order(), order, spot.theme);
    assert(is_sorted_theme(order[t], sorted[r].themes@[t]));
    let s = lemma_sorted_has(
        themes[spot.theme].sizes@,
        name_order(),
        sorted[r].themes@[t].sizes@,
        spot.size,
    );
    Spot { root: r, theme: t, size: s, apps: spot.apps }
}

/// A directory of the sorted listings is one of the listings.
proof fn lemma_unsorted_spot(roots: Seq<RootListing>, sorted: Seq<RootListing>, spot: Spot) -> (
    other: Spot)
    requires
        are_sorted_roots(roots, sorted),
        is_spot(sorted, spot),
    ensures
        is_spot(roots, other),
        dir_of(roots, other) == dir_of(sorted, spot),
        other.root == spot.root,
        other.apps == spot.apps,
        forall|wanted: Option<String>, desired: int|
            base_of(roots, wanted, desired, other) == base_of(sorted, wanted, desired, spot),
{
    let r = spot.root;
    assert(sorted[r].path == roots[r].path && are_sorted_themes(
        roots[r].themes@,
        sorted[r].themes@,
    ));
    let themes = roots[r].themes@;
    let order = choose|order: Seq<ThemeListing>| #[trigger]
        is_sorted_from(themes, theme_order(), order) && sorted[r].themes@.len() == order.len()
            && forall|i: int|
            0 <= i < order.len() ==> is_sorted_theme(order[i], #[trigger] sorted[r].themes@[i]);
    assert(is_sorted_theme(order[spot.theme], sorted[r].themes@[spot.theme]));
    let t = lemma_sorted_from(themes, theme_order(), order, spot.theme);
    let s = lemma_sorted_from(
        themes[t].sizes@,
        name_order(),
        sorted[r].themes@[spot.theme].sizes@,
        spot.size,
    );
    Spot { root: r, theme: t, size: s, apps: spot.apps }
}

/// The files say of a path whether it is there, and always the same.
pub open spec fn answers_are<F: Files>(files: &F, there: spec_fn(Seq<u8>) -> bool) -> bool {
    forall|path: Seq<u8>, answer: bool| #[trigger]
        is_file_answer(files, path, answer) ==> answer == there(path)
}

proof fn lemma_found_complete<F: Files>(
    files: &F,
    there: spec_fn(Seq<u8>) -> bool,
    dir: Seq<u8>,
    base: BaseScore,
    all: Seq<(u16, Seq<char>)>,
    names: Seq<(u16, Seq<char>)>,
    answers: Seq<bool>,
    item: (Score, Seq<u8>),
)
    requires
        answers_are(files, there),
        are_file_answers(files, dir, all, answers),
        names.len() <= all.len(),
        names == all.take(names.len() as int),
    ensures
        found_in(dir, base, names, answers).contains(item) <==> exists|k: int|
            0 <= k < names.len() && item.1 == joined(dir, encode_utf8((#[trigger] names[k]).1))
                && item.0 == (base.0, base.1, base.2, names[k].0, base.3) && there(item.1),
    decreases names.len(),
{
    if names.len() > 0 {
        let n = names.len() - 1;
        let less = names.drop_last();
        assert(less =~= all.take(less.len() as int));
        lemma_found_complete(files, there, dir, base, all, less, answers, item);
        let before = found_in(dir, base, less, answers);
        let path = joined(dir, encode_utf8(names[n].1));
        let last = ((base.0, base.1, base.2, names[n].0, base.3), path);
        assert(names[n] == all[n]);
        assert(is_file_answer(files, path, answers[n]));
        assert(answers[n] == there(path));
        let now = found_in(dir, base, names, answers);
        assert(now == if there(path) {
            before + seq![last]
        } else {
            before
        }) by {
            assert(before.push(last) =~= before + seq![last]);
        }
        lemma_either(before, seq![last], item);
        assert(seq![last].contains(item) <==> item == last) by {
            assert(seq![last][0] == last);
        }
        if before.contains(item) {
            let k = choose|k: int|
                0 <= k < less.len() && item.1 == joined(dir, encode_utf8((#[trigger] less[k]).1))
                    && item.0 == (base.0, base.1, base.2, less[k].0, base.3) && there(item.1);
            assert(names[k] == less[k]);
        }
        if exists|k: int|
            0 <= k < names.len() && item.1 == joined(dir, encode_utf8((#[trigger] names[k]).1))
                && item.0 == (base.0, base.1, base.2, names[k].0, base.3) && there(item.1) {
            let k = choose|k: int|
                0 <= k < names.len() && item.1 == joined(dir, encode_utf8((#[trigger] names[k]).1))
                    && item.0 == (base.0, base.1, base.2, names[k].0, base.3) && there(item.1);
            if k < n {
                assert(less[k] == names[k]);
            }
        }
    }
}

proof fn lemma_portion<F: Files>(
    files: &F,
    there: spec_fn(Seq<u8>) -> bool,
    place: Place,
    icon_name: Seq<char>,
    found: Seq<(Score, Seq<u8>)>,
    item: (Score, Seq<u8>),
)
    requires
        answers_are(files, there),
        is_found_in(files, place.0, icon_name, place.1, found),
    ensures
        found.contains(item) <==> exists|k: int|
            0 <= k < names_of(icon_name).len() && item.1 == joined(
                place.0,
                encode_utf8((#[trigger] names_of(icon_name)[k]).1),
            ) && item.0 == (
                place.1.0,
                place.1.1,
                place.1.2,
                names_of(icon_name)[k].0,
                place.1.3,
            ) && there(item.1),
{
    let names = names_of(icon_name);
    let answers = choose|answers: Seq<bool>| #[trigger]
        are_file_answers(files, place.0, names, answers) && found == found_in(
            place.0,
            place.1,
            names,
            answers,
        );
    assert(names =~= names.take(names.len() as int));
    lemma_found_complete(files, there, place.0, place.1, names, names, answers, item);
}

proof fn lemma_ordered(portions: Seq<Seq<(Score, Seq<u8>)>>, item: (Score, Seq<u8>))
    ensures
        in_order(portions).contains(item) <==> exists|i: int|
            0 <= i < portions.len() && (#[trigger] portions[i]).contains(item),
    decreases portions.len(),
{
    if portions.len() > 0 {
        let less = portions.drop_last();
        lemma_ordered(less, item);
        lemma_either(in_order(less), portions.last(), item);
        assert(portions[portions.len() - 1] == portions.last());
        if in_order(less).contains(item) {
            let i = choose|i: int| 0 <= i < less.len() && (#[trigger] less[i]).contains(item);
            assert(portions[i] == less[i]);
        }
        if exists|i: int| 0 <= i < portions.len() && (#[trigger] portions[i]).contains(item) {
            let i = choose|i: int|
                0 <= i < portions.len() && (#[trigger] portions[i]).contains(item);
            if i < less.len() {
                assert(less[i] == portions[i]);
            }
        }
    }
}

/// Nothing that was found is lost but what is the same as another one.
proof fn lemma_kept(candidates: Seq<(Score, Seq<u8>)>, k: int) -> (i: int)
    requires
        0 <= k < candidates.len(),
    ensures
        0 <= i < without_repeats(candidates).len(),
        parts(without_repeats(candidates)[i]) == parts(candidates[k].1),
    decreases candidates.len(),
{
    let less = candidates.drop_last();
    let all = without_repeats(candidates);
    let kept = without_repeats(less);
    if k < less.len() {
        let i = lemma_kept(less, k);
        assert(less[k] == candidates[k]);
        assert(all[i] == kept[i]);
        i
    } else {
        all.len() - 1
    }
}

/// All files of an icon that are there are returned, from the directories of all themes and sizes
/// and from the directories of loose files: where `there` tells which files are there, each of
/// them, or one that is the same.
pub proof fn existing_files_are_returned<F: Files>(
    files: &F,
    there: spec_fn(Seq<u8>) -> bool,
    roots: Seq<RootListing>,
    env: Environment,
    wanted: Option<String>,
    icon_name: Seq<char>,
    desired: int,
    paths: Seq<Seq<u8>>,
    dir: Seq<u8>,
    name: Seq<char>,
)
    requires
        answers_are(files, there),
        are_themed_candidates(files, roots, env, wanted, icon_name, desired, paths),
        dirs_for(env, "pixmaps"@).contains(dir) || exists|spot: Spot|
            is_spot(roots, spot) && dir == #[trigger] dir_of(roots, spot),
        if known_extension(icon_name) {
            name == icon_name
        } else {
            name == icon_name + ".svg"@ || name == icon_name + ".png"@ || name == icon_name
                + ".xpm"@
        },
        there(joined(dir, encode_utf8(name))),
    ensures
        exists|i: int|
            0 <= i < paths.len() && parts(#[trigger] paths[i]) == parts(
                joined(dir, encode_utf8(name)),
            ),
{
    let path = joined(dir, encode_utf8(name));
    let (sorted, found) = choose|sorted: Seq<RootListing>, found: Seq<(Score, Seq<u8>)>|
        #![trigger are_sorted_roots(roots, sorted), is_best_first(found, paths)]
        are_sorted_roots(roots, sorted) && is_found(
            files,
            places_of_roots(sorted, wanted, desired) + places_of_pixmaps(
                dirs_for(env, "pixmaps"@),
            ),
            icon_name,
            found,
        ) && is_best_first(found, paths);
    let loose = places_of_pixmaps(dirs_for(env, "pixmaps"@));
    let themed = places_of_roots(sorted, wanted, desired);
    let places = themed + loose;
    let names = names_of(icon_name);
    let k: int = choose|k: int| 0 <= k < names.len() && (#[trigger] names[k]).1 == name;
    assert(0 <= k < names.len() && names[k].1 == name) by {
        if known_extension(icon_name) {
            assert(names[0].1 == name);
        } else if name == icon_name + ".svg"@ {
            assert(names[0].1 == name);
        } else if name == icon_name + ".png"@ {
            assert(names[1].1 == name);
        } else {
            assert(names[2].1 == name);
        }
    }
    let place: Place = if dirs_for(env, "pixmaps"@).contains(dir) {
        let d = dirs_for(env, "pixmaps"@).index_of(dir);
        assert(loose[d].0 == dir);
        loose[d]
    } else {
        let spot = choose|spot: Spot| is_spot(roots, spot) && dir == #[trigger] dir_of(roots, spot);
        let other = lemma_sorted_spot(roots, sorted, spot);
        lemma_place_of(sorted, wanted, desired, other);
        (dir_of(sorted, other), base_of(sorted, wanted, desired, other))
    };
    lemma_either(themed, loose, place);
    assert(places.contains(place));
    let p = places.index_of(place);
    let portions = choose|portions: Seq<Seq<(Score, Seq<u8>)>>| #[trigger]
        are_found_in(files, places, icon_name, portions) && found == in_order(portions);
    assert(is_found_in(files, places[p].0, icon_name, places[p].1, portions[p]));
    let item = ((place.1.0, place.1.1, place.1.2, names[k].0, place.1.3), path);
    lemma_portion(files, there, place, icon_name, portions[p], item);
    lemma_ordered(portions, item);
    assert(found.contains(item));
    let ordered = choose|ordered: Seq<(Score, Seq<u8>)>| #[trigger]
        is_sorted_from(found, path_order(), ordered) && paths == without_repeats(ordered);
    let q = lemma_sorted_has(found, path_order(), ordered, found.index_of(item));
    let i = lemma_kept(ordered, q);
    assert(parts(paths[i]) == parts(path));
}

/// The file is in a size directory of a theme, and its score is that of the directory and of its
/// format; or it is a loose one.
pub open spec fn is_scored(
    roots: Seq<RootListing>,
    env: Environment,
    wanted: Option<String>,
    icon_name: Seq<char>,
    desired: int,
    score: Score,
    path: Seq<u8>,
) -> bool {
    exists|k: int, dir: Seq<u8>|
        0 <= k < names_of(icon_name).len() && path == #[trigger] joined(
            dir,
            encode_utf8(names_of(icon_name)[k].1),
        ) && score.3 == names_of(icon_name)[k].0 && {
            ||| exists|spot: Spot|
                is_spot(roots, spot) && dir == #[trigger] dir_of(roots, spot) && (
                    score.0,
                    score.1,
                    score.2,
                    score.4,
                ) == base_of(roots, wanted, desired, spot)
            ||| dirs_for(env, "pixmaps"@).contains(dir) && score.0 == 200
        }
}

/// Each file has its score.
pub open spec fn are_scored(
    roots: Seq<RootListing>,
    env: Environment,
    wanted: Option<String>,
    icon_name: Seq<char>,
    desired: int,
    scores: Seq<Score>,
    paths: Seq<Seq<u8>>,
) -> bool {
    &&& scores.len() == paths.len()
    &&& forall|i: int|
        0 <= i < paths.len() ==> is_scored(
            roots,
            env,
            wanted,
            icon_name,
            desired,
            #[trigger] scores[i],
            paths[i],
        )
}

/// No score is better than one before it.
pub open spec fn never_get_better(scores: Seq<Score>) -> bool {
    forall|i: int, j: int|
        0 <= i < j < scores.len() ==> !better(#[trigger] scores[j], #[trigger] scores[i])
}

/// Files come in the order of their scores, and their scores are those of the directories that they
/// are in.
pub proof fn files_come_by_their_directories<F: Files>(
    files: &F,
    there: spec_fn(Seq<u8>) -> bool,
    roots: Seq<RootListing>,
    env: Environment,
    wanted: Option<String>,
    icon_name: Seq<char>,
    desired: int,
    paths: Seq<Seq<u8>>,
)
    requires
        answers_are(files, there),
        are_themed_candidates(files, roots, env, wanted, icon_name, desired, paths),
    ensures
        exists|scores: Seq<Score>| #[trigger]
            are_scored(roots, env, wanted, icon_name, desired, scores, paths)
                && never_get_better(scores),
        forall|i: int| 0 <= i < paths.len() ==> there(#[trigger] paths[i]),
{
    let (sorted, found) = choose|sorted: Seq<RootListing>, found: Seq<(Score, Seq<u8>)>|
        #![trigger are_sorted_roots(roots, sorted), is_best_first(found, paths)]
        are_sorted_roots(roots, sorted) && is_found(
            files,
            places_of_roots(sorted, wanted, desired) + places_of_pixmaps(
                dirs_for(env, "pixmaps"@),
            ),
            icon_name,
            found,
        ) && is_best_first(found, paths);
    let loose = places_of_pixmaps(dirs_for(env, "pixmaps"@));
    let themed = places_of_roots(sorted, wanted, desired);
    let places = themed + loose;
    let portions = choose|portions: Seq<Seq<(Score, Seq<u8>)>>| #[trigger]
        are_found_in(files, places, icon_name, portions) && found == in_order(portions);
    better_files_come_first(found, paths);
    let scores = choose|scores: Seq<Score>| #[trigger]
        are_scores_of(found, paths, scores) && forall|i: int, j: int|
            0 <= i < j < paths.len() ==> !better(#[trigger] scores[j], #[trigger] scores[i]);
    assert forall|i: int| 0 <= i < paths.len() implies there(#[trigger] paths[i]) && is_scored(
        roots,
        env,
        wanted,
        icon_name,
        desired,
        scores[i],
        paths[i],
    ) by {
        let score = scores[i];
        let item = (score, paths[i]);
        assert(found.contains(item));
        lemma_ordered(portions, item);
        let p = choose|p: int| 0 <= p < portions.len() && (#[trigger] portions[p]).contains(item);
        assert(is_found_in(files, places[p].0, icon_name, places[p].1, portions[p]));
        lemma_portion(files, there, places[p], icon_name, portions[p], item);
        let k = choose|k: int|
            0 <= k < names_of(icon_name).len() && item.1 == joined(
                places[p].0,
                encode_utf8((#[trigger] names_of(icon_name)[k]).1),
            ) && item.0 == (
                places[p].1.0,
                places[p].1.1,
                places[p].1.2,
                names_of(icon_name)[k].0,
                places[p].1.3,
            ) && there(item.1);
        let dir = places[p].0;
        assert(paths[i] == joined(dir, encode_utf8(names_of(icon_name)[k].1)));
        if p < themed.len() {
            assert(themed[p] == places[p]);
            let spot = lemma_spot_of(sorted, wanted, desired, places[p]);
            let other = lemma_unsorted_spot(roots, sorted, spot);
            assert(base_of(roots, wanted, desired, other) == base_of(
                sorted,
                wanted,
                desired,
                spot,
            ));
            assert(dir == dir_of(roots, other));
        } else {
            let d = p - themed.len();
            assert(loose[d] == places[p]);
            assert(dirs_for(env, "pixmaps"@)[d] == dir);
        }
    }
    assert forall|i: int| 0 <= i < paths.len() implies is_scored(
        roots,
        env,
        wanted,
        icon_name,
        desired,
        #[trigger] scores[i],
        paths[i],
    ) by {
        assert(there(paths[i]));
    }
    assert(are_scored(roots, env, wanted, icon_name, desired, scores, paths));
    assert(never_get_better(scores));
}

/// The name of an icon is that of a file exactly where it ends in one of the three formats. An
/// identifier with dots is not.
pub proof fn only_icon_formats_are_files(icon_name: Seq<char>, stem: Seq<u8>, extension: Seq<u8>)
    requires
        !extension.contains(DOT),
        stem.len() > 0,
        stem.push(DOT) + extension != seq![DOT, DOT],
        file_name(encode_utf8(icon_name)) == Some(stem.push(DOT) + extension),
    ensures
        known_extension(icon_name) <==> extension == encode_utf8("svg"@) || extension
            == encode_utf8("png"@) || extension == encode_utf8("xpm"@),
{
    names_are_cut_at_the_last_dot(stem, extension);
}

/// A name without a dot is that of no file.
pub proof fn names_without_dots_are_no_files(icon_name: Seq<char>, name: Seq<u8>)
    requires
        !name.contains(DOT),
        file_name(encode_utf8(icon_name)) == Some(name),
    ensures
        !known_extension(icon_name),
{
    names_are_cut_at_the_last_dot(name, name);
}

} // verus!
