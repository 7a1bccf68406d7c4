//! What holds of looking up the icon of an application.
use crate::app_icon::{
    are_paths_of, have_failed, indexed_sources, is_first_loaded, is_icon_of, is_icon_size, is_kept,
    is_load_outcome, is_looked_up, is_texture_got, is_texture_loaded, is_unpacked, lists,
    pixels_are_packed, source_failed, source_loaded, sources_for, with_indexed, with_new_source,
    AppIconPixels, AppIconTexture, CachedIcon, Pixbuf, PixelError,
};
use crate::desktop_entry::{same_source, without_suffix, Source};
use crate::exact::{is_exact, keeps_values, rounds_to_nearest};
use crate::number::{is_nearest, is_product, is_whole, saturated, Arithmetic, Number};
use crate::path::FilePath;
use crate::text::{lowercase, split};
use crate::text_laws::{last_piece_follows_the_last_separator, text_without_separators_is_one_piece};
use vstd::prelude::*;

verus! {

/// Where a text has a separator it can be cut at the last one.
proof fn lemma_cut(s: Seq<char>, separator: char) -> (cut: (Seq<char>, Seq<char>))
    requires
        s.contains(separator),
    ensures
        s == cut.0.push(separator) + cut.1,
        !cut.1.contains(separator),
    decreases s.len(),
{
    let less = s.drop_last();
    if s.last() == separator {
        assert(s =~= less.push(separator) + Seq::<char>::empty());
        (less, Seq::empty())
    } else {
        assert(less.contains(separator)) by {
            let i = s.index_of(separator);
            assert(less[i] == separator);
        }
        let cut = lemma_cut(less, separator);
        let tail = cut.1.push(s.last());
        assert(s =~= less.push(s.last()));
        assert((cut.0.push(separator) + cut.1).push(s.last()) =~= cut.0.push(separator) + tail);
        assert(!tail.contains(separator)) by {
            if tail.contains(separator) {
                let i = tail.index_of(separator);
                if i < cut.1.len() {
                    assert(cut.1.contains(cut.1[i]));
                }
            }
        }
        (cut.0, tail)
    }
}

proof fn lemma_contained(sources: Seq<Source>, name: Seq<char>)
    requires
        lists(sources, Source::Name(name)),
    ensures
        sources.contains(Source::Name(name)),
{
    let i = choose|i: int|
        0 <= i < sources.len() && same_source(#[trigger] sources[i], Source::Name(name));
    assert(sources[i] == Source::Name(name));
}

proof fn lemma_added(sources: Seq<Source>, name: Seq<char>)
    ensures
        with_new_source(sources, Source::Name(name)).contains(Source::Name(name)),
        forall|source: Source|
            sources.contains(source) ==> with_new_source(
                sources,
                Source::Name(name),
            ).contains(source),
        forall|source: Source| #[trigger]
            with_new_source(sources, Source::Name(name)).contains(source) ==> sources.contains(
                source,
            ) || source == Source::Name(name),
{
    let added = Source::Name(name);
    let more = with_new_source(sources, added);
    if lists(sources, added) {
        lemma_contained(sources, name);
    } else {
        assert(more[sources.len() as int] == added);
        assert forall|source: Source| sources.contains(source) implies more.contains(source) by {
            let i = sources.index_of(source);
            assert(more[i] == source);
        }
        assert forall|source: Source| #[trigger] more.contains(source) implies sources.contains(
            source,
        ) || source == added by {
            let i = more.index_of(source);
            if i < sources.len() {
                assert(sources[i] == source);
            }
        }
    }
}

/// An identifier is tried as a name, without `.desktop` at its end, as it is written, in lower
/// case, and by what follows the last dot in lower case.
pub proof fn names_of_the_identifier_are_tried(
    index: Map<Seq<char>, Source>,
    app_id: Seq<char>,
    head: Seq<char>,
    tail: Seq<char>,
)
    requires
        !tail.contains('.'),
        lowercase(without_suffix(app_id)) == head.push('.') + tail,
    ensures
        sources_for(index, app_id).contains(Source::Name(without_suffix(app_id))),
        sources_for(index, app_id).contains(Source::Name(head.push('.') + tail)),
        sources_for(index, app_id).contains(Source::Name(tail)),
{
    let base = without_suffix(app_id);
    let lower = lowercase(base);
    last_piece_follows_the_last_separator(head, tail, '.');
    let s3 = indexed_sources(index, app_id);
    let s4 = with_new_source(s3, Source::Name(base));
    let s5 = with_new_source(s4, Source::Name(lower));
    lemma_added(s3, base);
    lemma_added(s4, lower);
    lemma_added(s5, tail);
}

/// Nothing is tried but what the table has for the identifier, with and without `.desktop`, or for
/// its lower case, the identifier, its lower case, and what follows the last dot of that.
pub proof fn nothing_else_is_tried(
    index: Map<Seq<char>, Source>,
    app_id: Seq<char>,
    source: Source,
)
    requires
        sources_for(index, app_id).contains(source),
    ensures
        ({
            let base = without_suffix(app_id);
            let lower = lowercase(base);
            ||| index.contains_key(app_id) && source == index[app_id]
            ||| index.contains_key(base) && source == index[base]
            ||| index.contains_key(lower) && source == index[lower]
            ||| source == Source::Name(base)
            ||| source == Source::Name(lower)
            ||| exists|head: Seq<char>, tail: Seq<char>|
                lower == #[trigger] (head.push('.') + tail) && !tail.contains('.') && source
                    == Source::Name(tail)
        }),
{
    let base = without_suffix(app_id);
    let lower = lowercase(base);
    let last = split(lower, '.').last();
    let s1 = with_indexed(Seq::empty(), index, app_id);
    let s2 = with_indexed(s1, index, base);
    let s3 = with_indexed(s2, index, lower);
    let s4 = with_new_source(s3, Source::Name(base));
    let s5 = with_new_source(s4, Source::Name(lower));
    lemma_added(s3, base);
    lemma_added(s4, lower);
    lemma_added(s5, last);
    lemma_indexed(Seq::empty(), index, app_id);
    lemma_indexed(s1, index, base);
    lemma_indexed(s2, index, lower);
    if source == Source::Name(last) {
        if lower.contains('.') {
            let cut = lemma_cut(lower, '.');
            last_piece_follows_the_last_separator(cut.0, cut.1, '.');
            assert(lower == cut.0.push('.') + cut.1);
        } else {
            text_without_separators_is_one_piece(lower, '.');
        }
    }
}

proof fn lemma_indexed(sources: Seq<Source>, index: Map<Seq<char>, Source>, key: Seq<char>)
    ensures
        forall|source: Source| #[trigger]
            with_indexed(sources, index, key).contains(source) ==> sources.contains(source) || (
            index.contains_key(key) && source == index[key]),
{
    let more = with_indexed(sources, index, key);
    assert forall|source: Source| #[trigger] more.contains(source) implies sources.contains(source)
        || (index.contains_key(key) && source == index[key]) by {
        let i = more.index_of(source);
        if i < sources.len() {
            assert(sources[i] == source);
        }
    }
}

/// What the table has is tried first: for the identifier as it is written, else without
/// `.desktop`, else for its lower case. Only where the table has nothing the identifier itself is
/// the first name.
pub proof fn table_is_tried_first(index: Map<Seq<char>, Source>, app_id: Seq<char>)
    ensures
        ({
            let base = without_suffix(app_id);
            let lower = lowercase(base);
            let sources = sources_for(index, app_id);
            &&& sources.len() > 0
            &&& index.contains_key(app_id) ==> sources[0] == index[app_id]
            &&& !index.contains_key(app_id) && index.contains_key(base) ==> sources[0]
                == index[base]
            &&& !index.contains_key(app_id) && !index.contains_key(base) && index.contains_key(
                lower,
            ) ==> sources[0] == index[lower]
            &&& !index.contains_key(app_id) && !index.contains_key(base) && !index.contains_key(
                lower,
            ) ==> sources[0] == Source::Name(base)
        }),
{
}

/// Where the table has nothing, the names are tried in this order: the identifier, its lower case,
/// and what follows the last dot.
pub proof fn names_come_in_order(
    index: Map<Seq<char>, Source>,
    app_id: Seq<char>,
    head: Seq<char>,
    tail: Seq<char>,
)
    requires
        !tail.contains('.'),
        lowercase(without_suffix(app_id)) == head.push('.') + tail,
        !index.contains_key(app_id),
        !index.contains_key(without_suffix(app_id)),
        !index.contains_key(head.push('.') + tail),
        without_suffix(app_id) != head.push('.') + tail,
        without_suffix(app_id) != tail,
    ensures
        sources_for(index, app_id) == seq![
            Source::Name(without_suffix(app_id)),
            Source::Name(head.push('.') + tail),
            Source::Name(tail),
        ],
{
    let base = without_suffix(app_id);
    let lower = lowercase(base);
    last_piece_follows_the_last_separator(head, tail, '.');
    assert(lower[head.len() as int] == '.');
    assert(lower.contains('.'));
    let s3 = indexed_sources(index, app_id);
    assert(s3 =~= Seq::empty());
    let s4 = with_new_source(s3, Source::Name(base));
    assert(s4 =~= seq![Source::Name(base)]);
    let s5 = with_new_source(s4, Source::Name(lower));
    assert(s5 =~= seq![Source::Name(base), Source::Name(lower)]);
}

/// A text that does not end in `.desktop` keeps its end.
pub proof fn other_ends_stay(s: Seq<char>)
    requires
        forall|stem: Seq<char>| s != #[trigger] (stem + ".desktop"@),
    ensures
        without_suffix(s) == s,
{
    if ".desktop"@.is_suffix_of(s) {
        let stem = s.take(s.len() - ".desktop"@.len());
        assert(s =~= stem + ".desktop"@);
    }
}

/// Every channel of every pixel comes from its place in the image, rows apart by the stride, and
/// pixels packed without padding. What has no alpha is opaque.
pub proof fn pixels_come_from_the_image(pixbuf: Pixbuf, x: int, y: int)
    requires
        pixbuf.form_error() is None,
        0 <= pixbuf.rowstride,
        0 <= x < pixbuf.width,
        0 <= y < pixbuf.height,
    ensures
        ({
            let at = (y * pixbuf.width + x) * 4;
            let from = y * pixbuf.rowstride + x * pixbuf.n_channels;
            &&& pixbuf.rgba().len() == pixbuf.width * pixbuf.height * 4
            &&& pixbuf.rgba()[at] == pixbuf.bytes@[from]
            &&& pixbuf.rgba()[at + 1] == pixbuf.bytes@[from + 1]
            &&& pixbuf.rgba()[at + 2] == pixbuf.bytes@[from + 2]
            &&& pixbuf.n_channels == 4 ==> pixbuf.rgba()[at + 3] == pixbuf.bytes@[from + 3]
            &&& pixbuf.n_channels == 3 ==> pixbuf.rgba()[at + 3] == 255
        }),
{
    pixels_are_packed(pixbuf, x, y, 0);
    pixels_are_packed(pixbuf, x, y, 1);
    pixels_are_packed(pixbuf, x, y, 2);
    pixels_are_packed(pixbuf, x, y, 3);
}

/// An image is an icon where it has eight bits in each of three or four channels, and pixels, and
/// enough bytes for all rows, the last one without padding. The first thing that is wrong is told.
pub proof fn wrong_images_are_refused(pixbuf: Pixbuf)
    ensures
        pixbuf.form_error() is None <==> pixbuf.bits_per_sample == 8 && pixbuf.width > 0
            && pixbuf.height > 0 && (pixbuf.n_channels == 3 || pixbuf.n_channels == 4),
        pixbuf.bits_per_sample != 8 ==> pixbuf.form_error() == Some(PixelError::NotEightBit),
        pixbuf.bits_per_sample == 8 && (pixbuf.width <= 0 || pixbuf.height <= 0)
            ==> pixbuf.form_error() == Some(PixelError::Empty),
        pixbuf.bits_per_sample == 8 && pixbuf.width > 0 && pixbuf.height > 0 && pixbuf.n_channels
            != 3 && pixbuf.n_channels != 4 ==> pixbuf.form_error() == Some(PixelError::Channels),
        0 <= pixbuf.rowstride ==> pixbuf.span() == (pixbuf.height - 1) * pixbuf.rowstride
            + pixbuf.width * pixbuf.n_channels,
{
}

/// The first source of which a file can be loaded decides: where the ones before it give nothing,
/// and it always gives something, the icon is one of its own.
pub proof fn first_usable_source_decides<
    C: Fn(&String, i32) -> Vec<FilePath>,
    L: Fn(&FilePath, i32) -> Option<AppIconPixels>,
>(
    candidates: C,
    load: L,
    sources: Seq<Source>,
    physical_size: i32,
    outcome: Option<AppIconPixels>,
    k: int,
)
    requires
        is_first_loaded(candidates, load, sources, physical_size, outcome),
        0 <= k < sources.len(),
        !source_failed(candidates, load, sources[k], physical_size),
        forall|j: int, pixels: AppIconPixels|
            0 <= j < k ==> !source_loaded(
                candidates,
                load,
                #[trigger] sources[j],
                physical_size,
                #[trigger] identity(pixels),
            ),
    ensures
        outcome matches Some(pixels) && source_loaded(
            candidates,
            load,
            sources[k],
            physical_size,
            pixels,
        ),
{
    if let Some(pixels) = outcome {
        let i = choose|i: int|
            0 <= i < sources.len() && source_loaded(
                candidates,
                load,
                #[trigger] sources[i],
                physical_size,
                pixels,
            ) && forall|j: int|
                0 <= j < i ==> source_failed(candidates, load, #[trigger] sources[j], physical_size);
        if i < k {
            assert(!source_loaded(
                candidates,
                load,
                sources[i],
                physical_size,
                identity(pixels),
            ));
        }
        if i > k {
            assert(source_failed(candidates, load, sources[k], physical_size));
        }
    }
}

/// The pixels themselves.
pub open spec fn identity(pixels: AppIconPixels) -> AppIconPixels {
    pixels
}

/// A file is loaded as it is, and decides alone; a name is looked up, and the first of its files
/// that can be loaded decides.
pub proof fn first_loadable_file_decides<
    C: Fn(&String, i32) -> Vec<FilePath>,
    L: Fn(&FilePath, i32) -> Option<AppIconPixels>,
>(candidates: C, load: L, source: Source, physical_size: i32, pixels: AppIconPixels)
    requires
        source_loaded(candidates, load, source, physical_size, pixels),
    ensures
        source matches Source::File(path) ==> is_load_outcome(
            load,
            path,
            physical_size,
            Some(pixels),
        ),
        source matches Source::Name(name) ==> exists|n: String, answer: Vec<FilePath>, i: int|
            #![trigger candidates.ensures((&n, physical_size), answer), answer@[i]]
            n@ == name && candidates.ensures((&n, physical_size), answer) && 0 <= i < answer@.len()
                && is_load_outcome(load, answer@[i]@, physical_size, Some(pixels)) && forall|j: int|
                0 <= j < i ==> is_load_outcome(
                    load,
                    (#[trigger] answer@[j])@,
                    physical_size,
                    None,
                ),
{
    let (paths, i) = choose|paths: Seq<FilePath>, i: int|
        #![trigger are_paths_of(candidates, source, physical_size, paths), have_failed(load, paths, physical_size, i)]
        are_paths_of(candidates, source, physical_size, paths) && 0 <= i < paths.len()
            && have_failed(load, paths, physical_size, i) && is_load_outcome(
            load,
            paths[i]@,
            physical_size,
            Some(pixels),
        );
    match source {
        Source::File(path) => {},
        Source::Name(name) => {
            let (n, answer) = choose|n: String, answer: Vec<FilePath>|
                n@ == name && answer@ == paths && #[trigger] candidates.ensures(
                    (&n, physical_size),
                    answer,
                );
            assert(candidates.ensures((&n, physical_size), answer));
            assert(answer@[i] == paths[i]);
        },
    }
}

/// Icons are kept by application and size: a lookup gives what is kept for both, and only where
/// nothing is, it loads, and keeps what came of it as the last icon.
pub proof fn icons_are_kept_by_application_and_size<F: FnOnce() -> Option<AppIconPixels>>(
    before: Seq<CachedIcon>,
    app_id: Seq<char>,
    physical_size: i32,
    load: F,
    after: Seq<CachedIcon>,
    pixels: Option<AppIconPixels>,
)
    requires
        is_looked_up(before, app_id, physical_size, load, after, pixels),
    ensures
        (forall|i: int|
            0 <= i < before.len() ==> (#[trigger] before[i]).app_id@ != app_id
                || before[i].physical_size != physical_size) ==> {
            &&& load.ensures((), pixels)
            &&& after.len() == before.len() + 1
            &&& after[before.len() as int].app_id@ == app_id
            &&& after[before.len() as int].physical_size == physical_size
            &&& after[before.len() as int].pixels == pixels
        },
        forall|i: int|
            0 <= i < before.len() && (#[trigger] before[i]).app_id@ == app_id
                && before[i].physical_size == physical_size ==> after == before && exists|k: int|
                0 <= k < before.len() && (#[trigger] before[k]).app_id@ == app_id
                    && before[k].physical_size == physical_size && before[k].pixels == pixels,
{
    if forall|i: int|
        0 <= i < before.len() ==> (#[trigger] before[i]).app_id@ != app_id
            || before[i].physical_size != physical_size {
        assert(!is_kept(before, app_id, physical_size));
    }
    assert forall|i: int|
        0 <= i < before.len() && (#[trigger] before[i]).app_id@ == app_id
            && before[i].physical_size == physical_size implies after == before && exists|k: int|
        0 <= k < before.len() && (#[trigger] before[k]).app_id@ == app_id
            && before[k].physical_size == physical_size && before[k].pixels == pixels by {
        assert(is_icon_of(before, i, app_id, physical_size));
        let k = choose|k: int| #[trigger]
            is_icon_of(before, k, app_id, physical_size) && pixels == before[k].pixels;
        assert(before[k].app_id@ == app_id);
    }
}

/// A texture is looked up again where the application, the size or the scale is another one, or
/// nothing was looked up; else it is kept. Without an application nothing is looked up.
pub proof fn changed_icon_is_looked_up_again<T, L: FnOnce(&String, i32) -> Option<T>>(
    before: AppIconTexture<T>,
    app_id: Option<String>,
    size: int,
    scale: Number,
    load: L,
    after: AppIconTexture<T>,
)
    requires
        is_texture_got(before, app_id, size, scale, load, after),
    ensures
        ({
            let same = before.spec_physical_size() == size && before.spec_scale().same(scale) && (
            match app_id {
                Some(id) => before.spec_app_id() == Some(id@),
                None => before.spec_app_id() is None,
            });
            &&& after.spec_physical_size() == size
            &&& match app_id {
                Some(id) => after.spec_app_id() == Some(id@),
                None => after.spec_app_id() is None,
            }
            &&& same && before.spec_texture() is Some ==> after.spec_texture()
                == before.spec_texture()
            &&& !same ==> after.spec_scale() == scale
            &&& !same && app_id is None ==> after.spec_texture() is None
            &&& (!same || before.spec_texture() is None) && app_id is Some
                ==> after.spec_texture() is Some && exists|s: String, n: i32| #[trigger]
                load.ensures((&s, n), after.spec_texture()->0) && s@ == app_id->0@ && n == size
        }),
{
    if let Some(id) = app_id {
        if before.looked_up(Some(id@), size, scale) is None {
            let texture = after.spec_texture()->0;
            assert(is_texture_loaded(load, id@, size, texture));
            let (s, n) = choose|s: String, n: i32|
                s@ == id@ && n == size && #[trigger] load.ensures((&s, n), texture);
            assert(load.ensures((&s, n), texture));
        }
    }
}

/// The size of an icon is what its logical size comes to at the scale, in whole pixels, at least
/// one.
pub proof fn icon_size_is_the_nearest_one<A: Arithmetic>(
    a: &A,
    v: spec_fn(Number) -> real,
    logical_size: Number,
    scale: Number,
    size: int,
)
    requires
        is_exact(a, v),
        rounds_to_nearest(a, v),
        keeps_values(a, v),
        is_icon_size(a, logical_size, scale, size),
        v(logical_size) * v(scale) <= (i32::MAX - 1) as real,
    ensures
        1 <= size,
        size > 1 ==> v(logical_size) * v(scale) - 1real / 2real <= size as real,
        size as real <= v(logical_size) * v(scale) + 1real / 2real || size == 1,
        size == 1 ==> v(logical_size) * v(scale) <= 3real / 2real,
{
    let one = Number { bits: 0x3ff0_0000_0000_0000 };
    let (product, rounded, whole) = choose|product: Number, rounded: Number, whole: i64|
        #![trigger is_product(a, logical_size, scale, product), is_nearest(a, product, rounded), is_whole(a, rounded.greater(one), whole)]
        is_product(a, logical_size, scale, product) && is_nearest(a, product, rounded) && is_whole(
            a,
            rounded.greater(one),
            whole,
        ) && size == saturated(whole);
    let n = v(rounded).floor();
    assert(v(rounded) == n as real);
    let most = rounded.greater(one);
    assert(v(most) == if n < 1 {
        1real
    } else {
        n as real
    });
    assert(v(most).floor() as real == v(most));
    assert(v(most).floor() <= i32::MAX);
    assert(whole == v(most).floor());
}

/// An image with enough bytes in a form that is known is copied pixel by pixel, and any other is
/// refused, for its form before its length.
pub proof fn images_are_copied(
    pixbuf: Pixbuf,
    result: Result<AppIconPixels, PixelError>,
    x: int,
    y: int,
)
    requires
        0 <= pixbuf.rowstride,
        0 <= x < pixbuf.width,
        0 <= y < pixbuf.height,
        is_unpacked(pixbuf, result),
    ensures
        pixbuf.bits_per_sample != 8 ==> result == Err::<AppIconPixels, _>(PixelError::NotEightBit),
        pixbuf.bits_per_sample == 8 && pixbuf.n_channels != 3 && pixbuf.n_channels != 4 ==> result
            == Err::<AppIconPixels, _>(PixelError::Channels),
        pixbuf.bits_per_sample == 8 && (pixbuf.n_channels == 3 || pixbuf.n_channels == 4) ==> {
            let length = (pixbuf.height - 1) * pixbuf.rowstride + pixbuf.width * pixbuf.n_channels;
            &&& pixbuf.bytes@.len() < length ==> result == Err::<AppIconPixels, _>(
                PixelError::Truncated,
            )
            &&& pixbuf.bytes@.len() >= length ==> {
                let at = (y * pixbuf.width + x) * 4;
                let from = y * pixbuf.rowstride + x * pixbuf.n_channels;
                &&& result is Ok
                &&& result->Ok_0.width == pixbuf.width
                &&& result->Ok_0.height == pixbuf.height
                &&& result->Ok_0.data@.len() == pixbuf.width * pixbuf.height * 4
                &&& result->Ok_0.data@[at] == pixbuf.bytes@[from]
                &&& result->Ok_0.data@[at + 1] == pixbuf.bytes@[from + 1]
                &&& result->Ok_0.data@[at + 2] == pixbuf.bytes@[from + 2]
                &&& result->Ok_0.data@[at + 3] == if pixbuf.n_channels == 4 {
                    pixbuf.bytes@[from + 3]
                } else {
                    255
                }
            }
        },
{
    wrong_images_are_refused(pixbuf);
    if pixbuf.form_error() is None {
        pixels_come_from_the_image(pixbuf, x, y);
    }
}

/// What is shown is what was loaded for the application, and nothing where there is none. The old
/// texture can be shown until then.
pub proof fn loaded_texture_is_shown<T, L: FnOnce(&String, i32) -> Option<T>>(
    before: AppIconTexture<T>,
    app_id: Option<String>,
    size: int,
    scale: Number,
    load: L,
    after: AppIconTexture<T>,
)
    requires
        is_texture_got(before, app_id, size, scale, load, after),
    ensures
        app_id is None ==> after.texture_of_app() is None,
        app_id is Some ==> after.texture_of_app() == after.last_texture(),
        app_id is Some && before.spec_app_id() != Some(app_id->0@) ==> exists|s: String, n: i32|
         #[trigger]
            load.ensures((&s, n), after.texture_of_app()) && s@ == app_id->0@ && n == size,
        before.spec_texture() matches Some(texture) ==> before.last_texture() == texture,
        before.spec_texture() is None ==> before.last_texture() is None,
{
    changed_icon_is_looked_up_again(before, app_id, size, scale, load, after);
    if app_id is Some && before.spec_app_id() != Some(app_id->0@) {
        let (s, n) = choose|s: String, n: i32| #[trigger]
            load.ensures((&s, n), after.spec_texture()->0) && s@ == app_id->0@ && n == size;
        assert(after.texture_of_app() == after.spec_texture()->0);
        assert(load.ensures((&s, n), after.texture_of_app()));
    }
}

} // verus!
