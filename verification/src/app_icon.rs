//! Icons of applications.
use crate::desktop_entry::{
    same_source, trim_desktop_suffix, without_suffix, DesktopEntryIndex, IconSource, Source,
};
use crate::number::{
    is_nearest, is_product, is_whole, saturate, saturated, Arithmetic, Number, ONE,
};
use crate::path::FilePath;
use crate::text::{from_chars, lowercase, split, split_chars, to_chars, to_lowercase};
use crate::thumbnail::one;
use vstd::prelude::*;

verus! {

/// Decoded icon pixels, four bytes each: red, green, blue, and alpha.
#[derive(Debug)]
pub struct AppIconPixels {
    /// The bytes.
    pub data: Vec<u8>,
    /// Pixels per row.
    pub width: i32,
    /// Number of rows.
    pub height: i32,
}

/// A decoded image as an image library holds it.
#[derive(Debug)]
pub struct Pixbuf {
    /// Bits of each channel.
    pub bits_per_sample: i32,
    /// Pixels per row.
    pub width: i32,
    /// Number of rows.
    pub height: i32,
    /// Number of channels.
    pub n_channels: i32,
    /// Bytes from one row to the next.
    pub rowstride: i32,
    /// The bytes.
    pub bytes: Vec<u8>,
}

/// Why an image is no icon.
#[derive(Debug, Clone, Copy, PartialEq, Eq, Structural)]
pub enum PixelError {
    /// A channel does not have eight bits.
    NotEightBit,
    /// There are no pixels.
    Empty,
    /// There are neither three nor four channels.
    Channels,
    /// There are fewer bytes than the image has pixels for.
    Truncated,
}

impl PixelError {
    /// What to tell the user.
    pub fn message(self) -> (message: &'static str)
        ensures
            message@ == match self {
                PixelError::NotEightBit => "expected 8-bit app icon"@,
                PixelError::Empty => "empty app icon"@,
                PixelError::Channels => "unexpected app icon channels"@,
                PixelError::Truncated => "truncated app icon pixel data"@,
            },
    {
        match self {
            PixelError::NotEightBit => "expected 8-bit app icon",
            PixelError::Empty => "empty app icon",
            PixelError::Channels => "unexpected app icon channels",
            PixelError::Truncated => "truncated app icon pixel data",
        }
    }
}

impl Pixbuf {
    /// What is wrong with the form of the image.
    pub open spec fn form_error(self) -> Option<PixelError> {
        if self.bits_per_sample != 8 {
            Some(PixelError::NotEightBit)
        } else if self.width <= 0 || self.height <= 0 {
            Some(PixelError::Empty)
        } else if self.n_channels != 3 && self.n_channels != 4 {
            Some(PixelError::Channels)
        } else {
            None
        }
    }

    /// The bytes from one row to the next, a negative number of them wrapped around.
    pub open spec fn stride(self) -> int {
        if self.rowstride < 0 {
            usize::MAX + 1 + self.rowstride
        } else {
            self.rowstride as int
        }
    }

    /// The number of bytes that the rows span. The last row needs no padding.
    pub open spec fn span(self) -> int {
        (self.height - 1) * self.stride() + self.width * self.n_channels
    }

    /// The bytes of the rows can be counted, and so can those of the pixels where the rows are all
    /// there.
    pub open spec fn countable(self) -> bool {
        self.form_error() is None ==> {
            &&& self.span() <= usize::MAX
            &&& self.span() <= self.bytes@.len() ==> self.width * self.height * 4 <= isize::MAX
        }
    }

    /// A channel of a pixel. Images without alpha are opaque.
    pub open spec fn channel(self, x: int, y: int, k: int) -> u8 {
        if k < self.n_channels {
            self.bytes@[y * self.stride() + x * self.n_channels + k]
        } else {
            255
        }
    }

    /// The byte at an index of the pixels, row by row.
    pub open spec fn rgba_at(self, i: int) -> u8 {
        self.channel((i / 4) % (self.width as int), (i / 4) / (self.width as int), i % 4)
    }

    /// All pixels, row by row.
    pub open spec fn rgba(self) -> Seq<u8> {
        Seq::new((self.width * self.height * 4) as nat, |i: int| self.rgba_at(i))
    }
}

impl Pixbuf {
    fn row_stride(&self) -> (stride: usize)
        ensures
            stride == self.stride(),
    {
        if self.rowstride < 0 {
            usize::MAX - ((-(self.rowstride as i64)) as usize) + 1
        } else {
            self.rowstride as usize
        }
    }

    /// Whether the bytes of the rows and of the pixels can be counted.
    pub fn is_countable(&self) -> (result: bool)
        ensures
            result == self.countable(),
    {
        if self.bits_per_sample != 8 || self.width <= 0 || self.height <= 0 || (self.n_channels != 3
            && self.n_channels != 4) {
            return true;
        }
        let width: u128 = self.width as u128;
        let height: u128 = self.height as u128;
        let stride: u128 = self.row_stride() as u128;
        let channels: u128 = self.n_channels as u128;
        proof {
            assert(0 <= (height - 1) * stride <= 0x7fff_ffff * 0xffff_ffff_ffff_ffff)
                by (nonlinear_arith)
                requires
                    1 <= height <= 0x7fff_ffff,
                    0 <= stride <= 0xffff_ffff_ffff_ffff,
            ;
            assert(0 <= width * channels <= 0x7fff_ffff * 4) by (nonlinear_arith)
                requires
                    0 <= width <= 0x7fff_ffff,
                    0 <= channels <= 4,
            ;
            assert(0 <= width * height <= 0x7fff_ffff * 0x7fff_ffff) by (nonlinear_arith)
                requires
                    0 <= width <= 0x7fff_ffff,
                    0 <= height <= 0x7fff_ffff,
            ;
        }
        let span: u128 = (height - 1) * stride + width * channels;
        span <= usize::MAX as u128 && (span > self.bytes.len() as u128 || width * height * 4
            <= isize::MAX as u128)
    }
}

/// The index of a channel of a pixel tells the pixel and the channel.
proof fn lemma_pixel_index(width: int, x: int, y: int, k: int)
    requires
        0 <= x < width,
        0 <= y,
        0 <= k < 4,
    ensures
        ({
            let i = (y * width + x) * 4 + k;
            &&& (i / 4) % width == x
            &&& (i / 4) / width == y
            &&& i % 4 == k
        }),
{
    let p = y * width + x;
    let i = p * 4 + k;
    assert(i / 4 == p && i % 4 == k);
    vstd::arithmetic::div_mod::lemma_fundamental_div_mod_converse(p, width, y, x);
}

/// `result` holds the pixels of the image, or what is wrong with it.
pub open spec fn is_unpacked(pixbuf: Pixbuf, result: Result<AppIconPixels, PixelError>) -> bool {
    match pixbuf.form_error() {
        Some(err) => result == Err::<AppIconPixels, _>(err),
        None => if pixbuf.bytes@.len() < pixbuf.span() {
            result == Err::<AppIconPixels, _>(PixelError::Truncated)
        } else {
            &&& result is Ok
            &&& result->Ok_0.data@ == pixbuf.rgba()
            &&& result->Ok_0.width == pixbuf.width
            &&& result->Ok_0.height == pixbuf.height
        },
    }
}

/// Copies an image into tightly packed pixels. Padding at the end of rows is stripped and images
/// without alpha get an opaque alpha channel.
pub fn pixels_from_pixbuf(pixbuf: &Pixbuf) -> (result: Result<AppIconPixels, PixelError>)
    requires
        pixbuf.countable(),
    ensures
        is_unpacked(*pixbuf, result),
{
    if pixbuf.bits_per_sample != 8 {
        return Err(PixelError::NotEightBit);
    }
    if pixbuf.width <= 0 || pixbuf.height <= 0 {
        return Err(PixelError::Empty);
    }
    if pixbuf.n_channels != 3 && pixbuf.n_channels != 4 {
        return Err(PixelError::Channels);
    }
    let width: usize = pixbuf.width as usize;
    let height: usize = pixbuf.height as usize;
    let channels: usize = pixbuf.n_channels as usize;
    let rowstride: usize = pixbuf.row_stride();
    proof {
        assert((height - 1) * rowstride >= 0) by (nonlinear_arith)
            requires
                height >= 1,
                rowstride >= 0,
        ;
        assert(width * channels >= 0) by (nonlinear_arith)
            requires
                width >= 0,
                channels >= 0,
        ;
    }
    let last_row_len: usize = width * channels;
    let min_len: usize = (height - 1) * rowstride + last_row_len;
    let len: usize = pixbuf.bytes.len();
    if len < min_len {
        return Err(PixelError::Truncated);
    }

    let mut rgba: Vec<u8> = Vec::new();
    let mut y: usize = 0;
    assert(0 * width * 4 == 0);
    while y < height
        invariant
            y <= height,
            width == pixbuf.width,
            height == pixbuf.height,
            width > 0,
            channels == pixbuf.n_channels,
            channels == 3 || channels == 4,
            rowstride == pixbuf.stride(),
            (height - 1) * rowstride + width * channels <= len,
            len == pixbuf.bytes@.len(),
            rgba@.len() == y * width * 4,
            forall|i: int| 0 <= i < rgba@.len() ==> rgba@[i] == pixbuf.rgba_at(i),
        decreases height - y,
    {
        proof {
            assert(y * rowstride <= (height - 1) * rowstride) by (nonlinear_arith)
                requires
                    y <= height - 1,
                    rowstride >= 0,
            ;
            assert(0 <= y * rowstride) by (nonlinear_arith)
                requires
                    0 <= y,
                    0 <= rowstride,
            ;
            assert(0 <= width * channels) by (nonlinear_arith)
                requires
                    0 <= width,
                    0 <= channels,
            ;
        }
        let row_start: usize = y * rowstride;
        let mut x: usize = 0;
        assert((y * width + 0) * 4 == y * width * 4) by (nonlinear_arith);
        while x < width
            invariant
                x <= width,
                y < height,
                width == pixbuf.width,
                width > 0,
                channels == pixbuf.n_channels,
                channels == 3 || channels == 4,
                row_start == y * pixbuf.stride(),
                row_start + width * channels <= len,
                len == pixbuf.bytes@.len(),
                rgba@.len() == (y * width + x) * 4,
                forall|i: int| 0 <= i < rgba@.len() ==> rgba@[i] == pixbuf.rgba_at(i),
            decreases width - x,
        {
            proof {
                assert(x * channels + channels <= width * channels) by (nonlinear_arith)
                    requires
                        x + 1 <= width,
                        channels >= 0,
                ;
                assert(0 <= x * channels) by (nonlinear_arith)
                    requires
                        0 <= x,
                        0 <= channels,
                ;
                lemma_pixel_index(width as int, x as int, y as int, 0);
                lemma_pixel_index(width as int, x as int, y as int, 1);
                lemma_pixel_index(width as int, x as int, y as int, 2);
                lemma_pixel_index(width as int, x as int, y as int, 3);
                assert((y * width + (x + 1)) * 4 == (y * width + x) * 4 + 4) by (nonlinear_arith);
            }
            let offset: usize = row_start + x * channels;
            rgba.push(pixbuf.bytes[offset]);
            rgba.push(pixbuf.bytes[offset + 1]);
            rgba.push(pixbuf.bytes[offset + 2]);
            rgba.push(
                if channels == 4 {
                    pixbuf.bytes[offset + 3]
                } else {
                    255
                },
            );
            x += 1;
        }
        assert((y + 1) * width * 4 == (y * width + width) * 4) by (nonlinear_arith);
        y += 1;
    }
    assert(height * width * 4 == pixbuf.width * pixbuf.height * 4) by (nonlinear_arith)
        requires
            height == pixbuf.height,
            width == pixbuf.width,
    ;
    assert(rgba@ =~= pixbuf.rgba());
    Ok(AppIconPixels { data: rgba, width: pixbuf.width, height: pixbuf.height })
}

/// Returns desktop-entry lookup keys for an app identifier with and without the `.desktop` suffix.
/// Lowercase lookup covers apps and desktop files that disagree only by case.
pub fn app_id_lookup_keys(app_id: &str) -> (keys: [String; 3])
    ensures
        keys[0]@ == app_id@,
        keys[1]@ == without_suffix(app_id@),
        keys[2]@ == lowercase(without_suffix(app_id@)),
{
    let base = trim_desktop_suffix(app_id);
    [app_id.to_owned(), base.to_owned(), to_lowercase(base)]
}

/// The sources by what they name.
pub open spec fn source_views(sources: Seq<IconSource>) -> Seq<Source> {
    sources.map_values(|source: IconSource| source@)
}

/// The same source is listed.
pub open spec fn lists(sources: Seq<Source>, source: Source) -> bool {
    exists|i: int| 0 <= i < sources.len() && same_source(#[trigger] sources[i], source)
}

/// The sources and one more, unless it is listed already.
pub open spec fn with_new_source(sources: Seq<Source>, source: Source) -> Seq<Source> {
    if lists(sources, source) {
        sources
    } else {
        sources.push(source)
    }
}

/// Appends an icon source while preserving first-match priority.
pub fn push_source(sources: &mut Vec<IconSource>, source: IconSource)
    ensures
        source_views(final(sources)@) == with_new_source(source_views(old(sources)@), source@),
{
    let mut i: usize = 0;
    while i < sources.len()
        invariant
            i <= sources.len(),
            *sources == *old(sources),
            forall|j: int| 0 <= j < i ==> !same_source(#[trigger] sources@[j]@, source@),
        decreases sources.len() - i,
    {
        if sources[i].is_same(&source) {
            assert(same_source(source_views(sources@)[i as int], source@));
            return ;
        }
        i += 1;
    }
    proof {
        let views = source_views(sources@);
        assert forall|j: int| 0 <= j < views.len() implies !same_source(#[trigger] views[j], source@)
            by {
            assert(views[j] == sources@[j]@);
        }
    }
    sources.push(source);
    assert(source_views(sources@) =~= source_views(old(sources)@).push(source@));
}

/// The sources and the one that the table has for a key, if any.
pub open spec fn with_indexed(
    sources: Seq<Source>,
    index: Map<Seq<char>, Source>,
    key: Seq<char>,
) -> Seq<Source> {
    if index.contains_key(key) {
        with_new_source(sources, index[key])
    } else {
        sources
    }
}

/// The sources that the table has for an app identifier.
pub open spec fn indexed_sources(index: Map<Seq<char>, Source>, app_id: Seq<char>) -> Seq<Source> {
    let base = without_suffix(app_id);
    with_indexed(
        with_indexed(with_indexed(Seq::empty(), index, app_id), index, base),
        index,
        lowercase(base),
    )
}

/// The sources for an app identifier: what the table has, then its names, as it is written, in
/// lower case, and its last component in lower case.
pub open spec fn sources_for(index: Map<Seq<char>, Source>, app_id: Seq<char>) -> Seq<Source> {
    let base = without_suffix(app_id);
    let lower = lowercase(base);
    with_new_source(
        with_new_source(
            with_new_source(indexed_sources(index, app_id), Source::Name(base)),
            Source::Name(lower),
        ),
        Source::Name(split(lower, '.').last()),
    )
}

fn push_indexed(sources: &mut Vec<IconSource>, index: &DesktopEntryIndex, key: &str)
    ensures
        source_views(final(sources)@) == with_indexed(
            source_views(old(sources)@),
            index@,
            key@,
        ),
{
    if let Some(source) = index.get(key) {
        push_source(sources, source.copy());
    }
}

fn last_component(s: &str) -> (last: String)
    ensures
        last@ == split(s@, '.').last(),
{
    let mut pieces = split_chars(&to_chars(s), '.');
    proof {
        lemma_some_piece(s@, '.');
    }
    let n: usize = pieces.len();
    assert(pieces@[n - 1]@ == split(s@, '.')[n - 1]);
    from_chars(&pieces[n - 1])
}

/// There is always a piece.
proof fn lemma_some_piece(s: Seq<char>, separator: char)
    ensures
        split(s, separator).len() > 0,
    decreases s.len(),
{
    if s.len() > 0 {
        lemma_some_piece(s.drop_last(), separator);
    }
}

/// Builds an ordered list of icon sources that are plausible for one app identifier.
pub fn icon_sources_for_app_id(index: &DesktopEntryIndex, app_id: &str) -> (sources: Vec<
    IconSource,
>)
    ensures
        source_views(sources@) == sources_for(index@, app_id@),
{
    let mut sources: Vec<IconSource> = Vec::new();
    assert(source_views(sources@) =~= Seq::empty());
    let keys = app_id_lookup_keys(app_id);
    push_indexed(&mut sources, index, keys[0].as_str());
    push_indexed(&mut sources, index, keys[1].as_str());
    push_indexed(&mut sources, index, keys[2].as_str());

    let app_id = trim_desktop_suffix(app_id);
    push_source(&mut sources, IconSource::Name(app_id.to_owned()));

    let lower = to_lowercase(app_id);
    let last = last_component(lower.as_str());
    push_source(&mut sources, IconSource::Name(lower));
    push_source(&mut sources, IconSource::Name(last));

    sources
}

/// No source is listed twice.
pub open spec fn distinct_sources(sources: Seq<Source>) -> bool {
    forall|i: int, j: int|
        0 <= i < j < sources.len() ==> !same_source(#[trigger] sources[i], #[trigger] sources[j])
}

/// No source is tried twice, and what the table has comes before what is made up from the
/// identifier.
pub proof fn sources_are_distinct(index: Map<Seq<char>, Source>, app_id: Seq<char>)
    ensures
        distinct_sources(sources_for(index, app_id)),
        indexed_sources(index, app_id).is_prefix_of(sources_for(index, app_id)),
        forall|i: int|
            0 <= i < indexed_sources(index, app_id).len() ==> index.values().contains(
                #[trigger] indexed_sources(index, app_id)[i],
            ),
{
    let base = without_suffix(app_id);
    let s1 = with_indexed(Seq::empty(), index, app_id);
    let s2 = with_indexed(s1, index, base);
    let s3 = with_indexed(s2, index, lowercase(base));
    assert(s3 == indexed_sources(index, app_id));
    assert forall|k: Seq<char>| index.contains_key(k) implies index.values().contains(
        #[trigger] index[k],
    ) by {
        assert(index.dom().contains(k));
    }
}

/// The raw identifier is always tried as a name.
pub proof fn identifier_is_tried(index: Map<Seq<char>, Source>, app_id: Seq<char>)
    ensures
        lists(sources_for(index, app_id), Source::Name(without_suffix(app_id))),
        lists(sources_for(index, app_id), Source::Name(lowercase(without_suffix(app_id)))),
{
    let base = without_suffix(app_id);
    let lower = lowercase(base);
    let s3 = indexed_sources(index, app_id);
    let s4 = with_new_source(s3, Source::Name(base));
    let s5 = with_new_source(s4, Source::Name(lower));
    lemma_listed(s3, Source::Name(base));
    lemma_listed(s4, Source::Name(lower));
    lemma_stays_listed(s4, Source::Name(lower), Source::Name(base));
    lemma_stays_listed(s5, Source::Name(split(lower, '.').last()), Source::Name(base));
    lemma_stays_listed(s5, Source::Name(split(lower, '.').last()), Source::Name(lower));
}

proof fn lemma_listed(sources: Seq<Source>, source: Source)
    ensures
        lists(with_new_source(sources, source), source),
{
    if !lists(sources, source) {
        let more = sources.push(source);
        assert(same_source(more[sources.len() as int], source));
    }
}

proof fn lemma_stays_listed(sources: Seq<Source>, added: Source, source: Source)
    requires
        lists(sources, source),
    ensures
        lists(with_new_source(sources, added), source),
{
    let i = choose|i: int| 0 <= i < sources.len() && same_source(#[trigger] sources[i], source);
    assert(same_source(with_new_source(sources, added)[i], source));
}

/// `outcome` came of loading the file at a path.
pub open spec fn is_load_outcome<L: Fn(&FilePath, i32) -> Option<AppIconPixels>>(
    load: L,
    path: Seq<u8>,
    physical_size: i32,
    outcome: Option<AppIconPixels>,
) -> bool {
    exists|p: FilePath| p@ == path && #[trigger] load.ensures((&p, physical_size), outcome)
}

/// `paths` are the files to try for a source: the file itself, or those that were answered for the
/// name.
pub open spec fn are_paths_of<C: Fn(&String, i32) -> Vec<FilePath>>(
    candidates: C,
    source: Source,
    physical_size: i32,
    paths: Seq<FilePath>,
) -> bool {
    match source {
        Source::File(path) => paths.len() == 1 && paths[0]@ == path,
        Source::Name(name) => exists|n: String, answer: Vec<FilePath>|
            n@ == name && answer@ == paths && #[trigger] candidates.ensures(
                (&n, physical_size),
                answer,
            ),
    }
}

/// The first `n` files could not be loaded.
pub open spec fn have_failed<L: Fn(&FilePath, i32) -> Option<AppIconPixels>>(
    load: L,
    paths: Seq<FilePath>,
    physical_size: i32,
    n: int,
) -> bool {
    forall|i: int|
        0 <= i < n ==> is_load_outcome(load, (#[trigger] paths[i])@, physical_size, None)
}

/// No file of a source could be loaded.
pub open spec fn source_failed<
    C: Fn(&String, i32) -> Vec<FilePath>,
    L: Fn(&FilePath, i32) -> Option<AppIconPixels>,
>(candidates: C, load: L, source: Source, physical_size: i32) -> bool {
    exists|paths: Seq<FilePath>| #[trigger]
        are_paths_of(candidates, source, physical_size, paths) && have_failed(
            load,
            paths,
            physical_size,
            paths.len() as int,
        )
}

/// `pixels` are those of the first file of a source that could be loaded.
pub open spec fn source_loaded<
    C: Fn(&String, i32) -> Vec<FilePath>,
    L: Fn(&FilePath, i32) -> Option<AppIconPixels>,
>(
    candidates: C,
    load: L,
    source: Source,
    physical_size: i32,
    pixels: AppIconPixels,
) -> bool {
    exists|paths: Seq<FilePath>, i: int|
        #![trigger are_paths_of(candidates, source, physical_size, paths), have_failed(load, paths, physical_size, i)]
        are_paths_of(candidates, source, physical_size, paths) && 0 <= i < paths.len()
            && have_failed(load, paths, physical_size, i) && is_load_outcome(
            load,
            paths[i]@,
            physical_size,
            Some(pixels),
        )
}

/// `outcome` is the first icon among the sources that could be loaded.
pub open spec fn is_first_loaded<
    C: Fn(&String, i32) -> Vec<FilePath>,
    L: Fn(&FilePath, i32) -> Option<AppIconPixels>,
>(
    candidates: C,
    load: L,
    sources: Seq<Source>,
    physical_size: i32,
    outcome: Option<AppIconPixels>,
) -> bool {
    match outcome {
        Some(pixels) => exists|k: int|
            0 <= k < sources.len() && source_loaded(
                candidates,
                load,
                #[trigger] sources[k],
                physical_size,
                pixels,
            ) && forall|j: int|
                0 <= j < k ==> source_failed(candidates, load, #[trigger] sources[j], physical_size),
        None => forall|j: int|
            0 <= j < sources.len() ==> source_failed(
                candidates,
                load,
                #[trigger] sources[j],
                physical_size,
            ),
    }
}

fn load_first<L: Fn(&FilePath, i32) -> Option<AppIconPixels>>(
    load: &L,
    paths: &Vec<FilePath>,
    physical_size: i32,
) -> (outcome: Option<(usize, AppIconPixels)>)
    requires
        forall|p: &FilePath, n: i32| #[trigger] load.requires((p, n)),
    ensures
        match outcome {
            Some((i, pixels)) => i < paths@.len() && have_failed(
                *load,
                paths@,
                physical_size,
                i as int,
            ) && is_load_outcome(*load, paths@[i as int]@, physical_size, Some(pixels)),
            None => have_failed(*load, paths@, physical_size, paths@.len() as int),
        },
{
    let mut i: usize = 0;
    while i < paths.len()
        invariant
            i <= paths.len(),
            have_failed(*load, paths@, physical_size, i as int),
            forall|p: &FilePath, n: i32| #[trigger] load.requires((p, n)),
        decreases paths.len() - i,
    {
        let outcome = load(&paths[i], physical_size);
        assert(is_load_outcome(*load, paths@[i as int]@, physical_size, outcome));
        if let Some(pixels) = outcome {
            return Some((i, pixels));
        }
        i += 1;
    }
    None
}

/// Resolves and decodes the first usable icon for an app identifier.
///
/// `candidates` finds the files for the name of an icon, and `load` decodes a file.
pub fn load_app_icon_pixels<
    C: Fn(&String, i32) -> Vec<FilePath>,
    L: Fn(&FilePath, i32) -> Option<AppIconPixels>,
>(
    index: &DesktopEntryIndex,
    app_id: &str,
    physical_size: i32,
    candidates: C,
    load: L,
) -> (outcome: Option<AppIconPixels>)
    requires
        forall|p: &FilePath, n: i32| #[trigger] load.requires((p, n)),
        forall|name: &String, n: i32| #[trigger] candidates.requires((name, n)),
    ensures
        is_first_loaded(
            candidates,
            load,
            sources_for(index@, app_id@),
            physical_size,
            outcome,
        ),
{
    let sources = icon_sources_for_app_id(index, app_id);
    let ghost all = sources_for(index@, app_id@);
    let mut i: usize = 0;
    while i < sources.len()
        invariant
            i <= sources.len(),
            all == sources_for(index@, app_id@),
            source_views(sources@) == all,
            forall|j: int|
                0 <= j < i ==> source_failed(candidates, load, #[trigger] all[j], physical_size),
            forall|p: &FilePath, n: i32| #[trigger] load.requires((p, n)),
            forall|name: &String, n: i32| #[trigger] candidates.requires((name, n)),
        decreases sources.len() - i,
    {
        assert(all[i as int] == sources@[i as int]@);
        let paths: Vec<FilePath> = match &sources[i] {
            IconSource::File(path) => {
                let mut paths: Vec<FilePath> = Vec::new();
                paths.push(path.copy());
                paths
            },
            IconSource::Name(name) => candidates(name, physical_size),
        };
        assert(are_paths_of(candidates, all[i as int], physical_size, paths@));
        let outcome = load_first(&load, &paths, physical_size);
        if let Some((k, pixels)) = outcome {
            assert(source_loaded(candidates, load, all[i as int], physical_size, pixels));
            return Some(pixels);
        }
        i += 1;
    }
    None
}

/// What is known of an icon: its pixels, or that there are none.
#[derive(Debug)]
pub struct CachedIcon {
    /// The app identifier.
    pub app_id: String,
    /// The size of the icon.
    pub physical_size: i32,
    /// The pixels, if there is an icon.
    pub pixels: Option<AppIconPixels>,
}

/// The icons that were looked up. Lookups that found nothing are kept too.
#[derive(Debug)]
pub struct PixelCache {
    icons: Vec<CachedIcon>,
}

impl View for PixelCache {
    type V = Seq<CachedIcon>;

    closed spec fn view(&self) -> Seq<CachedIcon> {
        self.icons@
    }
}

/// The icon at `i` is that of the app identifier at the size.
pub open spec fn is_icon_of(
    icons: Seq<CachedIcon>,
    i: int,
    app_id: Seq<char>,
    physical_size: i32,
) -> bool {
    0 <= i < icons.len() && icons[i].app_id@ == app_id && icons[i].physical_size == physical_size
}

/// No icon is kept twice.
pub open spec fn distinct_icons(icons: Seq<CachedIcon>) -> bool {
    forall|i: int, j: int|
        0 <= i < j < icons.len() ==> !((#[trigger] icons[i]).app_id@ == (
        #[trigger] icons[j]).app_id@ && icons[i].physical_size == icons[j].physical_size)
}

/// The icon of the app identifier at the size is kept.
pub open spec fn is_kept(icons: Seq<CachedIcon>, app_id: Seq<char>, physical_size: i32) -> bool {
    exists|i: int| is_icon_of(icons, i, app_id, physical_size)
}

/// `pixels` are those of an icon, from the cache if they are kept there, else from `load`, and
/// kept from then on.
pub open spec fn is_looked_up<F: FnOnce() -> Option<AppIconPixels>>(
    before: Seq<CachedIcon>,
    app_id: Seq<char>,
    physical_size: i32,
    load: F,
    after: Seq<CachedIcon>,
    pixels: Option<AppIconPixels>,
) -> bool {
    if is_kept(before, app_id, physical_size) {
        after == before && exists|i: int| #[trigger]
            is_icon_of(before, i, app_id, physical_size) && pixels == before[i].pixels
    } else {
        &&& after.len() == before.len() + 1
        &&& after.drop_last() == before
        &&& after.last().app_id@ == app_id
        &&& after.last().physical_size == physical_size
        &&& after.last().pixels == pixels
        &&& load.ensures((), pixels)
    }
}

/// A second lookup gives what the first one gave, without loading, also where there was no icon.
pub proof fn second_lookup_is_cached<
    F: FnOnce() -> Option<AppIconPixels>,
    G: FnOnce() -> Option<AppIconPixels>,
>(
    start: Seq<CachedIcon>,
    app_id: Seq<char>,
    physical_size: i32,
    load: F,
    middle: Seq<CachedIcon>,
    first: Option<AppIconPixels>,
    load_again: G,
    end: Seq<CachedIcon>,
    second: Option<AppIconPixels>,
)
    requires
        distinct_icons(start),
        is_looked_up(start, app_id, physical_size, load, middle, first),
        is_looked_up(middle, app_id, physical_size, load_again, end, second),
    ensures
        is_kept(middle, app_id, physical_size),
        end == middle,
        second == first,
{
    if !is_kept(start, app_id, physical_size) {
        assert(is_icon_of(middle, middle.len() - 1, app_id, physical_size));
        let i = choose|i: int| #[trigger]
            is_icon_of(middle, i, app_id, physical_size) && second == middle[i].pixels;
        if i < start.len() {
            assert(middle.drop_last()[i] == start[i]);
            assert(is_icon_of(start, i, app_id, physical_size));
        }
    } else {
        let i = choose|i: int| #[trigger]
            is_icon_of(middle, i, app_id, physical_size) && second == middle[i].pixels;
        let j = choose|j: int| #[trigger]
            is_icon_of(middle, j, app_id, physical_size) && first == middle[j].pixels;
        assert(i == j);
    }
}

/// Other icons are not touched by a lookup.
pub proof fn lookups_keep_other_icons<F: FnOnce() -> Option<AppIconPixels>>(
    before: Seq<CachedIcon>,
    app_id: Seq<char>,
    physical_size: i32,
    load: F,
    after: Seq<CachedIcon>,
    pixels: Option<AppIconPixels>,
    i: int,
)
    requires
        is_looked_up(before, app_id, physical_size, load, after, pixels),
        0 <= i < before.len(),
    ensures
        i < after.len(),
        after[i] == before[i],
{
    if !is_kept(before, app_id, physical_size) {
        assert(after.drop_last()[i] == after[i]);
    }
}

impl PixelCache {
    /// No icons.
    pub fn new() -> (cache: PixelCache)
        ensures
            cache@ == Seq::<CachedIcon>::empty(),
    {
        PixelCache { icons: Vec::new() }
    }
}

/// Returns decoded pixels for an app identifier at a physical icon size, looking them up only the
/// first time.
pub fn app_icon_pixels<'a, F: FnOnce() -> Option<AppIconPixels>>(
    cache: &'a mut PixelCache,
    app_id: &str,
    physical_size: i32,
    load: F,
) -> (pixels: &'a Option<AppIconPixels>)
    requires
        load.requires(()),
    ensures
        is_looked_up(old(cache)@, app_id@, physical_size, load, final(cache)@, *pixels),
        distinct_icons(old(cache)@) ==> distinct_icons(final(cache)@),
{
    let key = app_id.to_owned();
    let mut i: usize = 0;
    while i < cache.icons.len()
        invariant
            i <= cache.icons.len(),
            key@ == app_id@,
            *cache == *old(cache),
            forall|j: int| 0 <= j < i ==> !is_icon_of(cache@, j, app_id@, physical_size),
        decreases cache.icons.len() - i,
    {
        if cache.icons[i].app_id == key && cache.icons[i].physical_size == physical_size {
            assert(is_icon_of(cache@, i as int, app_id@, physical_size));
            return &cache.icons[i].pixels;
        }
        i += 1;
    }

    let pixels = load();
    let ghost before = cache@;
    cache.icons.push(CachedIcon { app_id: key, physical_size, pixels });
    proof {
        assert(cache@.drop_last() =~= before);
        assert forall|j: int| 0 <= j < before.len() implies !((#[trigger] before[j]).app_id@
            == app_id@ && before[j].physical_size == physical_size) by {
            assert(!is_icon_of(before, j, app_id@, physical_size));
        }
    }
    &cache.icons[i].pixels
}

/// The texture of one app icon at one scale. A lookup that found nothing is kept too.
#[derive(Debug)]
pub struct AppIconTexture<T> {
    app_id: Option<String>,
    physical_size: i32,
    scale: Number,
    texture: Option<Option<T>>,
}

/// `size` is that of an icon in physical pixels, at least one.
pub open spec fn is_icon_size<A: Arithmetic>(
    a: &A,
    logical_size: Number,
    scale: Number,
    size: int,
) -> bool {
    exists|product: Number, rounded: Number, whole: i64|
        #![trigger is_product(a, logical_size, scale, product), is_nearest(a, product, rounded), is_whole(a, rounded.greater(one()), whole)]
        is_product(a, logical_size, scale, product) && is_nearest(a, product, rounded) && is_whole(
            a,
            rounded.greater(one()),
            whole,
        ) && size == saturated(whole)
}

/// The identifier as a text.
pub open spec fn id_view(app_id: Option<String>) -> Option<Seq<char>> {
    match app_id {
        Some(app_id) => Some(app_id@),
        None => None,
    }
}

fn icon_size<A: Arithmetic>(a: &A, logical_size: Number, scale: Number) -> (size: i32)
    ensures
        is_icon_size(a, logical_size, scale, size as int),
{
    let product = a.product(logical_size, scale);
    let rounded = a.nearest(product);
    let whole: i64 = a.whole(rounded.max(Number::new(ONE)));
    assert(is_whole(a, rounded.greater(one()), whole));
    saturate(whole)
}

impl<T> Default for AppIconTexture<T> {
    /// Nothing was looked up yet.
    fn default() -> (texture: AppIconTexture<T>)
        ensures
            texture.spec_app_id() is None,
            texture.spec_physical_size() == 0,
            texture.spec_scale() == (Number { bits: 0 }),
            texture.spec_texture() is None,
    {
        AppIconTexture::new()
    }
}

impl<T> AppIconTexture<T> {
    /// The app identifier.
    pub closed spec fn spec_app_id(self) -> Option<Seq<char>> {
        id_view(self.app_id)
    }

    /// The size of the icon.
    pub closed spec fn spec_physical_size(self) -> i32 {
        self.physical_size
    }

    /// The scale of the output.
    pub closed spec fn spec_scale(self) -> Number {
        self.scale
    }

    /// What was looked up: nothing yet, no icon, or a texture.
    pub closed spec fn spec_texture(self) -> Option<Option<T>> {
        self.texture
    }

    /// What was looked up is that of the app identifier, size and scale.
    pub open spec fn is_current(self, app_id: Option<Seq<char>>, size: int, scale: Number) -> bool {
        self.spec_app_id() == app_id && self.spec_physical_size() == size && self.spec_scale().same(
            scale,
        )
    }

    /// The texture that was looked up, if any.
    pub open spec fn last_texture(self) -> Option<T> {
        match self.spec_texture() {
            Some(Some(texture)) => Some(texture),
            _ => None,
        }
    }

    /// The texture that was looked up, if any, while there is an app identifier.
    pub open spec fn texture_of_app(self) -> Option<T> {
        match (self.spec_app_id(), self.spec_texture()) {
            (Some(_), Some(Some(texture))) => Some(texture),
            _ => None,
        }
    }

    /// What was looked up for the app identifier, size and scale, if anything.
    pub open spec fn looked_up(
        self,
        app_id: Option<Seq<char>>,
        size: int,
        scale: Number,
    ) -> Option<Option<T>> {
        if self.is_current(app_id, size, scale) {
            self.spec_texture()
        } else {
            None
        }
    }

    /// Nothing was looked up yet.
    pub fn new() -> (texture: AppIconTexture<T>)
        ensures
            texture.spec_app_id() is None,
            texture.spec_physical_size() == 0,
            texture.spec_scale() == (Number { bits: 0 }),
            texture.spec_texture() is None,
    {
        AppIconTexture { app_id: None, physical_size: 0, scale: Number::zero(), texture: None }
    }

    fn is_for(&self, app_id: &Option<String>, physical_size: i32, scale: Number) -> (current: bool)
        ensures
            current == self.is_current(id_view(*app_id), physical_size as int, scale),
    {
        let same_app = match (&self.app_id, app_id) {
            (Some(a), Some(b)) => *a == *b,
            (None, None) => true,
            _ => false,
        };
        same_app && self.physical_size == physical_size && self.scale.is_same(scale)
    }

    /// Returns the texture for the current app identifier and requested logical size.
    ///
    /// What was looked up is dropped when the app, the physical icon size, or the output scale
    /// changes. `load` makes the texture of an app identifier at a physical size.
    pub fn get<A: Arithmetic, L: FnOnce(&String, i32) -> Option<T>>(
        &mut self,
        a: &A,
        app_id: Option<String>,
        logical_size: Number,
        scale: Number,
        load: L,
    ) -> (texture: Option<&T>)
        requires
            forall|id: &String, n: i32| #[trigger] load.requires((id, n)),
        ensures
            exists|size: int| #[trigger]
                is_icon_size(a, logical_size, scale, size) && is_texture_got(
                    *old(self),
                    app_id,
                    size,
                    scale,
                    load,
                    *final(self),
                ),
            (match texture {
                Some(texture) => Some(*texture),
                None => None,
            }) == final(self).texture_of_app(),
    {
        let physical_size = icon_size(a, logical_size, scale);
        let ghost before = *self;

        if !self.is_for(&app_id, physical_size, scale) {
            self.texture = None;
            self.app_id = app_id;
            self.physical_size = physical_size;
            self.scale = scale;
        }
        assert(self.spec_texture() == before.looked_up(
            id_view(app_id),
            physical_size as int,
            scale,
        ));

        if let Some(id) = &self.app_id {
            if self.texture.is_none() {
                let loaded = load(id, physical_size);
                self.texture = Some(loaded);
            }
        }
        assert(is_texture_got(before, app_id, physical_size as int, scale, load, *self));
        match (&self.app_id, &self.texture) {
            (Some(_), Some(Some(texture))) => Some(texture),
            _ => None,
        }
    }

    /// Returns the texture that was looked up, if any, without a new lookup.
    pub fn get_stale(&self) -> (texture: Option<&T>)
        ensures
            (match texture {
                Some(texture) => Some(*texture),
                None => None,
            }) == self.last_texture(),
    {
        match &self.texture {
            Some(Some(texture)) => Some(texture),
            _ => None,
        }
    }
}

/// What getting a texture does: it is looked up where that was not done before for the app
/// identifier, size and scale. Without an app identifier there is nothing to look up.
pub open spec fn is_texture_got<T, L: FnOnce(&String, i32) -> Option<T>>(
    before: AppIconTexture<T>,
    app_id: Option<String>,
    size: int,
    scale: Number,
    load: L,
    after: AppIconTexture<T>,
) -> bool {
    let id = id_view(app_id);
    &&& after.spec_app_id() == id
    &&& after.spec_physical_size() == size
    &&& after.spec_scale() == if before.is_current(id, size, scale) {
        before.spec_scale()
    } else {
        scale
    }
    &&& match (app_id, before.looked_up(id, size, scale)) {
        (Some(_), None) => after.spec_texture() is Some && is_texture_loaded(
            load,
            id->0,
            size,
            after.spec_texture()->0,
        ),
        (_, known) => after.spec_texture() == known,
    }
}

/// `texture` came of looking up an app identifier.
pub open spec fn is_texture_loaded<T, L: FnOnce(&String, i32) -> Option<T>>(
    load: L,
    id: Seq<char>,
    size: int,
    texture: Option<T>,
) -> bool {
    exists|s: String, n: i32|
        s@ == id && n == size && #[trigger] load.ensures((&s, n), texture)
}

/// Getting a texture again, with nothing changed, looks nothing up: a missing icon is not looked
/// up on every frame.
pub proof fn unchanged_texture_is_kept<
    T,
    L: FnOnce(&String, i32) -> Option<T>,
    M: FnOnce(&String, i32) -> Option<T>,
>(
    start: AppIconTexture<T>,
    app_id: Option<String>,
    size: int,
    scale: Number,
    load: L,
    middle: AppIconTexture<T>,
    load_again: M,
    end: AppIconTexture<T>,
)
    requires
        !scale.nan(),
        is_texture_got(start, app_id, size, scale, load, middle),
        is_texture_got(middle, app_id, size, scale, load_again, end),
    ensures
        end.spec_texture() == middle.spec_texture(),
        end.spec_app_id() == middle.spec_app_id(),
        end.spec_physical_size() == middle.spec_physical_size(),
        end.spec_scale() == middle.spec_scale(),
{
}

/// Pixels are packed row by row, and images without alpha are opaque.
pub proof fn pixels_are_packed(pixbuf: Pixbuf, x: int, y: int, k: int)
    requires
        pixbuf.form_error() is None,
        0 <= x < pixbuf.width,
        0 <= y < pixbuf.height,
        0 <= k < 4,
    ensures
        pixbuf.rgba().len() == pixbuf.width * pixbuf.height * 4,
        pixbuf.rgba()[(y * pixbuf.width + x) * 4 + k] == pixbuf.channel(x, y, k),
        pixbuf.n_channels == 3 ==> pixbuf.rgba()[(y * pixbuf.width + x) * 4 + 3] == 255,
{
    let w = pixbuf.width as int;
    let h = pixbuf.height as int;
    lemma_pixel_index(w, x, y, k);
    lemma_pixel_index(w, x, y, 3);
    assert(0 <= w * h * 4) by (nonlinear_arith)
        requires
            0 <= w,
            0 <= h,
    ;
    assert(0 <= (y * w + x) * 4 && (y * w + x) * 4 + 3 < w * h * 4) by (nonlinear_arith)
        requires
            0 <= x < w,
            0 <= y < h,
    ;
}

} // verus!
