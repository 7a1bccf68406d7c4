//! The geometry of one picture-in-picture thumbnail.
use crate::geometry::{is_far_corner, Point, Rectangle, ResizeEdge, Size};
use crate::number::{
    is_difference, is_product, is_quotient, is_sum, Arithmetic, Number, ONE, TWO,
};
use crate::window::MappedId;
use vstd::prelude::*;

verus! {

/// Side of the close button: `24`.
pub const CLOSE_BUTTON_SIZE: u64 = 0x4038_0000_0000_0000;

/// The longest edge does not get shorter than this: `96`.
pub const MIN_PIP_LONGEST_EDGE: u64 = 0x4058_0000_0000_0000;

/// Distance of a new thumbnail from the edges of the output: `16`.
pub const MARGIN: u64 = 0x4030_0000_0000_0000;

/// Share of the output's width that a new thumbnail takes: `0.25`.
pub const OUTPUT_FRACTION: u64 = 0x3fd0_0000_0000_0000;

/// Side of the area in a corner that starts a resize: `20`.
pub const RESIZE_CORNER_SIZE: u64 = 0x4034_0000_0000_0000;

/// The smallest scale: `0.001`.
pub const LEAST_SCALE: u64 = 0x3f50_624d_d2f1_a9fc;

/// The bits of `3`.
pub const THREE: u64 = 0x4008_0000_0000_0000;

/// Identifies a thumbnail for as long as the manager lives.
pub type PipId = u64;

/// Identifies an output.
pub type OutputId = u64;

/// A thumbnail that mirrors one window on one output.
#[derive(Clone, Copy, Debug)]
pub struct PipThumbnail {
    /// Stable identifier.
    pub id: PipId,
    /// The mirrored window.
    pub source_id: MappedId,
    /// The output it is shown on.
    pub output: OutputId,
    /// The upper-left corner in coordinates of the output.
    pub position: Point,
    /// The size on screen.
    pub size: Size,
    /// The size of the mirrored window.
    pub source_size: Size,
    /// Whether the pointer is over it.
    pub is_hovered: bool,
}

/// What knows the outputs.
///
/// The method carries no contract: an output may change its size at any time.
pub trait Outputs {
    /// The logical size of an output.
    fn output_size(&self, output: OutputId) -> Size;
}

/// `size` was answered for the size of the output.
#[verifier::inline]
pub open spec fn is_output_size<H: Outputs>(h: &H, output: OutputId, size: Size) -> bool {
    call_ensures(H::output_size, (h, output), size)
}

/// The value `0`.
pub open spec fn zero() -> Number {
    Number { bits: 0 }
}

/// The value `1`.
pub open spec fn one() -> Number {
    Number { bits: ONE }
}

/// The size has no area: a side is zero or negative.
pub open spec fn degenerate(size: Size) -> bool {
    size.w.le(zero()) || size.h.le(zero())
}

/// The size with each side at least `1`.
pub open spec fn at_least_one(size: Size) -> Size {
    Size { w: one().greater(size.w), h: one().greater(size.h) }
}

/// The source size if it has an area, else the fallback.
pub open spec fn normalized(source: Size, fallback: Size) -> Size {
    if zero().lt(source.w) && zero().lt(source.h) {
        source
    } else {
        at_least_one(fallback)
    }
}

/// `scale` is the largest one at which `source` fits into `bounds`, but no less than the least
/// scale.
pub open spec fn is_fit_scale<A: Arithmetic>(
    a: &A,
    source: Size,
    bounds: Size,
    scale: Number,
) -> bool {
    exists|x: Number, y: Number|
        #![trigger is_quotient(a, bounds.w, source.w, x), is_quotient(a, bounds.h, source.h, y)]
        is_quotient(a, bounds.w, source.w, x) && is_quotient(a, bounds.h, source.h, y) && scale
            == x.lesser(y).greater(Number { bits: LEAST_SCALE })
}

/// `scaled` is `size` times `scale`.
pub open spec fn is_scaled<A: Arithmetic>(a: &A, size: Size, scale: Number, scaled: Size) -> bool {
    is_product(a, size.w, scale, scaled.w) && is_product(a, size.h, scale, scaled.h)
}

/// `fitted` is `source` scaled to fit into `bounds`, or the bounds themselves where the source has
/// no area.
pub open spec fn is_fit<A: Arithmetic>(a: &A, source: Size, bounds: Size, fitted: Size) -> bool {
    if degenerate(source) {
        fitted == at_least_one(bounds)
    } else {
        exists|scale: Number| #[trigger]
            is_fit_scale(a, source, bounds, scale) && is_scaled(a, source, scale, fitted)
    }
}

/// The height of `size` goes with its width as that of `source` does.
pub open spec fn is_proportional<A: Arithmetic>(a: &A, source: Size, size: Size) -> bool {
    exists|scale: Number| #[trigger]
        is_quotient(a, size.w, source.w, scale) && is_product(a, source.h, scale, size.h)
}

/// The width of `size` goes with its height as that of `source` does.
pub open spec fn is_proportional_width<A: Arithmetic>(a: &A, source: Size, size: Size) -> bool {
    exists|scale: Number| #[trigger]
        is_quotient(a, size.h, source.h, scale) && is_product(a, source.w, scale, size.w)
}

/// `size` is `wide`, or where that is higher than `most`, as high as that, in the proportions of
/// the source.
pub open spec fn is_lowered<A: Arithmetic>(
    a: &A,
    source: Size,
    wide: Size,
    most: Number,
    size: Size,
) -> bool {
    if most.lt(wide.h) {
        size.h == most && is_proportional_width(a, source, size)
    } else {
        size == wide
    }
}

/// `size` is that of a new thumbnail: a fraction of the output's width, and a height that keeps the
/// proportions of the source. Where that height leaves no margin on the output, it is scaled down
/// so that it does. Where the source has no area, it is that fraction of the output.
pub open spec fn is_thumbnail_size<A: Arithmetic>(
    a: &A,
    source: Size,
    output: Size,
    size: Size,
) -> bool {
    let fraction = Number { bits: OUTPUT_FRACTION };
    if degenerate(source) {
        exists|part: Size| #[trigger]
            is_scaled(a, output, fraction, part) && size == at_least_one(part)
    } else {
        exists|w: Number, rest: Number, wide: Size|
            #![trigger is_product(a, output.w, fraction, w), is_difference(a, output.h, Number { bits: MARGIN }, rest), is_proportional(a, source, wide)]
            is_product(a, output.w, fraction, w) && is_difference(
                a,
                output.h,
                Number { bits: MARGIN },
                rest,
            ) && is_proportional(a, source, wide) && wide.w == one().greater(w) && is_lowered(
                a,
                source,
                wide,
                one().greater(rest),
                size,
            )
    }
}

/// `scale` is the one at which the longest edge of the source gets its minimal length.
pub open spec fn is_min_thumbnail_scale<A: Arithmetic>(
    a: &A,
    source: Size,
    scale: Number,
) -> bool {
    is_quotient(
        a,
        Number { bits: MIN_PIP_LONGEST_EDGE },
        source.w.greater(source.h).greater(one()),
        scale,
    )
}

/// The source scaled by a product per side.
pub fn upscale<A: Arithmetic>(a: &A, size: Size, scale: Number) -> (scaled: Size)
    ensures
        is_scaled(a, size, scale, scaled),
{
    Size { w: a.product(size.w, scale), h: a.product(size.h, scale) }
}

/// The size of a new thumbnail of a source on an output.
pub fn thumbnail_size<A: Arithmetic>(a: &A, source_size: Size, output_size: Size) -> (size: Size)
    ensures
        is_thumbnail_size(a, source_size, output_size, size),
{
    let zero = Number::zero();
    let one = Number::new(ONE);
    let fraction = Number::new(OUTPUT_FRACTION);
    if source_size.w.is_le(zero) || source_size.h.is_le(zero) {
        let part = upscale(a, output_size, fraction);
        return Size::new(one.max(part.w), one.max(part.h));
    }
    let w = one.max(a.product(output_size.w, fraction));
    let scale = a.quotient(w, source_size.w);
    let wide = Size::new(w, a.product(source_size.h, scale));
    assert(is_proportional(a, source_size, wide));
    let most = one.max(a.difference(output_size.h, Number::new(MARGIN)));
    if most.is_lt(wide.h) {
        let scale = a.quotient(most, source_size.h);
        Size::new(a.product(source_size.w, scale), most)
    } else {
        wide
    }
}

/// The source scaled to fit into a box, keeping its proportions.
pub fn fit_into_box<A: Arithmetic>(a: &A, source_size: Size, max_box: Size) -> (size: Size)
    ensures
        is_fit(a, source_size, max_box, size),
{
    let zero = Number::zero();
    let one = Number::new(ONE);
    if source_size.w.is_le(zero) || source_size.h.is_le(zero) {
        return Size::new(one.max(max_box.w), one.max(max_box.h));
    }
    let scale = fit_scale(a, source_size, max_box);
    upscale(a, source_size, scale)
}

/// The scale at which the source fits into a box.
fn fit_scale<A: Arithmetic>(a: &A, source_size: Size, max_box: Size) -> (scale: Number)
    ensures
        is_fit_scale(a, source_size, max_box, scale),
        !scale.nan(),
{
    let x = a.quotient(max_box.w, source_size.w);
    let y = a.quotient(max_box.h, source_size.h);
    x.min(y).max(Number::new(LEAST_SCALE))
}

/// The source size if it has an area, else the fallback with sides of at least `1`.
pub fn normalize_source_size(source_size: Size, fallback: Size) -> (size: Size)
    ensures
        size == normalized(source_size, fallback),
{
    let zero = Number::zero();
    let one = Number::new(ONE);
    if zero.is_lt(source_size.w) && zero.is_lt(source_size.h) {
        source_size
    } else {
        Size::new(one.max(fallback.w), one.max(fallback.h))
    }
}

/// The scale at which a source, or a unit square in its stead, fits into a box.
pub fn scale_to_fit<A: Arithmetic>(a: &A, source_size: Size, max_box: Size) -> (scale: Number)
    ensures
        is_fit_scale(
            a,
            normalized(source_size, Size { w: one(), h: one() }),
            max_box,
            scale,
        ),
        !scale.nan(),
{
    let one = Number::new(ONE);
    let source_size = normalize_source_size(source_size, Size::new(one, one));
    fit_scale(a, source_size, max_box)
}

/// The scale at which a source is shown at a size.
pub fn current_scale<A: Arithmetic>(a: &A, source_size: Size, size: Size) -> (scale: Number)
    ensures
        is_fit_scale(a, normalized(source_size, size), size, scale),
        !scale.nan(),
{
    let source_size = normalize_source_size(source_size, size);
    fit_scale(a, source_size, size)
}

/// The scale at which the longest edge of a source gets its minimal length.
pub fn min_thumbnail_scale<A: Arithmetic>(a: &A, source_size: Size) -> (scale: Number)
    ensures
        is_min_thumbnail_scale(a, source_size, scale),
{
    let longest = source_size.w.max(source_size.h).max(Number::new(ONE));
    a.quotient(Number::new(MIN_PIP_LONGEST_EDGE), longest)
}

/// What hit testing a corner measures.
pub ghost struct CornerMeasure {
    /// The pointer relative to the thumbnail.
    pub offset: Point,
    /// The far corner of an area of the thumbnail's size at the origin.
    pub far: Point,
    /// A third of the size.
    pub third: Size,
    /// Where the far corner areas begin.
    pub inner: Size,
}

/// The length of a corner area along a side a third of which is given.
pub open spec fn corner_length(third: Number) -> Number {
    one().greater(third.lesser(Number { bits: RESIZE_CORNER_SIZE }))
}

/// `m` was measured of the thumbnail and the pointer.
pub open spec fn is_corner_measure<A: Arithmetic>(
    a: &A,
    thumb: PipThumbnail,
    pos: Point,
    m: CornerMeasure,
) -> bool {
    &&& is_difference(a, pos.x, thumb.position.x, m.offset.x)
    &&& is_difference(a, pos.y, thumb.position.y, m.offset.y)
    &&& is_far_corner(
        a,
        Rectangle { loc: Point { x: zero(), y: zero() }, size: thumb.size },
        m.far,
    )
    &&& is_quotient(a, thumb.size.w, Number { bits: THREE }, m.third.w)
    &&& is_quotient(a, thumb.size.h, Number { bits: THREE }, m.third.h)
    &&& is_difference(a, thumb.size.w, corner_length(m.third.w), m.inner.w)
    &&& is_difference(a, thumb.size.h, corner_length(m.third.h), m.inner.h)
}

impl CornerMeasure {
    /// The corner that was hit: the pointer is in exactly one corner area along each axis.
    pub open spec fn corner(self) -> Option<ResizeEdge> {
        let left = self.offset.x.le(corner_length(self.third.w));
        let right = self.inner.w.le(self.offset.x);
        let top = self.offset.y.le(corner_length(self.third.h));
        let bottom = self.inner.h.le(self.offset.y);
        if self.offset.within(Point { x: zero(), y: zero() }, self.far) && left != right && top
            != bottom {
            Some(ResizeEdge { left, right, top, bottom })
        } else {
            None
        }
    }
}

/// `corner` is the corner area of the thumbnail that the pointer is in.
pub open spec fn is_resize_corner<A: Arithmetic>(
    a: &A,
    thumb: PipThumbnail,
    pos: Point,
    corner: Option<ResizeEdge>,
) -> bool {
    exists|m: CornerMeasure| #[trigger]
        is_corner_measure(a, thumb, pos, m) && corner == m.corner()
}

/// `corner` is the corner that stays in place while `edges` are pulled.
pub open spec fn is_opposite_corner<A: Arithmetic>(
    a: &A,
    thumb: PipThumbnail,
    edges: ResizeEdge,
    corner: Point,
) -> bool {
    &&& if edges.left {
        is_sum(a, thumb.position.x, thumb.size.w, corner.x)
    } else {
        corner.x == thumb.position.x
    }
    &&& if edges.top {
        is_sum(a, thumb.position.y, thumb.size.h, corner.y)
    } else {
        corner.y == thumb.position.y
    }
}

/// `room` is what the output leaves beside a thumbnail of the given size.
pub open spec fn is_room<H: Arithmetic + Outputs>(
    h: &H,
    output: OutputId,
    size: Size,
    room: Size,
) -> bool {
    exists|bounds: Size| #[trigger]
        is_output_size(h, output, bounds) && is_difference(h, bounds.w, size.w, room.w)
            && is_difference(h, bounds.h, size.h, room.h)
}

/// The position brought onto the output.
pub open spec fn clamped_position(position: Point, room: Size) -> Point {
    Point {
        x: position.x.clamped(zero(), zero().greater(room.w)),
        y: position.y.clamped(zero(), zero().greater(room.h)),
    }
}

/// `after` is the thumbnail moved onto its output.
pub open spec fn is_clamped<H: Arithmetic + Outputs>(
    h: &H,
    before: PipThumbnail,
    after: PipThumbnail,
) -> bool {
    exists|room: Size| #[trigger]
        is_room(h, before.output, before.size, room) && after == (PipThumbnail {
            position: clamped_position(before.position, room),
            ..before
        })
}

impl PipThumbnail {
    /// The area on screen.
    pub open spec fn area(self) -> Rectangle {
        Rectangle { loc: self.position, size: self.size }
    }

    /// The area of the close button: a square at the upper-left corner.
    pub open spec fn button_area(self) -> Rectangle {
        let side = Number { bits: CLOSE_BUTTON_SIZE };
        Rectangle { loc: self.position, size: Size { w: side, h: side } }
    }

    /// The area on screen.
    pub fn rect(&self) -> (rect: Rectangle)
        ensures
            rect == self.area(),
    {
        Rectangle::new(self.position, self.size)
    }

    /// The area of the close button.
    pub fn close_button_rect(&self) -> (rect: Rectangle)
        ensures
            rect == self.button_area(),
    {
        let side = Number::new(CLOSE_BUTTON_SIZE);
        Rectangle::new(self.position, Size::new(side, side))
    }

    /// The corner whose resize area the point is in.
    pub fn resize_corner_at<A: Arithmetic>(&self, a: &A, pos: Point) -> (corner: Option<ResizeEdge>)
        ensures
            is_resize_corner(a, *self, pos, corner),
    {
        let zero = Number::zero();
        let one = Number::new(ONE);
        let side = Number::new(RESIZE_CORNER_SIZE);
        let three = Number::new(THREE);

        let offset = Point::new(
            a.difference(pos.x, self.position.x),
            a.difference(pos.y, self.position.y),
        );
        let far = Rectangle::new(Point::new(zero, zero), self.size).far_corner(a);
        let third = Size::new(a.quotient(self.size.w, three), a.quotient(self.size.h, three));
        let corner_width = one.max(third.w.min(side));
        let corner_height = one.max(third.h.min(side));
        let inner = Size::new(
            a.difference(self.size.w, corner_width),
            a.difference(self.size.h, corner_height),
        );
        proof {
            let m = CornerMeasure { offset, far, third, inner };
            assert(is_corner_measure(a, *self, pos, m));
        }

        let inside = zero.is_le(offset.x) && offset.x.is_lt(far.x) && zero.is_le(offset.y)
            && offset.y.is_lt(far.y);
        if !inside {
            return None;
        }
        let left = offset.x.is_le(corner_width);
        let right = inner.w.is_le(offset.x);
        let top = offset.y.is_le(corner_height);
        let bottom = inner.h.is_le(offset.y);

        match (left, right, top, bottom) {
            (true, false, true, false) => Some(ResizeEdge::top_left()),
            (false, true, true, false) => Some(ResizeEdge::top_right()),
            (true, false, false, true) => Some(ResizeEdge::bottom_left()),
            (false, true, false, true) => Some(ResizeEdge::bottom_right()),
            _ => None,
        }
    }

    /// The corner that stays in place while the edges are pulled.
    pub fn opposite_corner<A: Arithmetic>(&self, a: &A, edges: ResizeEdge) -> (corner: Point)
        ensures
            is_opposite_corner(a, *self, edges, corner),
    {
        let x = if edges.left {
            a.sum(self.position.x, self.size.w)
        } else {
            self.position.x
        };
        let y = if edges.top {
            a.sum(self.position.y, self.size.h)
        } else {
            self.position.y
        };
        Point::new(x, y)
    }

    /// Moves the thumbnail onto its output and tells whether that changed its position. A
    /// thumbnail larger than the output ends up at the output's upper-left corner.
    pub fn clamp_to_output<H: Arithmetic + Outputs>(&mut self, h: &H) -> (changed: bool)
        ensures
            is_clamped(h, *old(self), *final(self)),
            changed == !old(self).position.same(final(self).position),
    {
        let zero = Number::zero();
        let bounds = h.output_size(self.output);
        let room = Size::new(
            h.difference(bounds.w, self.size.w),
            h.difference(bounds.h, self.size.h),
        );
        proof {
            assert(is_room(h, self.output, self.size, room));
        }
        let max_x = zero.max(room.w);
        let max_y = zero.max(room.h);
        let new_position = Point::new(
            self.position.x.clamp(zero, max_x),
            self.position.y.clamp(zero, max_y),
        );
        let changed = !self.position.is_same(new_position);
        self.position = new_position;
        changed
    }
}

/// The steps of a resize by a pulled corner.
pub ghost struct PullSteps {
    /// The corner that stays in place.
    pub anchor: Point,
    /// The size of the output.
    pub bounds: Size,
    /// The box that the pointer asks for.
    pub requested: Size,
    /// The box that the output allows.
    pub allowed: Size,
    /// The largest scale.
    pub max_scale: Number,
    /// The scale of the minimal length.
    pub least: Number,
    /// The scale that the pointer asks for.
    pub wanted: Number,
}

/// `pull` is how far the pointer is from the anchor, on the side that is pulled at.
pub open spec fn is_pull<A: Arithmetic>(
    a: &A,
    backward: bool,
    anchor: Number,
    pointer: Number,
    pull: Number,
) -> bool {
    if backward {
        exists|d: Number| #[trigger]
            is_difference(a, anchor, pointer, d) && pull == d.greater(zero())
    } else {
        exists|d: Number| #[trigger]
            is_difference(a, pointer, anchor, d) && pull == d.greater(zero())
    }
}

/// `reach` is how far the output extends from the anchor, on the side that is pulled at.
pub open spec fn is_reach<A: Arithmetic>(
    a: &A,
    backward: bool,
    anchor: Number,
    bound: Number,
    reach: Number,
) -> bool {
    if backward {
        reach == anchor.greater(zero())
    } else {
        exists|d: Number| #[trigger]
            is_difference(a, bound, anchor, d) && reach == d.greater(zero())
    }
}

/// `place` is where an extent begins that ends or begins at the anchor.
pub open spec fn is_place<A: Arithmetic>(
    a: &A,
    backward: bool,
    anchor: Number,
    extent: Number,
    place: Number,
) -> bool {
    if backward {
        is_difference(a, anchor, extent, place)
    } else {
        place == anchor
    }
}

/// `s` are the steps of pulling `edges` of the thumbnail to the pointer.
pub open spec fn is_pull_steps<H: Arithmetic + Outputs>(
    h: &H,
    thumb: PipThumbnail,
    edges: ResizeEdge,
    pointer: Point,
    s: PullSteps,
) -> bool {
    let source = normalized(thumb.source_size, thumb.size);
    let unit = Size { w: one(), h: one() };
    &&& is_opposite_corner(h, thumb, edges, s.anchor)
    &&& is_output_size(h, thumb.output, s.bounds)
    &&& is_pull(h, edges.left, s.anchor.x, pointer.x, s.requested.w)
    &&& is_pull(h, edges.top, s.anchor.y, pointer.y, s.requested.h)
    &&& is_reach(h, edges.left, s.anchor.x, s.bounds.w, s.allowed.w)
    &&& is_reach(h, edges.top, s.anchor.y, s.bounds.h, s.allowed.h)
    &&& is_fit_scale(h, normalized(source, unit), s.allowed, s.max_scale)
    &&& is_min_thumbnail_scale(h, source, s.least)
    &&& is_fit_scale(h, normalized(source, unit), s.requested, s.wanted)
}

/// `after` is the thumbnail with `edges` pulled to the pointer: the source at the scale that the
/// pointer asks for, as far as the output and the minimal length allow, with the opposite corner
/// in place.
pub open spec fn is_pulled<H: Arithmetic + Outputs>(
    h: &H,
    before: PipThumbnail,
    edges: ResizeEdge,
    pointer: Point,
    after: PipThumbnail,
) -> bool {
    exists|s: PullSteps| #[trigger]
        is_pull_steps(h, before, edges, pointer, s) && is_scaled(
            h,
            normalized(before.source_size, before.size),
            s.wanted.clamped(s.least.lesser(s.max_scale), s.max_scale),
            after.size,
        ) && is_place(h, edges.left, s.anchor.x, after.size.w, after.position.x) && is_place(
            h,
            edges.top,
            s.anchor.y,
            after.size.h,
            after.position.y,
        ) && after == (PipThumbnail { position: after.position, size: after.size, ..before })
}

/// The steps of a resize around the center.
pub ghost struct ZoomSteps {
    /// Half the size.
    pub half: Size,
    /// The center, which stays in place.
    pub center: Point,
    /// The size of the output.
    pub bounds: Size,
    /// The distance of the center from the far edges of the output.
    pub beyond: Size,
    /// The box that the output allows.
    pub allowed: Size,
    /// The largest scale.
    pub max_scale: Number,
    /// The scale of the minimal length.
    pub least: Number,
    /// The scale before.
    pub current: Number,
    /// The scale times the factor.
    pub wanted: Number,
    /// Half the new size.
    pub new_half: Size,
}

/// `half` is half the size.
pub open spec fn is_half<A: Arithmetic>(a: &A, size: Size, half: Size) -> bool {
    is_quotient(a, size.w, Number { bits: TWO }, half.w) && is_quotient(
        a,
        size.h,
        Number { bits: TWO },
        half.h,
    )
}

/// `s` are the steps of scaling the thumbnail by a factor around its center.
pub open spec fn is_zoom_steps<H: Arithmetic + Outputs>(
    h: &H,
    thumb: PipThumbnail,
    factor: Number,
    s: ZoomSteps,
) -> bool {
    let source = normalized(thumb.source_size, thumb.size);
    let unit = Size { w: one(), h: one() };
    let two = Number { bits: TWO };
    &&& is_half(h, thumb.size, s.half)
    &&& is_sum(h, thumb.position.x, s.half.w, s.center.x)
    &&& is_sum(h, thumb.position.y, s.half.h, s.center.y)
    &&& is_output_size(h, thumb.output, s.bounds)
    &&& is_difference(h, s.bounds.w, s.center.x, s.beyond.w)
    &&& is_difference(h, s.bounds.h, s.center.y, s.beyond.h)
    &&& is_product(h, two, s.center.x.lesser(s.beyond.w).greater(zero()), s.allowed.w)
    &&& is_product(h, two, s.center.y.lesser(s.beyond.h).greater(zero()), s.allowed.h)
    &&& is_fit_scale(h, normalized(source, unit), s.allowed, s.max_scale)
    &&& is_min_thumbnail_scale(h, source, s.least)
    &&& is_fit_scale(h, normalized(source, thumb.size), thumb.size, s.current)
    &&& is_product(h, s.current, factor, s.wanted)
}

/// `after` is the thumbnail scaled by a factor, as far as the output and the minimal length allow,
/// with its center in place.
pub open spec fn is_zoomed<H: Arithmetic + Outputs>(
    h: &H,
    before: PipThumbnail,
    factor: Number,
    after: PipThumbnail,
) -> bool {
    exists|s: ZoomSteps| #[trigger]
        is_zoom_steps(h, before, factor, s) && is_scaled(
            h,
            normalized(before.source_size, before.size),
            s.wanted.clamped(s.least.lesser(s.max_scale), s.max_scale),
            after.size,
        ) && is_half(h, after.size, s.new_half) && is_difference(
            h,
            s.center.x,
            s.new_half.w,
            after.position.x,
        ) && is_difference(h, s.center.y, s.new_half.h, after.position.y) && after == (PipThumbnail {
            position: after.position,
            size: after.size,
            ..before
        })
}

fn pull<A: Arithmetic>(a: &A, backward: bool, anchor: Number, pointer: Number) -> (result: Number)
    ensures
        is_pull(a, backward, anchor, pointer, result),
{
    if backward {
        a.difference(anchor, pointer).max(Number::zero())
    } else {
        a.difference(pointer, anchor).max(Number::zero())
    }
}

fn reach<A: Arithmetic>(a: &A, backward: bool, anchor: Number, bound: Number) -> (result: Number)
    ensures
        is_reach(a, backward, anchor, bound, result),
{
    if backward {
        anchor.max(Number::zero())
    } else {
        a.difference(bound, anchor).max(Number::zero())
    }
}

fn place<A: Arithmetic>(a: &A, backward: bool, anchor: Number, extent: Number) -> (result: Number)
    ensures
        is_place(a, backward, anchor, extent, result),
{
    if backward {
        a.difference(anchor, extent)
    } else {
        anchor
    }
}

fn half<A: Arithmetic>(a: &A, size: Size) -> (result: Size)
    ensures
        is_half(a, size, result),
{
    let two = Number::new(TWO);
    Size::new(a.quotient(size.w, two), a.quotient(size.h, two))
}

impl PipThumbnail {
    /// Pulls edges of the thumbnail to the pointer, keeping the proportions of the source.
    pub fn pull_edges<H: Arithmetic + Outputs>(&mut self, h: &H, edges: ResizeEdge, pointer: Point)
        ensures
            is_pulled(h, *old(self), edges, pointer, *final(self)),
    {
        let source_size = normalize_source_size(self.source_size, self.size);
        let anchor = self.opposite_corner(h, edges);
        let bounds = h.output_size(self.output);

        let requested = Size::new(
            pull(h, edges.left, anchor.x, pointer.x),
            pull(h, edges.top, anchor.y, pointer.y),
        );
        let allowed = Size::new(
            reach(h, edges.left, anchor.x, bounds.w),
            reach(h, edges.top, anchor.y, bounds.h),
        );

        let max_scale = scale_to_fit(h, source_size, allowed);
        let least = min_thumbnail_scale(h, source_size);
        let wanted = scale_to_fit(h, source_size, requested);
        let scale = wanted.clamp(least.min(max_scale), max_scale);
        let size = upscale(h, source_size, scale);
        let x = place(h, edges.left, anchor.x, size.w);
        let y = place(h, edges.top, anchor.y, size.h);
        proof {
            let s = PullSteps { anchor, bounds, requested, allowed, max_scale, least, wanted };
            assert(is_pull_steps(h, *old(self), edges, pointer, s));
        }

        self.size = size;
        self.position = Point::new(x, y);
    }

    /// Scales the thumbnail by a factor around its center, keeping the proportions of the source.
    pub fn zoom<H: Arithmetic + Outputs>(&mut self, h: &H, factor: Number)
        ensures
            is_zoomed(h, *old(self), factor, *final(self)),
    {
        let zero = Number::zero();
        let two = Number::new(TWO);
        let source_size = normalize_source_size(self.source_size, self.size);
        let old_half = half(h, self.size);
        let center = Point::new(
            h.sum(self.position.x, old_half.w),
            h.sum(self.position.y, old_half.h),
        );
        let bounds = h.output_size(self.output);
        let beyond = Size::new(h.difference(bounds.w, center.x), h.difference(bounds.h, center.y));
        let allowed = Size::new(
            h.product(two, center.x.min(beyond.w).max(zero)),
            h.product(two, center.y.min(beyond.h).max(zero)),
        );

        let max_scale = scale_to_fit(h, source_size, allowed);
        let least = min_thumbnail_scale(h, source_size);
        let current = current_scale(h, source_size, self.size);
        let wanted = h.product(current, factor);
        let scale = wanted.clamp(least.min(max_scale), max_scale);
        let size = upscale(h, source_size, scale);
        let new_half = half(h, size);
        let x = h.difference(center.x, new_half.w);
        let y = h.difference(center.y, new_half.h);
        proof {
            let s = ZoomSteps {
                half: old_half,
                center,
                bounds,
                beyond,
                allowed,
                max_scale,
                least,
                current,
                wanted,
                new_half,
            };
            assert(is_zoom_steps(h, *old(self), factor, s));
        }

        self.size = size;
        self.position = Point::new(x, y);
    }
}

} // verus!
