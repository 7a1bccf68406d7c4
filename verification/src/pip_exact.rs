//! Where thumbnails are, and how large, without rounding.
use crate::exact::{is_exact, is_reading, larger, lemma_quotient, smaller};
use crate::geometry::{
    is_far_corner, is_inside, is_offset, is_pixel_point, is_pixel_size, PixelPoint, PixelSize,
    Point, Rectangle, ResizeEdge, Size,
};
use crate::number::{is_difference, is_product, is_quotient, Arithmetic, Number};
use crate::pip::{
    has_moved, hit_id, hovered, is_first, is_hit, is_hit_at, is_hit_id, is_margin_place, is_missed,
    is_new_thumbnail, is_refreshed, is_target, move_to, pull_to, with_id, zoom_by, PipHit,
    PipHitTarget, PipManager,
};
use crate::pip_grab::{
    is_followed, is_pointer_on, is_within_output, GrabEffect, PipGrabMode, PipPointerGrab,
};
use crate::pip_laws::lemma_thumbnail_size;
use crate::thumbnail::{
    at_least_one, clamped_position, is_clamped, is_corner_measure, is_fit, is_fit_scale, is_half,
    is_min_thumbnail_scale, is_opposite_corner, is_output_size, is_place, is_pull, is_pull_steps,
    is_pulled, is_reach, is_resize_corner, is_room, is_scaled, is_thumbnail_size, is_zoom_steps,
    is_zoomed, normalized, CornerMeasure, OutputId, Outputs, PipId, PipThumbnail, PullSteps,
    ZoomSteps,
};
use crate::window::MappedId;
use vstd::prelude::*;

verus! {

/// Both sides are numbers, and positive.
pub open spec fn has_area(v: spec_fn(Number) -> real, size: Size) -> bool {
    &&& !size.w.nan()
    &&& !size.h.nan()
    &&& 0real < v(size.w)
    &&& 0real < v(size.h)
}

/// No other size is answered for the output.
pub open spec fn has_size<H: Outputs>(h: &H, output: OutputId, bounds: Size) -> bool {
    forall|size: Size| #[trigger] is_output_size(h, output, size) ==> size == bounds
}

/// The point is in the area: not before its upper-left corner, and before the lower-right one.
pub open spec fn is_within(v: spec_fn(Number) -> real, area: Rectangle, pos: Point) -> bool {
    &&& v(area.loc.x) <= v(pos.x) < v(area.loc.x) + v(area.size.w)
    &&& v(area.loc.y) <= v(pos.y) < v(area.loc.y) + v(area.size.h)
}

/// Whether a point is in an area is told right.
pub proof fn inside_is_told_right<A: Arithmetic>(
    a: &A,
    v: spec_fn(Number) -> real,
    area: Rectangle,
    pos: Point,
    inside: bool,
)
    requires
        is_exact(a, v),
        !area.loc.x.nan(),
        !area.loc.y.nan(),
        !pos.x.nan(),
        !pos.y.nan(),
        is_inside(a, area, pos, inside),
    ensures
        inside == is_within(v, area, pos),
{
    let far = choose|far: Point| #[trigger]
        is_far_corner(a, area, far) && inside == pos.within(area.loc, far);
    assert(area.loc.x.le(pos.x) <==> v(area.loc.x) <= v(pos.x));
    assert(area.loc.y.le(pos.y) <==> v(area.loc.y) <= v(pos.y));
    assert(pos.x.lt(far.x) <==> v(pos.x) < v(far.x));
    assert(pos.y.lt(far.y) <==> v(pos.y) < v(far.y));
}

/// How far a corner area reaches along a side: a third of it, but at most `20` and at least `1`.
pub open spec fn corner_reach(side: real) -> real {
    larger(1real, smaller(side / 3real, 20real))
}

/// The point is near the left edge of the thumbnail, the right one, the upper one, the lower one.
pub open spec fn near_edges(
    v: spec_fn(Number) -> real,
    thumb: PipThumbnail,
    pos: Point,
) -> ResizeEdge {
    let from_left = v(pos.x) - v(thumb.position.x);
    let from_top = v(pos.y) - v(thumb.position.y);
    let from_right = v(thumb.position.x) + v(thumb.size.w) - v(pos.x);
    let from_bottom = v(thumb.position.y) + v(thumb.size.h) - v(pos.y);
    ResizeEdge {
        left: from_left <= corner_reach(v(thumb.size.w)),
        right: from_right <= corner_reach(v(thumb.size.w)),
        top: from_top <= corner_reach(v(thumb.size.h)),
        bottom: from_bottom <= corner_reach(v(thumb.size.h)),
    }
}

/// A point in the thumbnail is in a corner where it is near one of the two upright edges and near
/// one of the two level ones, by its distances from the edges, whatever width and height are.
pub proof fn corners_are_told_by_distance<A: Arithmetic>(
    a: &A,
    v: spec_fn(Number) -> real,
    thumb: PipThumbnail,
    pos: Point,
    corner: Option<ResizeEdge>,
)
    requires
        is_exact(a, v),
        is_resize_corner(a, thumb, pos, corner),
    ensures
        ({
            let near = near_edges(v, thumb, pos);
            corner == if is_within(v, thumb.area(), pos) && near.left != near.right && near.top
                != near.bottom {
                Some(near)
            } else {
                None
            }
        }),
{
    let three = Number { bits: 0x4008_0000_0000_0000 };
    let zero = Number { bits: 0 };
    let one = Number { bits: 0x3ff0_0000_0000_0000 };
    let twenty = Number { bits: 0x4034_0000_0000_0000 };
    let m = choose|m: CornerMeasure| #[trigger]
        is_corner_measure(a, thumb, pos, m) && corner == m.corner();
    lemma_quotient(a, v, thumb.size.w, three, m.third.w);
    lemma_quotient(a, v, thumb.size.h, three, m.third.h);
    let cw = one.greater(m.third.w.lesser(twenty));
    let ch = one.greater(m.third.h.lesser(twenty));
    assert(v(cw) == corner_reach(v(thumb.size.w)) && !cw.nan());
    assert(v(ch) == corner_reach(v(thumb.size.h)) && !ch.nan());
    assert(is_difference(a, thumb.size.w, cw, m.inner.w));
    assert(is_difference(a, thumb.size.h, ch, m.inner.h));
    assert(m.offset.x.le(cw) <==> v(m.offset.x) <= v(cw));
    assert(m.offset.y.le(ch) <==> v(m.offset.y) <= v(ch));
    assert(m.inner.w.le(m.offset.x) <==> v(m.inner.w) <= v(m.offset.x));
    assert(m.inner.h.le(m.offset.y) <==> v(m.inner.h) <= v(m.offset.y));
    assert(zero.le(m.offset.x) <==> 0real <= v(m.offset.x));
    assert(zero.le(m.offset.y) <==> 0real <= v(m.offset.y));
    assert(m.offset.x.lt(m.far.x) <==> v(m.offset.x) < v(m.far.x));
    assert(m.offset.y.lt(m.far.y) <==> v(m.offset.y) < v(m.far.y));
}

/// The point is on the close button: the square of `24` at the upper-left corner.
pub open spec fn is_on_button(v: spec_fn(Number) -> real, thumb: PipThumbnail, pos: Point) -> bool {
    &&& 0real <= v(pos.x) - v(thumb.position.x) < 24real
    &&& 0real <= v(pos.y) - v(thumb.position.y) < 24real
}

/// The thumbnail is on the output and the point is in it.
pub open spec fn is_at(
    v: spec_fn(Number) -> real,
    thumb: PipThumbnail,
    output: OutputId,
    pos: Point,
) -> bool {
    thumb.output == output && is_within(v, thumb.area(), pos)
}

/// What is hit is the topmost thumbnail on the output that the point is in. Its close button comes
/// before its corners, and those before the rest of it.
pub proof fn hits_are_told_by_distance<A: Arithmetic>(
    a: &A,
    v: spec_fn(Number) -> real,
    s: Seq<PipThumbnail>,
    output: OutputId,
    pos: Point,
    hit: Option<PipHit>,
)
    requires
        is_exact(a, v),
        !pos.x.nan(),
        !pos.y.nan(),
        forall|i: int|
            0 <= i < s.len() ==> !(#[trigger] s[i]).position.x.nan() && !s[i].position.y.nan(),
        is_hit(a, s, output, pos, hit),
    ensures
        hit is None ==> forall|j: int| 0 <= j < s.len() ==> !is_at(v, #[trigger] s[j], output, pos),
        hit matches Some(hit) ==> exists|i: int|
            0 <= i < s.len() && is_at(v, #[trigger] s[i], output, pos) && s[i].id == hit.id && (
            forall|j: int| i < j < s.len() ==> !is_at(v, #[trigger] s[j], output, pos)) && ({
                let near = near_edges(v, s[i], pos);
                hit.target == if is_on_button(v, s[i], pos) {
                    PipHitTarget::CloseButton
                } else if near.left != near.right && near.top != near.bottom {
                    PipHitTarget::Resize(near)
                } else {
                    PipHitTarget::Body
                }
            }),
{
    assert forall|j: int| 0 <= j < s.len() && is_missed(a, #[trigger] s[j], output, pos) implies !is_at(
        v,
        s[j],
        output,
        pos,
    ) by {
        if s[j].output == output {
            inside_is_told_right(a, v, s[j].area(), pos, false);
        }
    }
    if let Some(hit) = hit {
        let i = choose|i: int| #[trigger]
            is_hit_at(a, s, output, pos, i) && hit.id == s[i].id && is_target(
                a,
                s[i],
                pos,
                hit.target,
            );
        inside_is_told_right(a, v, s[i].area(), pos, true);
        assert(is_at(v, s[i], output, pos));
        match hit.target {
            PipHitTarget::CloseButton => {
                inside_is_told_right(a, v, s[i].button_area(), pos, true);
            },
            PipHitTarget::Resize(edges) => {
                inside_is_told_right(a, v, s[i].button_area(), pos, false);
                corners_are_told_by_distance(a, v, s[i], pos, Some(edges));
            },
            PipHitTarget::Body => {
                inside_is_told_right(a, v, s[i].button_area(), pos, false);
                corners_are_told_by_distance(a, v, s[i], pos, None);
            },
        }
    }
}

/// Pulling keeps the opposite corner in place: an edge that is not pulled at stays where it was.
pub proof fn pulling_keeps_the_opposite_corner<H: Arithmetic + Outputs>(
    h: &H,
    v: spec_fn(Number) -> real,
    before: PipThumbnail,
    edges: ResizeEdge,
    pointer: Point,
    after: PipThumbnail,
)
    requires
        is_exact(h, v),
        is_pulled(h, before, edges, pointer, after),
    ensures
        !edges.left ==> after.position.x == before.position.x,
        !edges.top ==> after.position.y == before.position.y,
        edges.left ==> v(after.position.x) + v(after.size.w) == v(before.position.x) + v(
            before.size.w,
        ),
        edges.top ==> v(after.position.y) + v(after.size.h) == v(before.position.y) + v(
            before.size.h,
        ),
{
    let s = choose|s: PullSteps| #[trigger]
        is_pull_steps(h, before, edges, pointer, s) && is_place(
            h,
            edges.left,
            s.anchor.x,
            after.size.w,
            after.position.x,
        ) && is_place(h, edges.top, s.anchor.y, after.size.h, after.position.y);
    assert(is_opposite_corner(h, before, edges, s.anchor));
}

/// How far the output reaches from the edge that stays, on the side that is pulled at.
pub open spec fn reach_of(backward: bool, place: real, extent: real, bound: real) -> real {
    if backward {
        larger(0real, place + extent)
    } else {
        larger(0real, bound - place)
    }
}

/// How far the pointer is from the edge that stays, on the side that is pulled at.
pub open spec fn pull_of(backward: bool, place: real, extent: real, pointer: real) -> real {
    if backward {
        larger(0real, place + extent - pointer)
    } else {
        larger(0real, pointer - place)
    }
}

/// The longest edge of a window, at least `1`.
pub open spec fn longest_edge(v: spec_fn(Number) -> real, source: Size) -> real {
    larger(larger(v(source.w), v(source.h)), 1real)
}

/// The scale at which a source fits.
proof fn lemma_fit_scale<A: Arithmetic>(
    a: &A,
    v: spec_fn(Number) -> real,
    source: Size,
    bounds: Size,
    scale: Number,
)
    requires
        is_exact(a, v),
        has_area(v, source),
        is_fit_scale(a, source, bounds, scale),
    ensures
        !scale.nan(),
        v(scale) == larger(
            smaller(v(bounds.w) / v(source.w), v(bounds.h) / v(source.h)),
            v(Number { bits: 0x3f50_624d_d2f1_a9fc }),
        ),
{
    let least = Number { bits: 0x3f50_624d_d2f1_a9fc };
    let (x, y) = choose|x: Number, y: Number|
        #![trigger is_quotient(a, bounds.w, source.w, x), is_quotient(a, bounds.h, source.h, y)]
        is_quotient(a, bounds.w, source.w, x) && is_quotient(a, bounds.h, source.h, y) && scale
            == x.lesser(y).greater(least);
    lemma_quotient(a, v, bounds.w, source.w, x);
    lemma_quotient(a, v, bounds.h, source.h, y);
    assert(!least.nan());
}

/// What a share of a side comes to.
proof fn lemma_share(k: real, side: real, bound: real)
    requires
        0real < side,
    ensures
        k <= bound / side <==> k * side <= bound,
        bound / side <= k <==> bound <= k * side,
{
    let q = bound / side;
    assert(q * side == bound) by (nonlinear_arith)
        requires
            q == bound / side,
            0real < side,
    ;
    assert(k <= q <==> k * side <= q * side) by (nonlinear_arith)
        requires
            0real < side,
    ;
    assert(q <= k <==> q * side <= k * side) by (nonlinear_arith)
        requires
            0real < side,
    ;
}

/// The scale at which the longest edge has its minimal length.
proof fn lemma_least_length<A: Arithmetic>(
    a: &A,
    v: spec_fn(Number) -> real,
    source: Size,
    scale: Number,
)
    requires
        is_exact(a, v),
        has_area(v, source),
        is_min_thumbnail_scale(a, source, scale),
    ensures
        !scale.nan(),
        v(scale) == 96real / longest_edge(v, source),
        1real <= longest_edge(v, source),
{
    let one = Number { bits: 0x3ff0_0000_0000_0000 };
    let longest = source.w.greater(source.h).greater(one);
    assert(v(longest) == longest_edge(v, source));
    lemma_quotient(a, v, Number { bits: 0x4058_0000_0000_0000 }, longest, scale);
}

/// What the scale of a thumbnail has to do with the box that is asked for, the box that is
/// allowed, and the longest edge: it fits what is allowed. It fits what is asked for, unless that
/// would be too small. It is no smaller than that.
pub open spec fn is_best_scale(
    k: real,
    least: real,
    w: real,
    h: real,
    longest: real,
    asked_w: real,
    asked_h: real,
    allowed_w: real,
    allowed_h: real,
) -> bool {
    let full = allowed_w <= k * w || allowed_h <= k * h;
    &&& k * w <= allowed_w
    &&& k * h <= allowed_h
    &&& (k * w <= asked_w && k * h <= asked_h) || k * longest <= 96real || k <= least
    &&& asked_w <= k * w || asked_h <= k * h || full
    &&& 96real <= k * longest || full
}

/// Pulling makes the thumbnail as large as the pointer asks for, in the proportions of the window,
/// as far as the output allows, with a longest edge of at least `96` where there is room.
pub proof fn pulling_follows_the_pointer<H: Arithmetic + Outputs>(
    h: &H,
    v: spec_fn(Number) -> real,
    before: PipThumbnail,
    edges: ResizeEdge,
    pointer: Point,
    bounds: Size,
    after: PipThumbnail,
)
    requires
        is_exact(h, v),
        has_area(v, before.source_size),
        has_size(h, before.output, bounds),
        !before.position.x.nan(),
        !before.position.y.nan(),
        ({
            let least = v(Number { bits: 0x3f50_624d_d2f1_a9fc });
            &&& least * v(before.source_size.w) <= reach_of(
                edges.left,
                v(before.position.x),
                v(before.size.w),
                v(bounds.w),
            )
            &&& least * v(before.source_size.h) <= reach_of(
                edges.top,
                v(before.position.y),
                v(before.size.h),
                v(bounds.h),
            )
        }),
        is_pulled(h, before, edges, pointer, after),
    ensures
        after.source_size == before.source_size,
        v(after.size.w) * v(before.source_size.h) == v(after.size.h) * v(before.source_size.w),
        is_best_scale(
            v(after.size.w) / v(before.source_size.w),
            v(Number { bits: 0x3f50_624d_d2f1_a9fc }),
            v(before.source_size.w),
            v(before.source_size.h),
            longest_edge(v, before.source_size),
            pull_of(edges.left, v(before.position.x), v(before.size.w), v(pointer.x)),
            pull_of(edges.top, v(before.position.y), v(before.size.h), v(pointer.y)),
            reach_of(edges.left, v(before.position.x), v(before.size.w), v(bounds.w)),
            reach_of(edges.top, v(before.position.y), v(before.size.h), v(bounds.h)),
        ),
{
    let source = before.source_size;
    let zero = Number { bits: 0 };
    let one = Number { bits: 0x3ff0_0000_0000_0000 };
    assert(zero.lt(source.w) && zero.lt(source.h));
    assert(normalized(source, before.size) == source);
    assert(normalized(source, Size { w: one, h: one }) == source);
    let s = choose|s: PullSteps| #[trigger]
        is_pull_steps(h, before, edges, pointer, s) && is_scaled(
            h,
            source,
            s.wanted.clamped(s.least.lesser(s.max_scale), s.max_scale),
            after.size,
        );
    assert(is_opposite_corner(h, before, edges, s.anchor));
    assert(!s.anchor.x.nan() && !s.anchor.y.nan());
    lemma_pull(h, v, edges.left, s.anchor.x, pointer.x, s.requested.w);
    lemma_pull(h, v, edges.top, s.anchor.y, pointer.y, s.requested.h);
    lemma_reach(h, v, edges.left, s.anchor.x, s.bounds.w, s.allowed.w);
    lemma_reach(h, v, edges.top, s.anchor.y, s.bounds.h, s.allowed.h);
    lemma_fit_scale(h, v, source, s.allowed, s.max_scale);
    lemma_fit_scale(h, v, source, s.requested, s.wanted);
    lemma_least_length(h, v, source, s.least);
    let k = s.wanted.clamped(s.least.lesser(s.max_scale), s.max_scale);
    assert(is_product(h, source.w, k, after.size.w));
    assert(is_product(h, source.h, k, after.size.h));
    lemma_best_scale(
        v(k),
        v(Number { bits: 0x3f50_624d_d2f1_a9fc }),
        v(source.w),
        v(source.h),
        longest_edge(v, source),
        v(s.requested.w),
        v(s.requested.h),
        v(s.allowed.w),
        v(s.allowed.h),
        v(s.wanted),
        v(s.max_scale),
        v(s.least),
    );
    lemma_proportions(v(source.w), v(source.h), v(k), v(after.size.w), v(after.size.h));
}

proof fn lemma_pull<A: Arithmetic>(
    a: &A,
    v: spec_fn(Number) -> real,
    backward: bool,
    anchor: Number,
    pointer: Number,
    pull: Number,
)
    requires
        is_exact(a, v),
        is_pull(a, backward, anchor, pointer, pull),
    ensures
        v(pull) == larger(
            0real,
            if backward {
                v(anchor) - v(pointer)
            } else {
                v(pointer) - v(anchor)
            },
        ),
{
}

proof fn lemma_reach<A: Arithmetic>(
    a: &A,
    v: spec_fn(Number) -> real,
    backward: bool,
    anchor: Number,
    bound: Number,
    reach: Number,
)
    requires
        is_exact(a, v),
        !anchor.nan(),
        is_reach(a, backward, anchor, bound, reach),
    ensures
        v(reach) == larger(
            0real,
            if backward {
                v(anchor)
            } else {
                v(bound) - v(anchor)
            },
        ),
{
}

proof fn lemma_proportions(w: real, h: real, k: real, x: real, y: real)
    requires
        0real < w,
        x == w * k,
        y == h * k,
    ensures
        x * h == y * w,
        x / w == k,
{
    assert(x * h == y * w) by (nonlinear_arith)
        requires
            x == w * k,
            y == h * k,
    ;
    assert(x / w == k) by (nonlinear_arith)
        requires
            x == w * k,
            0real < w,
    ;
}

proof fn lemma_best_scale(
    k: real,
    least: real,
    w: real,
    h: real,
    longest: real,
    asked_w: real,
    asked_h: real,
    allowed_w: real,
    allowed_h: real,
    wanted: real,
    most: real,
    fewest: real,
)
    requires
        0real < w,
        0real < h,
        1real <= longest,
        least * w <= allowed_w,
        least * h <= allowed_h,
        wanted == larger(smaller(asked_w / w, asked_h / h), least),
        most == larger(smaller(allowed_w / w, allowed_h / h), least),
        fewest == 96real / longest,
        k == smaller(larger(wanted, smaller(fewest, most)), most),
    ensures
        is_best_scale(k, least, w, h, longest, asked_w, asked_h, allowed_w, allowed_h),
{
    lemma_share(least, w, allowed_w);
    lemma_share(least, h, allowed_h);
    lemma_share(k, w, allowed_w);
    lemma_share(k, h, allowed_h);
    lemma_share(k, w, asked_w);
    lemma_share(k, h, asked_h);
    lemma_share(k, longest, 96real);
}

/// What the output allows around a center that stays.
pub open spec fn room_around(place: real, extent: real, bound: real) -> real {
    let center = place + extent / 2real;
    2real * larger(0real, smaller(center, bound - center))
}

/// Zooming keeps the center in place.
pub proof fn zooming_keeps_the_center<H: Arithmetic + Outputs>(
    h: &H,
    v: spec_fn(Number) -> real,
    before: PipThumbnail,
    factor: Number,
    after: PipThumbnail,
)
    requires
        is_exact(h, v),
        is_zoomed(h, before, factor, after),
    ensures
        v(after.position.x) + v(after.size.w) / 2real == v(before.position.x) + v(before.size.w)
            / 2real,
        v(after.position.y) + v(after.size.h) / 2real == v(before.position.y) + v(before.size.h)
            / 2real,
{
    let two = Number { bits: 0x4000_0000_0000_0000 };
    let s = choose|s: ZoomSteps| #[trigger]
        is_zoom_steps(h, before, factor, s) && is_half(h, after.size, s.new_half) && is_difference(
            h,
            s.center.x,
            s.new_half.w,
            after.position.x,
        ) && is_difference(h, s.center.y, s.new_half.h, after.position.y);
    assert(is_half(h, before.size, s.half));
    lemma_quotient(h, v, before.size.w, two, s.half.w);
    lemma_quotient(h, v, before.size.h, two, s.half.h);
    lemma_quotient(h, v, after.size.w, two, s.new_half.w);
    lemma_quotient(h, v, after.size.h, two, s.new_half.h);
}

/// Zooming makes the thumbnail larger by the factor, in the proportions of the window, as far as
/// the output allows around the center, with a longest edge of at least `96` where there is room.
pub proof fn zooming_follows_the_factor<H: Arithmetic + Outputs>(
    h: &H,
    v: spec_fn(Number) -> real,
    before: PipThumbnail,
    factor: Number,
    bounds: Size,
    after: PipThumbnail,
)
    requires
        is_exact(h, v),
        has_area(v, before.source_size),
        has_size(h, before.output, bounds),
        ({
            let least = v(Number { bits: 0x3f50_624d_d2f1_a9fc });
            let room_w = room_around(v(before.position.x), v(before.size.w), v(bounds.w));
            let room_h = room_around(v(before.position.y), v(before.size.h), v(bounds.h));
            &&& least * v(before.source_size.w) <= room_w
            &&& least * v(before.source_size.h) <= room_h
            &&& least * v(before.source_size.w) <= v(before.size.w)
            &&& least * v(before.source_size.h) <= v(before.size.h)
        }),
        is_zoomed(h, before, factor, after),
    ensures
        after.source_size == before.source_size,
        v(after.size.w) * v(before.source_size.h) == v(after.size.h) * v(before.source_size.w),
        ({
            let k = v(after.size.w) / v(before.source_size.w);
            let now = smaller(
                v(before.size.w) / v(before.source_size.w),
                v(before.size.h) / v(before.source_size.h),
            );
            let longest = longest_edge(v, before.source_size);
            let room_w = room_around(v(before.position.x), v(before.size.w), v(bounds.w));
            let room_h = room_around(v(before.position.y), v(before.size.h), v(bounds.h));
            let full = room_w <= v(after.size.w) || room_h <= v(after.size.h);
            &&& v(after.size.w) <= room_w
            &&& v(after.size.h) <= room_h
            &&& k <= now * v(factor) || k * longest <= 96real
            &&& now * v(factor) <= k || full
            &&& 96real <= k * longest || full
        }),
{
    let source = before.source_size;
    let zero = Number { bits: 0 };
    let one = Number { bits: 0x3ff0_0000_0000_0000 };
    let two = Number { bits: 0x4000_0000_0000_0000 };
    let least = Number { bits: 0x3f50_624d_d2f1_a9fc };
    assert(zero.lt(source.w) && zero.lt(source.h));
    assert(normalized(source, before.size) == source);
    assert(normalized(source, Size { w: one, h: one }) == source);
    let s = choose|s: ZoomSteps| #[trigger]
        is_zoom_steps(h, before, factor, s) && is_scaled(
            h,
            source,
            s.wanted.clamped(s.least.lesser(s.max_scale), s.max_scale),
            after.size,
        );
    assert(is_half(h, before.size, s.half));
    lemma_quotient(h, v, before.size.w, two, s.half.w);
    lemma_quotient(h, v, before.size.h, two, s.half.h);
    assert(v(s.allowed.w) == room_around(v(before.position.x), v(before.size.w), v(bounds.w)));
    assert(v(s.allowed.h) == room_around(v(before.position.y), v(before.size.h), v(bounds.h)));
    lemma_fit_scale(h, v, source, s.allowed, s.max_scale);
    lemma_fit_scale(h, v, source, before.size, s.current);
    lemma_least_length(h, v, source, s.least);
    let k = s.wanted.clamped(s.least.lesser(s.max_scale), s.max_scale);
    assert(is_product(h, source.w, k, after.size.w));
    assert(is_product(h, source.h, k, after.size.h));
    lemma_share(v(least), v(source.w), v(before.size.w));
    lemma_share(v(least), v(source.h), v(before.size.h));
    lemma_share(v(least), v(source.w), v(s.allowed.w));
    lemma_share(v(least), v(source.h), v(s.allowed.h));
    lemma_share(v(k), v(source.w), v(s.allowed.w));
    lemma_share(v(k), v(source.h), v(s.allowed.h));
    lemma_share(v(k), longest_edge(v, source), 96real);
    lemma_proportions(v(source.w), v(source.h), v(k), v(after.size.w), v(after.size.h));
    let (p, q, r) = (v(k), v(source.w), v(source.h));
    assert(p * q == q * p) by (nonlinear_arith);
    assert(p * r == r * p) by (nonlinear_arith);
}

/// A place brought between `0` and what the bound leaves beside an extent.
pub open spec fn kept_on(place: real, extent: real, bound: real) -> real {
    let most = larger(0real, bound - extent);
    if place < 0real {
        0real
    } else if most < place {
        most
    } else {
        place
    }
}

/// A thumbnail is moved onto its output by the shortest way, and stays where it is on it already.
pub proof fn clamping_is_the_shortest_way<H: Arithmetic + Outputs>(
    h: &H,
    v: spec_fn(Number) -> real,
    before: PipThumbnail,
    bounds: Size,
    after: PipThumbnail,
)
    requires
        is_exact(h, v),
        has_size(h, before.output, bounds),
        !before.position.x.nan(),
        !before.position.y.nan(),
        is_clamped(h, before, after),
    ensures
        after == (PipThumbnail { position: after.position, ..before }),
        !after.position.x.nan(),
        !after.position.y.nan(),
        v(after.position.x) == kept_on(v(before.position.x), v(before.size.w), v(bounds.w)),
        v(after.position.y) == kept_on(v(before.position.y), v(before.size.h), v(bounds.h)),
{
    let zero = Number { bits: 0 };
    let room = choose|room: Size| #[trigger]
        is_room(h, before.output, before.size, room) && after == (PipThumbnail {
            position: clamped_position(before.position, room),
            ..before
        });
    let most_x = zero.greater(room.w);
    let most_y = zero.greater(room.h);
    assert(v(most_x) == larger(0real, v(bounds.w) - v(before.size.w)) && !most_x.nan());
    assert(v(most_y) == larger(0real, v(bounds.h) - v(before.size.h)) && !most_y.nan());
    assert(before.position.x.lt(zero) <==> v(before.position.x) < 0real);
    assert(before.position.y.lt(zero) <==> v(before.position.y) < 0real);
    assert(most_x.lt(before.position.x) <==> v(most_x) < v(before.position.x));
    assert(most_y.lt(before.position.y) <==> v(most_y) < v(before.position.y));
}

/// A new thumbnail of a window with an area is a quarter as wide as the output, in the proportions
/// of the window, but no higher than the output without a margin of `16`. It keeps that margin
/// from the right and the lower edge of the output, as far as there is room.
pub proof fn new_thumbnail_is_in_the_corner<H: Arithmetic + Outputs>(
    h: &H,
    v: spec_fn(Number) -> real,
    id: PipId,
    source_id: MappedId,
    source_size: PixelSize,
    output: OutputId,
    bounds: Size,
    thumb: PipThumbnail,
)
    requires
        is_exact(h, v),
        has_size(h, output, bounds),
        0 < source_size.w,
        0 < source_size.h,
        is_new_thumbnail(h, id, source_id, source_size, output, thumb),
    ensures
        thumb.id == id,
        thumb.source_id == source_id,
        thumb.output == output,
        !thumb.is_hovered,
        v(thumb.source_size.w) == (source_size.w as int) as real,
        v(thumb.source_size.h) == (source_size.h as int) as real,
        v(thumb.size.w) * v(thumb.source_size.h) == v(thumb.size.h) * v(thumb.source_size.w),
        ({
            let wide = larger(1real, v(bounds.w) / 4real);
            let most = larger(1real, v(bounds.h) - 16real);
            &&& v(thumb.size.h) <= most
            &&& v(thumb.size.w) <= wide
            &&& v(thumb.size.w) == wide || v(thumb.size.h) == most
        }),
        v(thumb.position.x) == larger(0real, v(bounds.w) - v(thumb.size.w) - 16real),
        v(thumb.position.y) == larger(0real, v(bounds.h) - v(thumb.size.h) - 16real),
{
    let zero = Number { bits: 0 };
    let one = Number { bits: 0x3ff0_0000_0000_0000 };
    let quarter = Number { bits: 0x3fd0_0000_0000_0000 };
    let margin = Number { bits: 0x4030_0000_0000_0000 };
    let source = thumb.source_size;
    assert(is_pixel_size(h, source_size, source));
    assert(v(source.w) == (source_size.w as int) as real);
    assert(v(source.h) == (source_size.h as int) as real);
    assert(!source.w.le(zero) && !source.h.le(zero));
    assert(is_output_size(h, output, bounds) && is_thumbnail_size(h, source, bounds, thumb.size)
        && is_margin_place(h, bounds.w, thumb.size.w, thumb.position.x) && is_margin_place(
        h,
        bounds.h,
        thumb.size.h,
        thumb.position.y,
    ));
    let (w, rest, wide) = lemma_thumbnail_size(h, source, bounds, thumb.size);
    let k = choose|scale: Number| #[trigger]
        is_quotient(h, wide.w, source.w, scale) && is_product(h, source.h, scale, wide.h);
    let p = v(bounds.w);
    assert(p * (1real / 4real) == p / 4real) by (nonlinear_arith);
    assert(v(wide.w) == larger(1real, p / 4real));
    lemma_quotient(h, v, wide.w, source.w, k);
    let (sw, sh, ww, wh) = (v(source.w), v(source.h), v(wide.w), v(wide.h));
    assert(ww * sh == wh * sw) by (nonlinear_arith)
        requires
            wh == sh * v(k),
            v(k) * sw == ww,
    ;
    let most = one.greater(rest);
    assert(v(most) == larger(1real, v(bounds.h) - 16real) && !most.nan());
    if most.lt(wide.h) {
        let l = choose|scale: Number| #[trigger]
            is_quotient(h, thumb.size.h, source.h, scale) && is_product(
                h,
                source.w,
                scale,
                thumb.size.w,
            );
        lemma_quotient(h, v, thumb.size.h, source.h, l);
        let (tw, th) = (v(thumb.size.w), v(thumb.size.h));
        assert(tw * sh == th * sw) by (nonlinear_arith)
            requires
                tw == sw * v(l),
                v(l) * sh == th,
        ;
        assert(tw <= ww) by (nonlinear_arith)
            requires
                tw * sh == th * sw,
                ww * sh == wh * sw,
                th <= wh,
                0real < sw,
                0real < sh,
        ;
    }
    lemma_margin(h, v, bounds.w, thumb.size.w, thumb.position.x);
    lemma_margin(h, v, bounds.h, thumb.size.h, thumb.position.y);
}

proof fn lemma_margin<A: Arithmetic>(
    a: &A,
    v: spec_fn(Number) -> real,
    bound: Number,
    extent: Number,
    place: Number,
)
    requires
        is_exact(a, v),
        is_margin_place(a, bound, extent, place),
    ensures
        v(place) == larger(0real, v(bound) - v(extent) - 16real),
{
    let zero = Number { bits: 0 };
    let margin = Number { bits: 0x4030_0000_0000_0000 };
    let (room, rest) = choose|room: Number, rest: Number|
        #![trigger is_difference(a, bound, extent, room), is_difference(a, room, margin, rest)]
        is_difference(a, bound, extent, room) && is_difference(a, room, margin, rest) && place
            == zero.greater(rest);
    assert(zero.lt(rest) <==> 0real < v(rest));
}

/// After a new window size was noted, the thumbnail has the proportions of the window, lies within
/// the area that it had, and is as large as that allows.
pub proof fn refreshing_keeps_the_area<H: Arithmetic + Outputs>(
    h: &H,
    v: spec_fn(Number) -> real,
    before: PipThumbnail,
    source_size: Size,
    after: PipThumbnail,
)
    requires
        is_exact(h, v),
        has_area(v, source_size),
        ({
            let least = v(Number { bits: 0x3f50_624d_d2f1_a9fc });
            &&& least * v(source_size.w) <= v(before.size.w)
            &&& least * v(source_size.h) <= v(before.size.h)
        }),
        is_refreshed(h, before, source_size, after),
    ensures
        after.source_size == source_size,
        v(after.size.w) * v(source_size.h) == v(after.size.h) * v(source_size.w),
        v(after.size.w) <= v(before.size.w),
        v(after.size.h) <= v(before.size.h),
        v(after.size.w) == v(before.size.w) || v(after.size.h) == v(before.size.h),
{
    let zero = Number { bits: 0 };
    let least = Number { bits: 0x3f50_624d_d2f1_a9fc };
    assert(!source_size.w.le(zero) && !source_size.h.le(zero));
    let size = choose|size: Size| #[trigger]
        is_fit(h, source_size, before.size, size) && is_clamped(
            h,
            PipThumbnail { source_size, size, ..before },
            after,
        );
    let k = choose|scale: Number| #[trigger]
        is_fit_scale(h, source_size, before.size, scale) && is_scaled(h, source_size, scale, size);
    lemma_fit_scale(h, v, source_size, before.size, k);
    assert(is_product(h, source_size.w, k, size.w));
    assert(is_product(h, source_size.h, k, size.h));
    lemma_share(v(least), v(source_size.w), v(before.size.w));
    lemma_share(v(least), v(source_size.h), v(before.size.h));
    lemma_share(v(k), v(source_size.w), v(before.size.w));
    lemma_share(v(k), v(source_size.h), v(before.size.h));
    lemma_proportions(v(source_size.w), v(source_size.h), v(k), v(size.w), v(size.h));
    let (p, q, r) = (v(k), v(source_size.w), v(source_size.h));
    assert(p * q == q * p) by (nonlinear_arith);
    assert(p * r == r * p) by (nonlinear_arith);
}

/// A grabbed thumbnail stays under the pointer: the pointer keeps its place in it, as far as the
/// output allows. The pointer counts from the corner of the output.
pub proof fn dragged_thumbnail_stays_under_the_pointer<H: Arithmetic + Outputs>(
    h: &H,
    v: spec_fn(Number) -> real,
    location: Point,
    output_loc: PixelPoint,
    pos: Point,
    grab_offset: Point,
    target: Point,
    bounds: Size,
    before: PipThumbnail,
    after: PipThumbnail,
)
    requires
        is_exact(h, v),
        has_size(h, before.output, bounds),
        is_within_output(h, location, output_loc, pos),
        is_offset(h, pos, grab_offset, target),
        move_to(h, target)(before, after),
    ensures
        after == (PipThumbnail { position: after.position, ..before }),
        v(after.position.x) == kept_on(
            v(location.x) - (output_loc.x as int) as real - v(grab_offset.x),
            v(before.size.w),
            v(bounds.w),
        ),
        v(after.position.y) == kept_on(
            v(location.y) - (output_loc.y as int) as real - v(grab_offset.y),
            v(before.size.h),
            v(bounds.h),
        ),
{
    let origin = choose|origin: Point| #[trigger]
        is_pixel_point(h, output_loc, origin) && is_offset(h, location, origin, pos);
    assert(v(origin.x) == (output_loc.x as int) as real);
    assert(v(origin.y) == (output_loc.y as int) as real);
    assert(!target.x.nan() && !target.y.nan());
    clamping_is_the_shortest_way(
        h,
        v,
        PipThumbnail { position: target, ..before },
        bounds,
        after,
    );
}

/// A motion of the pointer moves or pulls the grabbed thumbnail and no other, and has its output
/// drawn again.
pub proof fn motion_follows_the_grab<H: Arithmetic + Outputs>(
    h: &H,
    grab: PipPointerGrab,
    pos: Point,
    before: PipManager,
    after: PipManager,
    effect: GrabEffect,
)
    requires
        is_followed(h, grab, pos, before, after, effect),
        effect is Redraw,
    ensures
        effect == GrabEffect::Redraw(grab.spec_output()),
        after@.len() == before@.len(),
        exists|i: int| #[trigger]
            is_first(before@, with_id(grab.spec_pip_id()), i) && (forall|j: int|
                0 <= j < before@.len() && j != i ==> #[trigger] after@[j] == before@[j])
                && match grab.spec_mode() {
                PipGrabMode::Move { grab_offset } => exists|target: Point| #[trigger]
                    is_offset(h, pos, grab_offset, target) && move_to(h, target)(
                        before@[i],
                        after@[i],
                    ),
                PipGrabMode::Resize { edges } => pull_to(h, edges, pos)(before@[i], after@[i]),
            },
{
}

/// The thumbnail does not extend past the edges of its output.
pub open spec fn is_all_on(v: spec_fn(Number) -> real, thumb: PipThumbnail, bounds: Size) -> bool {
    &&& 0real <= v(thumb.position.x)
    &&& 0real <= v(thumb.position.y)
    &&& v(thumb.position.x) + v(thumb.size.w) <= v(bounds.w)
    &&& v(thumb.position.y) + v(thumb.size.h) <= v(bounds.h)
}

/// The least scale times the window is within the room.
pub open spec fn has_least_room(
    v: spec_fn(Number) -> real,
    source: Size,
    room_w: real,
    room_h: real,
) -> bool {
    let least = v(Number { bits: 0x3f50_624d_d2f1_a9fc });
    least * v(source.w) <= room_w && least * v(source.h) <= room_h
}

/// A thumbnail that is on its output stays on it when a corner is pulled, and the opposite corner
/// stays where it is.
pub proof fn pulled_thumbnail_stays_at_its_corner<H: Arithmetic + Outputs>(
    h: &H,
    v: spec_fn(Number) -> real,
    before: PipThumbnail,
    edges: ResizeEdge,
    pointer: Point,
    bounds: Size,
    after: PipThumbnail,
)
    requires
        is_exact(h, v),
        has_area(v, before.source_size),
        has_size(h, before.output, bounds),
        !before.position.x.nan(),
        !before.position.y.nan(),
        is_all_on(v, before, bounds),
        0real <= v(before.size.w),
        0real <= v(before.size.h),
        has_least_room(
            v,
            before.source_size,
            reach_of(edges.left, v(before.position.x), v(before.size.w), v(bounds.w)),
            reach_of(edges.top, v(before.position.y), v(before.size.h), v(bounds.h)),
        ),
        pull_to(h, edges, pointer)(before, after),
    ensures
        is_all_on(v, after, bounds),
        !edges.left ==> v(after.position.x) == v(before.position.x),
        !edges.top ==> v(after.position.y) == v(before.position.y),
        edges.left ==> v(after.position.x) + v(after.size.w) == v(before.position.x) + v(
            before.size.w,
        ),
        edges.top ==> v(after.position.y) + v(after.size.h) == v(before.position.y) + v(
            before.size.h,
        ),
        v(after.size.w) * v(before.source_size.h) == v(after.size.h) * v(before.source_size.w),
{
    let pulled = choose|pulled: PipThumbnail| #[trigger]
        is_pulled(h, before, edges, pointer, pulled) && is_clamped(h, pulled, after);
    pulling_keeps_the_opposite_corner(h, v, before, edges, pointer, pulled);
    pulling_follows_the_pointer(h, v, before, edges, pointer, bounds, pulled);
    lemma_whole(v(pulled.size.w), v(before.source_size.w));
    lemma_other_side(
        v(pulled.size.w),
        v(pulled.size.h),
        v(before.source_size.w),
        v(before.source_size.h),
    );
    let s = choose|s: PullSteps| #[trigger]
        is_pull_steps(h, before, edges, pointer, s) && is_place(
            h,
            edges.left,
            s.anchor.x,
            pulled.size.w,
            pulled.position.x,
        ) && is_place(h, edges.top, s.anchor.y, pulled.size.h, pulled.position.y) && pulled.output
            == before.output;
    assert(is_opposite_corner(h, before, edges, s.anchor));
    assert(!pulled.position.x.nan() && !pulled.position.y.nan());
    clamping_is_the_shortest_way(h, v, pulled, bounds, after);
}

proof fn lemma_whole(part: real, side: real)
    requires
        0real < side,
    ensures
        (part / side) * side == part,
{
    let q = part / side;
    assert(q * side == part) by (nonlinear_arith)
        requires
            q == part / side,
            0real < side,
    ;
}

proof fn lemma_other_side(w: real, h: real, source_w: real, source_h: real)
    requires
        0real < source_w,
        w * source_h == h * source_w,
    ensures
        (w / source_w) * source_h == h,
{
    let k = w / source_w;
    assert(k * source_h == h) by (nonlinear_arith)
        requires
            k == w / source_w,
            w * source_h == h * source_w,
            0real < source_w,
    ;
}

/// A thumbnail that is on its output stays on it when it is zoomed, and its center stays where it
/// is.
pub proof fn zoomed_thumbnail_stays_at_its_center<H: Arithmetic + Outputs>(
    h: &H,
    v: spec_fn(Number) -> real,
    before: PipThumbnail,
    factor: Number,
    bounds: Size,
    after: PipThumbnail,
)
    requires
        is_exact(h, v),
        has_area(v, before.source_size),
        has_size(h, before.output, bounds),
        has_least_room(
            v,
            before.source_size,
            room_around(v(before.position.x), v(before.size.w), v(bounds.w)),
            room_around(v(before.position.y), v(before.size.h), v(bounds.h)),
        ),
        has_least_room(v, before.source_size, v(before.size.w), v(before.size.h)),
        0real <= room_around(v(before.position.x), v(before.size.w), v(bounds.w)),
        0real < v(Number { bits: 0x3f50_624d_d2f1_a9fc }),
        zoom_by(h, factor)(before, after),
    ensures
        is_all_on(v, after, bounds),
        v(after.position.x) + v(after.size.w) / 2real == v(before.position.x) + v(before.size.w)
            / 2real,
        v(after.position.y) + v(after.size.h) / 2real == v(before.position.y) + v(before.size.h)
            / 2real,
        v(after.size.w) * v(before.source_size.h) == v(after.size.h) * v(before.source_size.w),
{
    let zoomed = choose|zoomed: PipThumbnail| #[trigger]
        is_zoomed(h, before, factor, zoomed) && is_clamped(h, zoomed, after);
    zooming_keeps_the_center(h, v, before, factor, zoomed);
    zooming_follows_the_factor(h, v, before, factor, bounds, zoomed);
    let s = choose|s: ZoomSteps| #[trigger]
        is_zoom_steps(h, before, factor, s) && is_difference(
            h,
            s.center.x,
            s.new_half.w,
            zoomed.position.x,
        ) && is_difference(h, s.center.y, s.new_half.h, zoomed.position.y) && zoomed.output
            == before.output;
    let least = v(Number { bits: 0x3f50_624d_d2f1_a9fc });
    let (sw, sh) = (v(before.source_size.w), v(before.source_size.h));
    assert(0real < least * sw) by (nonlinear_arith)
        requires
            0real < least,
            0real < sw,
    ;
    assert(0real < least * sh) by (nonlinear_arith)
        requires
            0real < least,
            0real < sh,
    ;
    assert(!zoomed.position.x.nan() && !zoomed.position.y.nan());
    clamping_is_the_shortest_way(h, v, zoomed, bounds, after);
}

/// A window without an area is shown in the proportions that its thumbnail has: pulling and zooming
/// keep them, where both sides are at least `1`.
pub proof fn thumbnails_without_a_window_keep_their_shape<H: Arithmetic + Outputs>(
    h: &H,
    v: spec_fn(Number) -> real,
    before: PipThumbnail,
    edges: ResizeEdge,
    pointer: Point,
    factor: Number,
    after: PipThumbnail,
)
    requires
        is_exact(h, v),
        before.source_size.w.le(Number { bits: 0 }) || before.source_size.h.le(Number { bits: 0 }),
        !before.size.w.nan(),
        !before.size.h.nan(),
        1real <= v(before.size.w),
        1real <= v(before.size.h),
        is_pulled(h, before, edges, pointer, after) || is_zoomed(h, before, factor, after),
    ensures
        v(after.size.w) * v(before.size.h) == v(after.size.h) * v(before.size.w),
{
    let one = Number { bits: 0x3ff0_0000_0000_0000 };
    assert(one.lt(before.size.w) || v(before.size.w) == 1real);
    assert(one.lt(before.size.h) || v(before.size.h) == 1real);
    let source = normalized(before.source_size, before.size);
    assert(v(source.w) == v(before.size.w) && v(source.h) == v(before.size.h));
    if is_pulled(h, before, edges, pointer, after) {
        let s = choose|s: PullSteps| #[trigger]
            is_pull_steps(h, before, edges, pointer, s) && is_scaled(
                h,
                source,
                s.wanted.clamped(s.least.lesser(s.max_scale), s.max_scale),
                after.size,
            );
        let k = s.wanted.clamped(s.least.lesser(s.max_scale), s.max_scale);
        assert(is_product(h, source.w, k, after.size.w));
        assert(is_product(h, source.h, k, after.size.h));
        lemma_proportions(v(source.w), v(source.h), v(k), v(after.size.w), v(after.size.h));
    } else {
        let s = choose|s: ZoomSteps| #[trigger]
            is_zoom_steps(h, before, factor, s) && is_scaled(
                h,
                source,
                s.wanted.clamped(s.least.lesser(s.max_scale), s.max_scale),
                after.size,
            );
        let k = s.wanted.clamped(s.least.lesser(s.max_scale), s.max_scale);
        assert(is_product(h, source.w, k, after.size.w));
        assert(is_product(h, source.h, k, after.size.h));
        lemma_proportions(v(source.w), v(source.h), v(k), v(after.size.w), v(after.size.h));
    }
}

/// A window without an area gets a thumbnail of a quarter of the output, and keeps the size of it
/// when a size without an area is noted; neither is smaller than `1`.
pub proof fn windows_without_an_area_get_a_quarter<H: Arithmetic + Outputs>(
    h: &H,
    v: spec_fn(Number) -> real,
    source_size: Size,
    bounds: Size,
    size: Size,
    before: PipThumbnail,
    after: PipThumbnail,
)
    requires
        is_exact(h, v),
        source_size.w.le(Number { bits: 0 }) || source_size.h.le(Number { bits: 0 }),
        is_thumbnail_size(h, source_size, bounds, size),
        !before.size.w.nan(),
        !before.size.h.nan(),
        is_refreshed(h, before, source_size, after),
    ensures
        v(size.w) == larger(1real, v(bounds.w) / 4real),
        v(size.h) == larger(1real, v(bounds.h) / 4real),
        after.source_size == source_size,
        v(after.size.w) == larger(1real, v(before.size.w)),
        v(after.size.h) == larger(1real, v(before.size.h)),
{
    let quarter = Number { bits: 0x3fd0_0000_0000_0000 };
    let part = choose|part: Size| #[trigger]
        is_scaled(h, bounds, quarter, part) && size == at_least_one(part);
    let (p, q) = (v(bounds.w), v(bounds.h));
    assert(p * (1real / 4real) == p / 4real) by (nonlinear_arith);
    assert(q * (1real / 4real) == q / 4real) by (nonlinear_arith);
    assert(is_product(h, bounds.w, quarter, part.w));
    assert(is_product(h, bounds.h, quarter, part.h));
    let fitted = choose|fitted: Size| #[trigger]
        is_fit(h, source_size, before.size, fitted) && is_clamped(
            h,
            PipThumbnail { source_size, size: fitted, ..before },
            after,
        );
    let one = Number { bits: 0x3ff0_0000_0000_0000 };
    assert(one.lt(before.size.w) <==> 1real < v(before.size.w));
    assert(one.lt(before.size.h) <==> 1real < v(before.size.h));
}

/// A grabbed thumbnail moves while the pointer is on its output, from the upper-left corner up to
/// the far edges, and waits while it is not.
pub proof fn drag_follows_on_the_output<H: Arithmetic + Outputs>(
    h: &H,
    v: spec_fn(Number) -> real,
    grab: PipPointerGrab,
    pos: Point,
    bounds: Size,
    before: PipManager,
    after: PipManager,
    effect: GrabEffect,
)
    requires
        is_exact(h, v),
        has_size(h, grab.spec_output(), bounds),
        !pos.x.nan(),
        !pos.y.nan(),
        grab.spec_mode() is Move,
        is_followed(h, grab, pos, before, after, effect),
    ensures
        0real <= v(pos.x) < v(bounds.w) && 0real <= v(pos.y) < v(bounds.h) ==> effect is Redraw,
        !(0real <= v(pos.x) < v(bounds.w) && 0real <= v(pos.y) < v(bounds.h)) ==> effect is Nothing
            && after == before,
{
    let zero = Number { bits: 0 };
    let area = Rectangle { loc: Point { x: zero, y: zero }, size: bounds };
    assert forall|on: bool| #[trigger] is_pointer_on(h, grab.spec_output(), pos, on) implies on == (
    0real <= v(pos.x) < v(bounds.w) && 0real <= v(pos.y) < v(bounds.h)) by {
        assert(is_inside(h, area, pos, on));
        inside_is_told_right(h, v, area, pos, on);
    }
}

/// Hovering marks the thumbnail with the identifier, unmarks all others, and changes nothing else.
pub proof fn hover_marks_what_is_under_the_pointer(
    s: Seq<PipThumbnail>,
    id: Option<PipId>,
    i: int,
)
    requires
        0 <= i < s.len(),
    ensures
        hovered(s, id).len() == s.len(),
        hovered(s, id)[i].is_hovered <==> id == Some(s[i].id),
        hovered(s, id)[i] == (PipThumbnail { is_hovered: id == Some(s[i].id), ..s[i] }),
{
}

/// The pointer is over the thumbnail that it hits, whatever part of it that is.
pub proof fn pointer_is_over_what_it_hits<A: Arithmetic>(
    a: &A,
    v: spec_fn(Number) -> real,
    s: Seq<PipThumbnail>,
    output: OutputId,
    pos: Point,
    id: Option<PipId>,
)
    requires
        is_exact(a, v),
        !pos.x.nan(),
        !pos.y.nan(),
        forall|i: int|
            0 <= i < s.len() ==> !(#[trigger] s[i]).position.x.nan() && !s[i].position.y.nan(),
        is_hit_id(a, s, output, pos, id),
    ensures
        id is None ==> forall|j: int| 0 <= j < s.len() ==> !is_at(v, #[trigger] s[j], output, pos),
        id matches Some(id) ==> exists|i: int|
            0 <= i < s.len() && is_at(v, #[trigger] s[i], output, pos) && s[i].id == id && (
            forall|j: int| i < j < s.len() ==> !is_at(v, #[trigger] s[j], output, pos)),
{
    let hit = choose|hit: Option<PipHit>| #[trigger]
        is_hit(a, s, output, pos, hit) && id == hit_id(hit);
    hits_are_told_by_distance(a, v, s, output, pos, hit);
}

/// A thumbnail has moved exactly where it is somewhere else than before.
pub proof fn moves_are_noticed(
    v: spec_fn(Number) -> real,
    before: Seq<PipThumbnail>,
    after: Seq<PipThumbnail>,
    i: int,
)
    requires
        is_reading(v),
        !before[i].position.x.nan(),
        !before[i].position.y.nan(),
        !after[i].position.x.nan(),
        !after[i].position.y.nan(),
    ensures
        has_moved(before, after, i) <==> v(before[i].position.x) != v(after[i].position.x) || v(
            before[i].position.y,
        ) != v(after[i].position.y),
{
    let (p, q) = (before[i].position, after[i].position);
    assert(p.x.le(q.x) <==> v(p.x) <= v(q.x));
    assert(q.x.le(p.x) <==> v(q.x) <= v(p.x));
    assert(p.y.le(q.y) <==> v(p.y) <= v(q.y));
    assert(q.y.le(p.y) <==> v(q.y) <= v(p.y));
}

} // verus!
