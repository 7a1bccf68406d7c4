//! What holds of thumbnails across operations.
use crate::geometry::{
    is_far_corner, is_inside, is_pixel_size, PixelSize, Point, Rectangle, ResizeEdge, Size,
};
use crate::number::{
    is_difference, is_product, is_quotient, is_steady, is_sum, stays_within, Arithmetic, Number,
    TWO,
};
use crate::pip::{
    any, changed_where, hit_id, hovered, is_changed, is_first, is_hit, is_hit_at, is_margin_place,
    is_missed, is_raised, is_refreshed, is_toggled, is_under, lemma_filter_all, lemma_outputs_empty,
    move_to, outputs_of, pull_to, refresh_to, well_formed, with_id, with_output, with_source,
    without, zoom_by, PipHit, PipManager,
};
use crate::pip_grab::{is_followed, is_pointer_on, GrabEffect, PipPointerGrab};
use crate::pip_render::{
    close_button, front_to_back, is_drawn, is_drawn_in_parts, window_of, PipRenderElement,
    RenderContext, WindowRenderer,
};
use crate::thumbnail::{
    at_least_one, clamped_position, degenerate, is_clamped, is_fit, is_fit_scale, is_lowered,
    is_output_size, is_proportional, is_proportional_width, is_pull_steps, is_pulled, is_room,
    is_scaled, is_thumbnail_size, is_zoom_steps, is_zoomed, normalized, one, zero, LEAST_SCALE,
    MARGIN, OUTPUT_FRACTION, OutputId, Outputs, PipId, PipThumbnail, PullSteps, ZoomSteps,
};
use crate::window::{Mapped, MappedId};
use vstd::prelude::*;

verus! {

/// A removal keeps a thumbnail exactly where it is not selected.
pub proof fn removal_is_exact(s: Seq<PipThumbnail>, p: spec_fn(PipThumbnail) -> bool)
    ensures
        !any(s.filter(without(p)), p),
        forall|thumb: PipThumbnail|
            s.filter(without(p)).contains(thumb) <==> s.contains(thumb) && !p(thumb),
    decreases s.len(),
{
    reveal(Seq::filter);
    let kept = s.filter(without(p));
    if s.len() > 0 {
        let rest = s.drop_last();
        let last = s.last();
        removal_is_exact(rest, p);
        assert(s =~= rest.push(last));
        assert forall|thumb: PipThumbnail| s.contains(thumb) <==> rest.contains(thumb) || thumb
            == last by {
            if rest.contains(thumb) {
                let i = rest.index_of(thumb);
                assert(s[i] == thumb);
            }
            assert(s[s.len() - 1] == last);
            if s.contains(thumb) {
                let i = s.index_of(thumb);
                if i < rest.len() {
                    assert(rest[i] == thumb);
                }
            }
        }
        let r = rest.filter(without(p));
        if !p(last) {
            assert(kept == r.push(last));
            assert forall|thumb: PipThumbnail| kept.contains(thumb) <==> r.contains(thumb) || thumb
                == last by {
                if r.contains(thumb) {
                    let i = r.index_of(thumb);
                    assert(kept[i] == thumb);
                }
                assert(kept[kept.len() - 1] == last);
                if kept.contains(thumb) {
                    let i = kept.index_of(thumb);
                    if i < r.len() {
                        assert(r[i] == thumb);
                    }
                }
            }
            assert forall|i: int| 0 <= i < kept.len() implies !p(#[trigger] kept[i]) by {
                if i < r.len() {
                    assert(r[i] == kept[i]);
                }
            }
        } else {
            assert(kept == r);
        }
    }
}

/// The outputs to redraw are those that show a selected thumbnail, and none is listed twice.
pub proof fn redraw_is_exact(s: Seq<PipThumbnail>, p: spec_fn(PipThumbnail) -> bool)
    ensures
        outputs_of(s, p).no_duplicates(),
        forall|output: OutputId|
            outputs_of(s, p).contains(output) <==> any(
                s,
                |thumb: PipThumbnail| p(thumb) && thumb.output == output,
            ),
    decreases s.len(),
{
    if s.len() > 0 {
        let rest = s.drop_last();
        let last = s.last();
        redraw_is_exact(rest, p);
        let listed = outputs_of(rest, p);
        let all = outputs_of(s, p);
        assert forall|output: OutputId| all.contains(output) <==> any(
            s,
            |thumb: PipThumbnail| p(thumb) && thumb.output == output,
        ) by {
            let q = |thumb: PipThumbnail| p(thumb) && thumb.output == output;
            assert(any(s, q) <==> any(rest, q) || q(last)) by {
                if any(rest, q) {
                    let i = choose|i: int| 0 <= i < rest.len() && q(#[trigger] rest[i]);
                    assert(q(s[i]));
                }
                assert(s[s.len() - 1] == last);
                if any(s, q) {
                    let i = choose|i: int| 0 <= i < s.len() && q(#[trigger] s[i]);
                    if i < rest.len() {
                        assert(q(rest[i]));
                    }
                }
            }
            if p(last) && !listed.contains(last.output) {
                assert(all == listed.push(last.output));
                assert(all.contains(output) <==> listed.contains(output) || output == last.output)
                    by {
                    if listed.contains(output) {
                        let i = listed.index_of(output);
                        assert(all[i] == output);
                    }
                    assert(all[all.len() - 1] == last.output);
                    if all.contains(output) {
                        let i = all.index_of(output);
                        if i < listed.len() {
                            assert(listed[i] == output);
                        }
                    }
                }
            }
        }
        if p(last) && !listed.contains(last.output) {
            assert(all == listed.push(last.output));
            assert forall|i: int, j: int| 0 <= i < j < all.len() implies all[i] != all[j] by {
                if j == listed.len() {
                    assert(listed.contains(listed[i]));
                }
            }
        }
    }
}

/// Toggling a window that has no thumbnail twice leaves the thumbnails as they were, and both
/// times the output that showed the thumbnail is redrawn.
pub proof fn toggle_twice_restores<H: Arithmetic + Outputs, K: Arithmetic + Outputs>(
    h: &H,
    k: &K,
    start: PipManager,
    source_id: MappedId,
    first_size: PixelSize,
    first_output: OutputId,
    middle: PipManager,
    first_redraw: Seq<OutputId>,
    second_size: PixelSize,
    second_output: OutputId,
    end: PipManager,
    second_redraw: Seq<OutputId>,
)
    requires
        !any(start@, with_source(source_id)),
        is_toggled(h, start, source_id, first_size, first_output, middle, first_redraw),
        is_toggled(k, middle, source_id, second_size, second_output, end, second_redraw),
    ensures
        end@ == start@,
        first_redraw == seq![first_output],
        second_redraw == seq![first_output],
{
    let p = with_source(source_id);
    let s = start@;
    let t = middle@;
    assert(p(t[t.len() - 1]));
    assert(any(t, p));
    reveal(Seq::filter);
    lemma_filter_all(s, without(p));
    assert(t.drop_last() == s);
    assert(t.filter(without(p)) == s);
    lemma_outputs_empty(s, p);
    assert(outputs_of(t, p) =~= seq![first_output]);
}

/// After toggling, a window has a thumbnail exactly where it had none before.
pub proof fn toggle_flips<H: Arithmetic + Outputs>(
    h: &H,
    before: PipManager,
    source_id: MappedId,
    source_size: PixelSize,
    output: OutputId,
    after: PipManager,
    redraw: Seq<OutputId>,
)
    requires
        is_toggled(h, before, source_id, source_size, output, after, redraw),
    ensures
        any(after@, with_source(source_id)) == !any(before@, with_source(source_id)),
{
    let p = with_source(source_id);
    if any(before@, p) {
        removal_is_exact(before@, p);
    } else {
        assert(p(after@[after@.len() - 1]));
    }
}

/// An identifier is not used again: toggling never lowers the next one, and a thumbnail that it
/// adds has an identifier that no thumbnail had before.
pub proof fn identifiers_are_fresh<H: Arithmetic + Outputs>(
    h: &H,
    before: PipManager,
    source_id: MappedId,
    source_size: PixelSize,
    output: OutputId,
    after: PipManager,
    redraw: Seq<OutputId>,
)
    requires
        before.wf(),
        is_toggled(h, before, source_id, source_size, output, after, redraw),
    ensures
        before.next() <= after.next(),
        !any(before@, with_source(source_id)) ==> !any(before@, with_id(after@.last().id)),
{
}

/// A new thumbnail lies on top: where the point is in it, it is the one that is hit.
pub proof fn new_thumbnail_is_on_top<H: Arithmetic + Outputs>(
    h: &H,
    before: PipManager,
    source_id: MappedId,
    source_size: PixelSize,
    output: OutputId,
    after: PipManager,
    redraw: Seq<OutputId>,
    pos: Point,
)
    requires
        !any(before@, with_source(source_id)),
        is_toggled(h, before, source_id, source_size, output, after, redraw),
        is_inside(h, after@.last().area(), pos, true),
    ensures
        is_hit_at(h, after@, output, pos, after@.len() - 1),
{
}

/// A raised thumbnail lies on top, and nothing but the order has changed.
pub proof fn raised_thumbnail_is_on_top<A: Arithmetic>(
    a: &A,
    before: Seq<PipThumbnail>,
    id: PipId,
    after: Seq<PipThumbnail>,
    changed: bool,
    pos: Point,
)
    requires
        any(before, with_id(id)),
        forall|i: int, j: int|
            0 <= i < j < before.len() ==> (#[trigger] before[i]).id != (#[trigger] before[j]).id,
        is_raised(before, id, after, changed),
    ensures
        after.len() == before.len(),
        after.last().id == id,
        is_inside(a, after.last().area(), pos, true) ==> is_hit_at(
            a,
            after,
            after.last().output,
            pos,
            after.len() - 1,
        ),
        changed == (after != before),
        after.to_multiset() == before.to_multiset(),
{
    let i = choose|i: int| #[trigger]
        is_first(before, with_id(id), i) && after == before.remove(i).push(before[i]) && changed
            == (i + 1 < before.len());
    let rest = before.remove(i);
    vstd::seq_lib::to_multiset_remove(before, i);
    broadcast use vstd::seq_lib::group_to_multiset_ensures;

    assert(after.to_multiset() =~= before.to_multiset());
    if changed && after == before {
        assert(after[i] == before[i + 1]);
    }
    if !changed {
        assert(after =~= before);
    }
}

/// What is hit is a thumbnail of the output that was asked about.
pub proof fn hit_is_on_the_output<A: Arithmetic>(
    a: &A,
    s: Seq<PipThumbnail>,
    output: OutputId,
    pos: Point,
    hit: PipHit,
)
    requires
        is_hit(a, s, output, pos, Some(hit)),
    ensures
        any(s, |thumb: PipThumbnail| thumb.id == hit.id && thumb.output == output),
{
    let p = |thumb: PipThumbnail| thumb.id == hit.id && thumb.output == output;
    let i = choose|i: int| #[trigger] is_hit_at(a, s, output, pos, i) && hit.id == s[i].id;
    assert(p(s[i]));
}

/// Marking the same thumbnail again changes nothing, and at most one thumbnail is marked.
pub proof fn hover_is_single(s: Seq<PipThumbnail>, next: PipId, id: Option<PipId>)
    requires
        well_formed(s, next),
    ensures
        hovered(hovered(s, id), id) == hovered(s, id),
        forall|i: int, j: int|
            0 <= i < j < s.len() ==> !((#[trigger] hovered(s, id)[i]).is_hovered && (
            #[trigger] hovered(s, id)[j]).is_hovered),
{
    assert(hovered(hovered(s, id), id) =~= hovered(s, id));
}

/// Without a pointer nothing is hovered.
pub proof fn no_pointer_clears_hover<A: Arithmetic>(
    a: &A,
    s: Seq<PipThumbnail>,
    id: Option<PipId>,
)
    requires
        is_under(a, s, None, id),
    ensures
        forall|i: int| 0 <= i < s.len() ==> !(#[trigger] hovered(s, id)[i]).is_hovered,
{
}

/// A clamped thumbnail lies within its output, unless its position is not a number: neither
/// coordinate is negative, nor past what the output leaves beside the thumbnail.
pub proof fn clamped_is_on_output<H: Arithmetic + Outputs>(
    h: &H,
    before: PipThumbnail,
    after: PipThumbnail,
)
    requires
        is_clamped(h, before, after),
        !before.position.x.nan(),
        !before.position.y.nan(),
    ensures
        is_on_output(h, after),
        after == (PipThumbnail { position: after.position, ..before }),
{
    let room = choose|room: Size| #[trigger]
        is_room(h, before.output, before.size, room) && after == (PipThumbnail {
            position: clamped_position(before.position, room),
            ..before
        });
    assert(is_room(h, after.output, after.size, room));
}

/// The thumbnail's position is within the room that its output leaves.
pub open spec fn is_on_output<H: Arithmetic + Outputs>(h: &H, thumb: PipThumbnail) -> bool {
    exists|room: Size| #[trigger]
        is_room(h, thumb.output, thumb.size, room) && zero().le(thumb.position.x)
            && thumb.position.x.le(zero().greater(room.w)) && zero().le(thumb.position.y)
            && thumb.position.y.le(zero().greater(room.h))
}

/// Moving keeps a thumbnail on its output and changes nothing but its position.
pub proof fn move_stays_on_output<H: Arithmetic + Outputs>(
    h: &H,
    position: Point,
    before: PipThumbnail,
    after: PipThumbnail,
)
    requires
        move_to(h, position)(before, after),
        !position.x.nan(),
        !position.y.nan(),
    ensures
        is_on_output(h, after),
        after == (PipThumbnail { position: after.position, ..before }),
{
    clamped_is_on_output(h, PipThumbnail { position, ..before }, after);
}

/// Resizing changes nothing but position and size.
pub proof fn resize_keeps_identity<H: Arithmetic + Outputs>(
    h: &H,
    edges: ResizeEdge,
    pointer: Point,
    factor: Number,
    before: PipThumbnail,
    after: PipThumbnail,
)
    requires
        pull_to(h, edges, pointer)(before, after) || zoom_by(h, factor)(before, after),
    ensures
        after == (PipThumbnail { position: after.position, size: after.size, ..before }),
{
}

/// Resizing keeps the proportions of the window: both sides are those of the window, times one
/// scale.
pub proof fn resize_keeps_proportions<H: Arithmetic + Outputs>(
    h: &H,
    edges: ResizeEdge,
    pointer: Point,
    factor: Number,
    before: PipThumbnail,
    after: PipThumbnail,
)
    requires
        pull_to(h, edges, pointer)(before, after) || zoom_by(h, factor)(before, after),
    ensures
        exists|scale: Number| #[trigger]
            is_scaled(h, normalized(before.source_size, before.size), scale, after.size),
{
    let source = normalized(before.source_size, before.size);
    if pull_to(h, edges, pointer)(before, after) {
        let pulled = choose|pulled: PipThumbnail| #[trigger]
            is_pulled(h, before, edges, pointer, pulled) && is_clamped(h, pulled, after);
        let s = choose|s: PullSteps| #[trigger]
            is_pull_steps(h, before, edges, pointer, s) && is_scaled(
                h,
                source,
                s.wanted.clamped(s.least.lesser(s.max_scale), s.max_scale),
                pulled.size,
            );
        assert(is_scaled(
            h,
            source,
            s.wanted.clamped(s.least.lesser(s.max_scale), s.max_scale),
            after.size,
        ));
    } else {
        let zoomed = choose|zoomed: PipThumbnail| #[trigger]
            is_zoomed(h, before, factor, zoomed) && is_clamped(h, zoomed, after);
        let s = choose|s: ZoomSteps| #[trigger]
            is_zoom_steps(h, before, factor, s) && is_scaled(
                h,
                source,
                s.wanted.clamped(s.least.lesser(s.max_scale), s.max_scale),
                zoomed.size,
            );
        assert(is_scaled(
            h,
            source,
            s.wanted.clamped(s.least.lesser(s.max_scale), s.max_scale),
            after.size,
        ));
    }
}

/// Clamping into the same room again changes nothing.
pub proof fn clamp_is_idempotent(position: Point, room: Size)
    ensures
        clamped_position(clamped_position(position, room), room) == clamped_position(
            position,
            room,
        ),
{
}

/// Noting a new window size stores it, and keeps everything but position and size.
pub proof fn refresh_stores_the_size<H: Arithmetic + Outputs>(
    h: &H,
    before: PipThumbnail,
    source_size: Size,
    after: PipThumbnail,
)
    requires
        is_refreshed(h, before, source_size, after),
    ensures
        after == (PipThumbnail {
            position: after.position,
            size: after.size,
            source_size,
            ..before
        }),
{
}

/// A scale between the bounds stays, and any other is brought to a bound.
pub proof fn scale_is_bounded(wanted: Number, least: Number, max_scale: Number)
    requires
        !wanted.nan(),
        !max_scale.nan(),
    ensures
        least.lesser(max_scale).le(
            wanted.clamped(least.lesser(max_scale), max_scale),
        ),
        wanted.clamped(least.lesser(max_scale), max_scale).le(max_scale),
{
}

/// Nothing is drawn on an output without thumbnails.
pub proof fn empty_output_draws_nothing<E, H: Arithmetic + WindowRenderer<E>>(
    h: &H,
    ctx: RenderContext,
    s: Seq<PipThumbnail>,
    windows: Seq<Mapped>,
    output: OutputId,
    parts: Seq<Seq<PipRenderElement<E>>>,
)
    requires
        !any(s, with_output(output)),
        is_drawn_in_parts(h, ctx, s, windows, output, parts),
    ensures
        front_to_back(parts).len() == 0,
    decreases s.len(),
{
    if s.len() > 0 {
        let rest = s.drop_last();
        let fewer = parts.drop_last();
        assert(!with_output(output)(s[s.len() - 1]));
        assert(parts[s.len() - 1].len() == 0);
        assert forall|i: int| 0 <= i < rest.len() implies !with_output(output)(#[trigger] rest[i]) by {
            assert(rest[i] == s[i]);
        }
        assert forall|i: int| 0 <= i < rest.len() implies if rest[i].output == output {
            is_drawn(h, ctx, rest[i], windows, #[trigger] fewer[i])
        } else {
            fewer[i].len() == 0
        } by {
            assert(rest[i] == s[i]);
            assert(fewer[i] == parts[i]);
        }
        empty_output_draws_nothing(h, ctx, rest, windows, output, fewer);
    }
}

/// A thumbnail whose window is gone shows nothing but its close button while hovered.
pub proof fn gone_window_shows_nothing<E, H: Arithmetic + WindowRenderer<E>>(
    h: &H,
    ctx: RenderContext,
    thumb: PipThumbnail,
    windows: Seq<Mapped>,
    elements: Seq<PipRenderElement<E>>,
)
    requires
        window_of(windows, thumb.source_id) is None,
        is_drawn(h, ctx, thumb, windows, elements),
    ensures
        elements == (if thumb.is_hovered {
            seq![close_button::<E>(thumb)]
        } else {
            Seq::empty()
        }),
{
}

/// The close button is hit where it is drawn.
pub proof fn button_is_hit_where_it_is_drawn<E>(thumb: PipThumbnail)
    ensures
        close_button::<E>(thumb) matches PipRenderElement::SolidColor { size, position, .. }
            && (Rectangle { loc: position, size }) == thumb.button_area(),
{
}

/// A new thumbnail is a quarter as wide as the output and keeps the proportions of its window. It
/// is smaller only where it would be too high. For a window without an area it is a quarter of the
/// output.
pub proof fn new_thumbnail_is_a_quarter_wide<H: Arithmetic + Outputs>(
    h: &H,
    before: PipManager,
    source_id: MappedId,
    source_size: PixelSize,
    output: OutputId,
    after: PipManager,
    redraw: Seq<OutputId>,
)
    requires
        !any(before@, with_source(source_id)),
        is_toggled(h, before, source_id, source_size, output, after, redraw),
    ensures
        degenerate(after@.last().source_size) ==> exists|bounds: Size, part: Size|
            #![trigger is_output_size(h, output, bounds), is_scaled(h, bounds, Number { bits: OUTPUT_FRACTION }, part)]
            is_output_size(h, output, bounds) && is_scaled(
                h,
                bounds,
                Number { bits: OUTPUT_FRACTION },
                part,
            ) && after@.last().size == at_least_one(part),
        !degenerate(after@.last().source_size) ==> exists|bounds: Size, w: Number, wide: Size|
            #![trigger is_output_size(h, output, bounds), is_product(h, bounds.w, Number { bits: OUTPUT_FRACTION }, w), is_proportional(h, after@.last().source_size, wide)]
            is_output_size(h, output, bounds) && is_product(
                h,
                bounds.w,
                Number { bits: OUTPUT_FRACTION },
                w,
            ) && is_proportional(h, after@.last().source_size, wide) && wide.w == one().greater(w)
                && (after@.last().size == wide || (after@.last().size.h.lt(wide.h)
                && is_proportional_width(h, after@.last().source_size, after@.last().size))),
{
    let thumb = after@.last();
    let fraction = Number { bits: OUTPUT_FRACTION };
    let bounds = choose|bounds: Size| #[trigger]
        is_output_size(h, output, bounds) && is_thumbnail_size(
            h,
            thumb.source_size,
            bounds,
            thumb.size,
        );
    if degenerate(thumb.source_size) {
        let part = choose|part: Size| #[trigger]
            is_scaled(h, bounds, fraction, part) && thumb.size == at_least_one(part);
        assert(is_scaled(h, bounds, fraction, part));
    } else {
        let (w, rest, wide) = lemma_thumbnail_size(h, thumb.source_size, bounds, thumb.size);
        assert(is_proportional(h, thumb.source_size, wide));
    }
}

/// What the size of a new thumbnail was made from.
pub(crate) proof fn lemma_thumbnail_size<A: Arithmetic>(
    a: &A,
    source: Size,
    output: Size,
    size: Size,
) -> (r: (Number, Number, Size))
    requires
        is_thumbnail_size(a, source, output, size),
        !degenerate(source),
    ensures
        is_product(a, output.w, Number { bits: OUTPUT_FRACTION }, r.0),
        is_difference(a, output.h, Number { bits: MARGIN }, r.1),
        is_proportional(a, source, r.2),
        r.2.w == one().greater(r.0),
        is_lowered(a, source, r.2, one().greater(r.1), size),
{
    let fraction = Number { bits: OUTPUT_FRACTION };
    let margin = Number { bits: MARGIN };
    choose|w: Number, rest: Number, wide: Size|
        #![trigger is_product(a, output.w, fraction, w), is_difference(a, output.h, margin, rest), is_proportional(a, source, wide)]
        is_product(a, output.w, fraction, w) && is_difference(a, output.h, margin, rest)
            && is_proportional(a, source, wide) && wide.w == one().greater(w) && is_lowered(
            a,
            source,
            wide,
            one().greater(rest),
            size,
        )
}

/// A new thumbnail of a window that has an area is no higher than what the output leaves beside
/// the margin, or than `1` where that is less.
pub proof fn new_thumbnail_leaves_a_margin<H: Arithmetic + Outputs>(
    h: &H,
    before: PipManager,
    source_id: MappedId,
    source_size: PixelSize,
    output: OutputId,
    after: PipManager,
    redraw: Seq<OutputId>,
)
    requires
        !any(before@, with_source(source_id)),
        is_toggled(h, before, source_id, source_size, output, after, redraw),
        !degenerate(after@.last().source_size),
    ensures
        exists|bounds: Size, rest: Number|
            #![trigger is_output_size(h, output, bounds), is_difference(h, bounds.h, Number { bits: MARGIN }, rest)]
            is_output_size(h, output, bounds) && is_difference(
                h,
                bounds.h,
                Number { bits: MARGIN },
                rest,
            ) && (after@.last().size.h.nan() || after@.last().size.h.le(one().greater(rest))),
{
    let thumb = after@.last();
    let bounds = choose|bounds: Size| #[trigger]
        is_output_size(h, output, bounds) && is_thumbnail_size(
            h,
            thumb.source_size,
            bounds,
            thumb.size,
        );
    let (w, rest, wide) = lemma_thumbnail_size(h, thumb.source_size, bounds, thumb.size);
    assert(is_difference(h, bounds.h, Number { bits: MARGIN }, rest));
}

/// Taking away what is not negative does not make more.
pub open spec fn takes_away<A: Arithmetic>(a: &A) -> bool {
    forall|x: Number, y: Number, d: Number| #[trigger]
        is_difference(a, x, y, d) && zero().le(y) ==> d.nan() || d.le(x)
}

/// A new thumbnail is on its output, where taking away the margin does not make more.
pub proof fn new_thumbnail_is_on_output<H: Arithmetic + Outputs>(
    h: &H,
    before: PipManager,
    source_id: MappedId,
    source_size: PixelSize,
    output: OutputId,
    after: PipManager,
    redraw: Seq<OutputId>,
)
    requires
        takes_away(h),
        !any(before@, with_source(source_id)),
        is_toggled(h, before, source_id, source_size, output, after, redraw),
    ensures
        is_on_output(h, after@.last()),
{
    let thumb = after@.last();
    let margin = Number { bits: MARGIN };
    let bounds = choose|bounds: Size| #[trigger]
        is_output_size(h, output, bounds) && is_margin_place(
            h,
            bounds.w,
            thumb.size.w,
            thumb.position.x,
        ) && is_margin_place(h, bounds.h, thumb.size.h, thumb.position.y);
    let (w, x) = choose|room: Number, rest: Number|
        #![trigger is_difference(h, bounds.w, thumb.size.w, room), is_difference(h, room, margin, rest)]
        is_difference(h, bounds.w, thumb.size.w, room) && is_difference(h, room, margin, rest)
            && thumb.position.x == zero().greater(rest);
    let (v, y) = choose|room: Number, rest: Number|
        #![trigger is_difference(h, bounds.h, thumb.size.h, room), is_difference(h, room, margin, rest)]
        is_difference(h, bounds.h, thumb.size.h, room) && is_difference(h, room, margin, rest)
            && thumb.position.y == zero().greater(rest);
    assert(is_room(h, thumb.output, thumb.size, Size { w, h: v }));
}

/// While the pointer is off the output, a thumbnail that is being moved stays where it is.
pub proof fn drag_waits_off_the_output<H: Arithmetic + Outputs>(
    h: &H,
    grab: PipPointerGrab,
    pos: Point,
    before: PipManager,
    after: PipManager,
    effect: GrabEffect,
)
    requires
        grab.spec_mode() is Move,
        !is_pointer_on(h, grab.spec_output(), pos, true),
        is_followed(h, grab, pos, before, after, effect),
    ensures
        after == before,
        effect == GrabEffect::Nothing,
{
}

/// Whether a point is inside has one answer.
proof fn lemma_inside_is_steady<A: Arithmetic>(
    a: &A,
    rect: Rectangle,
    pos: Point,
    p: bool,
    q: bool,
)
    requires
        is_steady(a),
        is_inside(a, rect, pos, p),
        is_inside(a, rect, pos, q),
    ensures
        p == q,
{
    let f = choose|far: Point| #[trigger]
        is_far_corner(a, rect, far) && p == pos.within(rect.loc, far);
    let g = choose|far: Point| #[trigger]
        is_far_corner(a, rect, far) && q == pos.within(rect.loc, far);
    assert(f.x == g.x && f.y == g.y);
}

/// What is hit depends on where the thumbnails are, and not on what is hovered.
proof fn lemma_hit_is_steady<A: Arithmetic>(
    a: &A,
    s: Seq<PipThumbnail>,
    id: Option<PipId>,
    output: OutputId,
    pos: Point,
    first: Option<PipHit>,
    second: Option<PipHit>,
)
    requires
        is_steady(a),
        is_hit(a, s, output, pos, first),
        is_hit(a, hovered(s, id), output, pos, second),
    ensures
        hit_id(first) == hit_id(second),
{
    let t = hovered(s, id);
    assert forall|i: int| 0 <= i < s.len() implies (#[trigger] t[i]).area() == s[i].area()
        && t[i].output == s[i].output && t[i].id == s[i].id by {}
    if let Some(hit) = first {
        let i = choose|i: int| #[trigger]
            is_hit_at(a, s, output, pos, i) && hit.id == s[i].id;
        assert(t[i].area() == s[i].area());
        if let Some(other) = second {
            let j = choose|j: int| #[trigger]
                is_hit_at(a, t, output, pos, j) && other.id == t[j].id;
            assert(t[j].area() == s[j].area());
            if i < j {
                assert(is_missed(a, s[j], output, pos));
                lemma_inside_is_steady(a, s[j].area(), pos, true, false);
            } else if j < i {
                assert(is_missed(a, t[i], output, pos));
                lemma_inside_is_steady(a, s[i].area(), pos, true, false);
            }
        } else {
            assert(is_missed(a, t[i], output, pos));
            lemma_inside_is_steady(a, s[i].area(), pos, true, false);
        }
    } else if let Some(other) = second {
        let j = choose|j: int| #[trigger]
            is_hit_at(a, t, output, pos, j) && other.id == t[j].id;
        assert(t[j].area() == s[j].area());
        assert(is_missed(a, s[j], output, pos));
        lemma_inside_is_steady(a, s[j].area(), pos, true, false);
    }
}

/// Updating the hover again with the same pointer changes nothing, where every question has one
/// answer.
pub proof fn hover_settles<A: Arithmetic>(
    a: &A,
    s: Seq<PipThumbnail>,
    pointer: Option<(OutputId, Point)>,
    first: Option<PipId>,
    second: Option<PipId>,
)
    requires
        is_steady(a),
        is_under(a, s, pointer, first),
        is_under(a, hovered(s, first), pointer, second),
    ensures
        second == first,
        hovered(hovered(s, first), second) == hovered(s, first),
{
    if let Some((output, pos)) = pointer {
        let x = choose|hit: Option<PipHit>| #[trigger]
            is_hit(a, s, output, pos, hit) && first == hit_id(hit);
        let y = choose|hit: Option<PipHit>| #[trigger]
            is_hit(a, hovered(s, first), output, pos, hit) && second == hit_id(hit);
        lemma_hit_is_steady(a, s, first, output, pos, x, y);
    }
    assert(hovered(hovered(s, first), second) =~= hovered(s, first));
}

/// Every output has one size.
pub open spec fn has_steady_outputs<H: Outputs>(h: &H) -> bool {
    forall|output: OutputId, r: Size, s: Size| #[trigger]
        is_output_size(h, output, r) && #[trigger] is_output_size(h, output, s) ==> r == s
}

/// Dividing a scaled side by the side gives the scale back.
pub open spec fn comes_back<A: Arithmetic>(a: &A, side: Number, scale: Number) -> bool {
    forall|p: Number, q: Number| #[trigger]
        is_product(a, side, scale, p) && #[trigger] is_quotient(a, p, side, q) ==> q == scale
}

/// Dividing gives back every scale at which the source fits into the bounds.
pub open spec fn fits_exactly<A: Arithmetic>(a: &A, source: Size, bounds: Size) -> bool {
    forall|scale: Number| #[trigger]
        is_fit_scale(a, source, bounds, scale) ==> comes_back(a, source.w, scale) && comes_back(
            a,
            source.h,
            scale,
        )
}

/// Fitting what was fitted changes nothing.
proof fn lemma_fit_settles<A: Arithmetic>(
    a: &A,
    source: Size,
    bounds: Size,
    once: Size,
    twice: Size,
)
    requires
        is_steady(a),
        fits_exactly(a, source, bounds),
        is_fit(a, source, bounds, once),
        is_fit(a, source, once, twice),
    ensures
        twice == once,
{
    if !degenerate(source) {
        let k = choose|scale: Number| #[trigger]
            is_fit_scale(a, source, bounds, scale) && is_scaled(a, source, scale, once);
        let l = choose|scale: Number| #[trigger]
            is_fit_scale(a, source, once, scale) && is_scaled(a, source, scale, twice);
        let (x, y) = choose|x: Number, y: Number|
            #![trigger is_quotient(a, once.w, source.w, x), is_quotient(a, once.h, source.h, y)]
            is_quotient(a, once.w, source.w, x) && is_quotient(a, once.h, source.h, y) && l
                == x.lesser(y).greater(Number { bits: LEAST_SCALE });
        assert(comes_back(a, source.w, k) && comes_back(a, source.h, k));
        assert(x == k && y == k);
        assert(l == k);
    }
}

/// Moving onto the output what was moved onto it changes nothing.
proof fn lemma_clamp_settles<H: Arithmetic + Outputs>(
    h: &H,
    before: PipThumbnail,
    once: PipThumbnail,
    twice: PipThumbnail,
)
    requires
        is_steady(h),
        has_steady_outputs(h),
        is_clamped(h, before, once),
        is_clamped(h, once, twice),
    ensures
        twice == once,
{
    let r = choose|room: Size| #[trigger]
        is_room(h, before.output, before.size, room) && once == (PipThumbnail {
            position: clamped_position(before.position, room),
            ..before
        });
    let q = choose|room: Size| #[trigger]
        is_room(h, once.output, once.size, room) && twice == (PipThumbnail {
            position: clamped_position(once.position, room),
            ..once
        });
    assert(r.w == q.w && r.h == q.h);
    clamp_is_idempotent(before.position, r);
}

/// Noting the same window size again changes nothing, where every question has one answer and the
/// scales come back unrounded.
pub proof fn refresh_settles<H: Arithmetic + Outputs>(
    h: &H,
    start: Seq<PipThumbnail>,
    source_id: MappedId,
    size: PixelSize,
    first: Size,
    middle: Seq<PipThumbnail>,
    second: Size,
    end: Seq<PipThumbnail>,
)
    requires
        is_steady(h),
        has_steady_outputs(h),
        forall|i: int|
            0 <= i < start.len() && (#[trigger] start[i]).source_id == source_id ==> fits_exactly(
                h,
                first,
                start[i].size,
            ),
        is_pixel_size(h, size, first),
        changed_where(start, with_source(source_id), refresh_to(h, first), middle),
        is_pixel_size(h, size, second),
        changed_where(middle, with_source(source_id), refresh_to(h, second), end),
    ensures
        second == first,
        end == middle,
{
    assert(first.w == second.w && first.h == second.h);
    assert forall|i: int| 0 <= i < start.len() implies end[i] == middle[i] by {
        let before = start[i];
        let once = middle[i];
        let twice = end[i];
        if before.source_id == source_id {
            assert(refresh_to(h, first)(before, once));
            let fitted = choose|fitted: Size| #[trigger]
                is_fit(h, first, before.size, fitted) && is_clamped(
                    h,
                    PipThumbnail { source_size: first, size: fitted, ..before },
                    once,
                );
            assert(once.source_id == source_id && once.size == fitted);
            assert(refresh_to(h, second)(once, twice));
            let again = choose|again: Size| #[trigger]
                is_fit(h, first, once.size, again) && is_clamped(
                    h,
                    PipThumbnail { source_size: first, size: again, ..once },
                    twice,
                );
            lemma_fit_settles(h, first, before.size, fitted, again);
            assert(once == PipThumbnail { source_size: first, size: again, ..once });
            lemma_clamp_settles(
                h,
                PipThumbnail { source_size: first, size: fitted, ..before },
                once,
                twice,
            );
        }
    }
    assert(end =~= middle);
}

/// A side scaled by just what the bound allows is the bound.
pub open spec fn fills<A: Arithmetic>(a: &A, side: Number, bound: Number) -> bool {
    forall|k: Number, p: Number|
        #![trigger is_quotient(a, bound, side, k), is_product(a, side, k, p)]
        is_quotient(a, bound, side, k) && is_product(a, side, k, p) ==> p == bound
}

/// The least scale is not needed: the source fits into the bounds without it.
pub open spec fn is_scalable<A: Arithmetic>(a: &A, source: Size, bounds: Size) -> bool {
    let least = Number { bits: LEAST_SCALE };
    &&& forall|k: Number| #[trigger] is_quotient(a, bounds.w, source.w, k) ==> least.le(k)
    &&& forall|k: Number| #[trigger] is_quotient(a, bounds.h, source.h, k) ==> least.le(k)
}

/// After a new window size was noted, the thumbnail has the proportions of the window, lies within
/// the area that it had, and touches it on one side, where no rounding gets in the way.
pub proof fn refresh_fills_the_area<H: Arithmetic + Outputs>(
    h: &H,
    before: PipThumbnail,
    source_size: Size,
    after: PipThumbnail,
)
    requires
        !degenerate(source_size),
        is_scalable(h, source_size, before.size),
        stays_within(h, source_size.w, before.size.w),
        stays_within(h, source_size.h, before.size.h),
        fills(h, source_size.w, before.size.w),
        fills(h, source_size.h, before.size.h),
        is_refreshed(h, before, source_size, after),
    ensures
        after.source_size == source_size,
        exists|scale: Number| #[trigger] is_scaled(h, source_size, scale, after.size),
        after.size.w.le(before.size.w),
        after.size.h.le(before.size.h),
        after.size.w == before.size.w || after.size.h == before.size.h,
{
    let size = choose|size: Size| #[trigger]
        is_fit(h, source_size, before.size, size) && is_clamped(
            h,
            PipThumbnail { source_size, size, ..before },
            after,
        );
    assert(after.size == size);
    let scale = choose|scale: Number| #[trigger]
        is_fit_scale(h, source_size, before.size, scale) && is_scaled(h, source_size, scale, size);
    let (x, y) = choose|x: Number, y: Number|
        #![trigger is_quotient(h, before.size.w, source_size.w, x), is_quotient(h, before.size.h, source_size.h, y)]
        is_quotient(h, before.size.w, source_size.w, x) && is_quotient(
            h,
            before.size.h,
            source_size.h,
            y,
        ) && scale == x.lesser(y).greater(Number { bits: LEAST_SCALE });
    assert(scale.le(x) && scale.le(y) && (scale == x || scale == y));
    assert(is_product(h, source_size.w, scale, size.w));
    assert(is_product(h, source_size.h, scale, size.h));
}

/// The mirrored window fits into the room without the least scale, and no rounding gets in the way
/// of that.
pub open spec fn has_room<A: Arithmetic>(a: &A, thumb: PipThumbnail, allowed: Size) -> bool {
    let source = normalized(thumb.source_size, thumb.size);
    &&& is_scalable(a, source, allowed)
    &&& stays_within(a, source.w, allowed.w)
    &&& stays_within(a, source.h, allowed.h)
}

/// A source at a scale of no more than the largest one fits into the room that allows it.
proof fn lemma_fits_the_room<A: Arithmetic>(
    a: &A,
    thumb: PipThumbnail,
    allowed: Size,
    max_scale: Number,
    scale: Number,
    size: Size,
)
    requires
        has_room(a, thumb, allowed),
        is_fit_scale(
            a,
            normalized(normalized(thumb.source_size, thumb.size), Size { w: one(), h: one() }),
            allowed,
            max_scale,
        ),
        scale.le(max_scale),
        is_scaled(a, normalized(thumb.source_size, thumb.size), scale, size),
    ensures
        size.w.le(allowed.w),
        size.h.le(allowed.h),
{
    let source = normalized(thumb.source_size, thumb.size);
    assert(normalized(source, Size { w: one(), h: one() }) == source);
    let (x, y) = choose|x: Number, y: Number|
        #![trigger is_quotient(a, allowed.w, source.w, x), is_quotient(a, allowed.h, source.h, y)]
        is_quotient(a, allowed.w, source.w, x) && is_quotient(a, allowed.h, source.h, y)
            && max_scale == x.lesser(y).greater(Number { bits: LEAST_SCALE });
    assert(max_scale.le(x) && max_scale.le(y));
    assert(is_product(a, source.w, scale, size.w));
    assert(is_product(a, source.h, scale, size.h));
}

/// The thumbnail does not extend past the edges of its output.
pub open spec fn lies_within<H: Arithmetic + Outputs>(h: &H, thumb: PipThumbnail) -> bool {
    &&& zero().le(thumb.position.x)
    &&& zero().le(thumb.position.y)
    &&& forall|bounds: Size, x: Number|
        #![trigger is_output_size(h, thumb.output, bounds), is_sum(h, thumb.position.x, thumb.size.w, x)]
        is_output_size(h, thumb.output, bounds) && is_sum(h, thumb.position.x, thumb.size.w, x)
            ==> x.le(bounds.w)
    &&& forall|bounds: Size, y: Number|
        #![trigger is_output_size(h, thumb.output, bounds), is_sum(h, thumb.position.y, thumb.size.h, y)]
        is_output_size(h, thumb.output, bounds) && is_sum(h, thumb.position.y, thumb.size.h, y)
            ==> y.le(bounds.h)
}

/// No size that is answered for the output is negative.
pub open spec fn has_area<H: Outputs>(h: &H, output: OutputId) -> bool {
    forall|bounds: Size| #[trigger]
        is_output_size(h, output, bounds) ==> zero().le(bounds.w) && zero().le(bounds.h)
}

/// Pulling makes a thumbnail no larger than what the output allows from the corner that stays.
pub proof fn pull_stays_within_reach<H: Arithmetic + Outputs>(
    h: &H,
    edges: ResizeEdge,
    pointer: Point,
    before: PipThumbnail,
    after: PipThumbnail,
)
    requires
        pull_to(h, edges, pointer)(before, after),
        forall|s: PullSteps| #[trigger]
            is_pull_steps(h, before, edges, pointer, s) ==> has_room(h, before, s.allowed),
    ensures
        exists|s: PullSteps| #[trigger]
            is_pull_steps(h, before, edges, pointer, s) && after.size.w.le(s.allowed.w)
                && after.size.h.le(s.allowed.h),
{
    let pulled = choose|pulled: PipThumbnail| #[trigger]
        is_pulled(h, before, edges, pointer, pulled) && is_clamped(h, pulled, after);
    let s = choose|s: PullSteps| #[trigger]
        is_pull_steps(h, before, edges, pointer, s) && is_scaled(
            h,
            normalized(before.source_size, before.size),
            s.wanted.clamped(s.least.lesser(s.max_scale), s.max_scale),
            pulled.size,
        );
    let scale = s.wanted.clamped(s.least.lesser(s.max_scale), s.max_scale);
    lemma_fits_the_room(h, before, s.allowed, s.max_scale, scale, pulled.size);
}

/// Pulling keeps a thumbnail on its output: where it lay within the edges of the output, it comes
/// to lie there again, no larger than the output.
pub proof fn pull_stays_on_output<H: Arithmetic + Outputs>(
    h: &H,
    edges: ResizeEdge,
    pointer: Point,
    before: PipThumbnail,
    after: PipThumbnail,
)
    requires
        takes_away(h),
        has_area(h, before.output),
        lies_within(h, before),
        pull_to(h, edges, pointer)(before, after),
        forall|s: PullSteps| #[trigger]
            is_pull_steps(h, before, edges, pointer, s) ==> has_room(h, before, s.allowed),
        forall|pulled: PipThumbnail| #[trigger]
            is_pulled(h, before, edges, pointer, pulled) ==> !pulled.position.x.nan()
                && !pulled.position.y.nan(),
    ensures
        is_on_output(h, after),
        exists|bounds: Size| #[trigger]
            is_output_size(h, after.output, bounds) && after.size.w.le(bounds.w)
                && after.size.h.le(bounds.h),
{
    let pulled = choose|pulled: PipThumbnail| #[trigger]
        is_pulled(h, before, edges, pointer, pulled) && is_clamped(h, pulled, after);
    clamped_is_on_output(h, pulled, after);
    pull_stays_within_reach(h, edges, pointer, before, after);
    let s = choose|s: PullSteps| #[trigger]
        is_pull_steps(h, before, edges, pointer, s) && after.size.w.le(s.allowed.w)
            && after.size.h.le(s.allowed.h);
    assert(s.allowed.w.le(s.bounds.w));
    assert(s.allowed.h.le(s.bounds.h));
    assert(is_output_size(h, after.output, s.bounds));
}

/// Zooming makes a thumbnail no larger than what the output allows around its center.
pub proof fn zoom_stays_within_reach<H: Arithmetic + Outputs>(
    h: &H,
    factor: Number,
    before: PipThumbnail,
    after: PipThumbnail,
)
    requires
        zoom_by(h, factor)(before, after),
        forall|s: ZoomSteps| #[trigger]
            is_zoom_steps(h, before, factor, s) ==> has_room(h, before, s.allowed)
                && !s.wanted.nan(),
    ensures
        exists|s: ZoomSteps| #[trigger]
            is_zoom_steps(h, before, factor, s) && after.size.w.le(s.allowed.w)
                && after.size.h.le(s.allowed.h),
{
    let zoomed = choose|zoomed: PipThumbnail| #[trigger]
        is_zoomed(h, before, factor, zoomed) && is_clamped(h, zoomed, after);
    let s = choose|s: ZoomSteps| #[trigger]
        is_zoom_steps(h, before, factor, s) && is_scaled(
            h,
            normalized(before.source_size, before.size),
            s.wanted.clamped(s.least.lesser(s.max_scale), s.max_scale),
            zoomed.size,
        );
    let scale = s.wanted.clamped(s.least.lesser(s.max_scale), s.max_scale);
    lemma_fits_the_room(h, before, s.allowed, s.max_scale, scale, zoomed.size);
}

/// Twice the smaller of two parts of a length is no more than the length.
pub open spec fn halves_fit<A: Arithmetic>(a: &A) -> bool {
    forall|x: Number, y: Number, d: Number, p: Number|
        #![trigger is_difference(a, x, y, d), is_product(a, Number { bits: TWO }, y.lesser(d).greater(zero()), p)]
        zero().le(x) && is_difference(a, x, y, d) && is_product(
            a,
            Number { bits: TWO },
            y.lesser(d).greater(zero()),
            p,
        ) ==> p.le(x)
}

/// Zooming keeps a thumbnail on its output, no larger than the output.
pub proof fn zoom_stays_on_output<H: Arithmetic + Outputs>(
    h: &H,
    factor: Number,
    before: PipThumbnail,
    after: PipThumbnail,
)
    requires
        halves_fit(h),
        has_area(h, before.output),
        zoom_by(h, factor)(before, after),
        forall|s: ZoomSteps| #[trigger]
            is_zoom_steps(h, before, factor, s) ==> has_room(h, before, s.allowed)
                && !s.wanted.nan(),
        forall|zoomed: PipThumbnail| #[trigger]
            is_zoomed(h, before, factor, zoomed) ==> !zoomed.position.x.nan()
                && !zoomed.position.y.nan(),
    ensures
        is_on_output(h, after),
        exists|bounds: Size| #[trigger]
            is_output_size(h, after.output, bounds) && after.size.w.le(bounds.w)
                && after.size.h.le(bounds.h),
{
    let zoomed = choose|zoomed: PipThumbnail| #[trigger]
        is_zoomed(h, before, factor, zoomed) && is_clamped(h, zoomed, after);
    clamped_is_on_output(h, zoomed, after);
    zoom_stays_within_reach(h, factor, before, after);
    let s = choose|s: ZoomSteps| #[trigger]
        is_zoom_steps(h, before, factor, s) && after.size.w.le(s.allowed.w)
            && after.size.h.le(s.allowed.h);
    assert(s.allowed.w.le(s.bounds.w));
    assert(s.allowed.h.le(s.bounds.h));
    assert(is_output_size(h, after.output, s.bounds));
}

/// A change meets every thumbnail that it is for, and no other.
pub proof fn changes_meet_all_they_are_for(
    before: Seq<PipThumbnail>,
    p: spec_fn(PipThumbnail) -> bool,
    change: spec_fn(PipThumbnail, PipThumbnail) -> bool,
    after: Seq<PipThumbnail>,
    i: int,
)
    requires
        changed_where(before, p, change, after),
        0 <= i < before.len(),
    ensures
        after.len() == before.len(),
        p(before[i]) ==> change(before[i], after[i]),
        !p(before[i]) ==> after[i] == before[i],
{
    assert(after[i] == after[i]);
}

/// A change of one thumbnail meets the one with the identifier, leaves all others as they are and
/// where they are, and has its output drawn again. Without such a thumbnail nothing happens.
pub proof fn one_thumbnail_is_changed(
    before: PipManager,
    id: PipId,
    change: spec_fn(PipThumbnail, PipThumbnail) -> bool,
    after: PipManager,
    redraw: Option<OutputId>,
    i: int,
)
    requires
        before.wf(),
        is_changed(before, id, change, after, redraw),
        0 <= i < before@.len(),
    ensures
        after@.len() == before@.len(),
        before@[i].id == id ==> change(before@[i], after@[i]) && redraw == Some(before@[i].output),
        before@[i].id != id ==> after@[i] == before@[i],
        redraw is None ==> after@ == before@,
{
    if let Some(output) = redraw {
        let k = choose|k: int|
            #![trigger is_first(before@, with_id(id), k)]
            is_first(before@, with_id(id), k) && after@.len() == before@.len() && after@
                == before@.update(k, after@[k]) && change(before@[k], after@[k]) && output
                == before@[k].output;
        assert(before@[k].id == id);
        if before@[i].id == id {
            assert(i == k);
        } else {
            assert(before@.update(k, after@[k])[i] == before@[i]);
        }
    } else {
        assert(!with_id(id)(before@[i]));
    }
}

} // verus!
