//! What the calls on all thumbnails do, told by the thumbnails before and after.
use crate::exact::{is_exact, is_reading};
use crate::geometry::{
    is_offset, is_pixel_point, is_pixel_size, PixelPoint, PixelSize, Point, Rectangle, Size,
};
use crate::number::{Arithmetic, Number};
use crate::pip::{
    any, changed_where, clamp_onto, has_moved, hovered, is_button_of, is_first, is_found,
    is_hover_updated, is_output_clamped, is_removed, is_resized_by, is_source_refreshed, is_under,
    move_to, outputs_of, pull_to, refresh_to, with_id, with_output, with_source, zoom_by,
    PipManager,
};
use crate::pip_exact::{
    clamping_is_the_shortest_way, drag_follows_on_the_output,
    dragged_thumbnail_stays_under_the_pointer, has_size, is_at, kept_on, motion_follows_the_grab,
    moves_are_noticed, pointer_is_over_what_it_hits, refreshing_keeps_the_area,
};
use crate::pip_grab::{
    is_followed, is_motion, is_released, is_within_output, GrabEffect, PipPointerGrab,
};
use crate::pip_laws::{redraw_is_exact, removal_is_exact};
use crate::thumbnail::{OutputId, Outputs, PipId, PipThumbnail};
use crate::window::MappedId;
use vstd::prelude::*;

verus! {

/// A thumbnail is found by its identifier and by its window, exactly where there is one; the first
/// of several.
pub proof fn thumbnails_are_found(
    s: Seq<PipThumbnail>,
    id: PipId,
    source_id: MappedId,
    by_id: Option<PipThumbnail>,
    by_source: Option<PipThumbnail>,
)
    requires
        is_found(s, with_id(id), by_id),
        is_found(s, with_source(source_id), by_source),
    ensures
        by_id is None <==> forall|i: int| 0 <= i < s.len() ==> (#[trigger] s[i]).id != id,
        by_id matches Some(thumb) ==> exists|i: int|
            0 <= i < s.len() && #[trigger] s[i] == thumb && s[i].id == id && forall|j: int|
                0 <= j < i ==> (#[trigger] s[j]).id != id,
        by_source is None <==> forall|i: int|
            0 <= i < s.len() ==> (#[trigger] s[i]).source_id != source_id,
        by_source matches Some(thumb) ==> exists|i: int|
            0 <= i < s.len() && #[trigger] s[i] == thumb && s[i].source_id == source_id
                && forall|j: int| 0 <= j < i ==> (#[trigger] s[j]).source_id != source_id,
{
    if let Some(thumb) = by_id {
        let i = choose|i: int| #[trigger] is_first(s, with_id(id), i) && thumb == s[i];
        assert(with_id(id)(s[i]));
        assert forall|j: int| 0 <= j < i implies (#[trigger] s[j]).id != id by {
            assert(!with_id(id)(s[j]));
        }
    } else {
        assert forall|j: int| 0 <= j < s.len() implies (#[trigger] s[j]).id != id by {
            assert(!with_id(id)(s[j]));
        }
    }
    if let Some(thumb) = by_source {
        let i = choose|i: int| #[trigger] is_first(s, with_source(source_id), i) && thumb == s[i];
        assert(with_source(source_id)(s[i]));
        assert forall|j: int| 0 <= j < i implies (#[trigger] s[j]).source_id != source_id by {
            assert(!with_source(source_id)(s[j]));
        }
    } else {
        assert forall|j: int| 0 <= j < s.len() implies (#[trigger] s[j]).source_id
            != source_id by {
            assert(!with_source(source_id)(s[j]));
        }
    }
}

/// The close button is a square of `24` at the upper-left corner of the thumbnail with the
/// identifier.
pub proof fn close_button_is_in_the_corner(
    v: spec_fn(Number) -> real,
    s: Seq<PipThumbnail>,
    id: PipId,
    rect: Option<Rectangle>,
)
    requires
        is_reading(v),
        is_button_of(s, id, rect),
    ensures
        rect is None <==> forall|i: int| 0 <= i < s.len() ==> (#[trigger] s[i]).id != id,
        rect matches Some(rect) ==> v(rect.size.w) == 24real && v(rect.size.h) == 24real && exists|
            i: int,
        |
            0 <= i < s.len() && (#[trigger] s[i]).id == id && s[i].position == rect.loc,
{
    if let Some(rect) = rect {
        let i = choose|i: int| #[trigger]
            is_first(s, with_id(id), i) && rect == s[i].button_area();
        assert(with_id(id)(s[i]));
    } else {
        assert forall|j: int| 0 <= j < s.len() implies (#[trigger] s[j]).id != id by {
            assert(!with_id(id)(s[j]));
        }
    }
}

/// With the pointer at a place, the topmost thumbnail there is marked and no other; with no
/// pointer none is. A change is told exactly where a mark changed.
pub proof fn marks_follow_the_pointer<A: Arithmetic>(
    a: &A,
    v: spec_fn(Number) -> real,
    before: Seq<PipThumbnail>,
    pointer: Option<(OutputId, Point)>,
    after: Seq<PipThumbnail>,
    changed: bool,
    i: int,
)
    requires
        is_exact(a, v),
        forall|i: int|
            0 <= i < before.len() ==> !(#[trigger] before[i]).position.x.nan()
                && !before[i].position.y.nan(),
        forall|i: int, j: int|
            0 <= i < j < before.len() ==> (#[trigger] before[i]).id != (#[trigger] before[j]).id,
        pointer matches Some((output, pos)) ==> !pos.x.nan() && !pos.y.nan(),
        is_hover_updated(a, before, pointer, after, changed),
        0 <= i < before.len(),
    ensures
        after.len() == before.len(),
        after[i] == (PipThumbnail { is_hovered: after[i].is_hovered, ..before[i] }),
        after[i].is_hovered <==> (pointer matches Some((output, pos)) && is_at(
            v,
            before[i],
            output,
            pos,
        ) && forall|j: int| i < j < before.len() ==> !is_at(v, #[trigger] before[j], output, pos)),
        after[i].is_hovered != before[i].is_hovered ==> changed,
        changed ==> exists|j: int|
            0 <= j < before.len() && (#[trigger] after[j]).is_hovered != before[j].is_hovered,
{
    let id = choose|id: Option<PipId>| #[trigger]
        is_under(a, before, pointer, id) && after == hovered(before, id);
    if let Some((output, pos)) = pointer {
        pointer_is_over_what_it_hits(a, v, before, output, pos, id);
        if let Some(id) = id {
            let k = choose|k: int|
                0 <= k < before.len() && is_at(v, #[trigger] before[k], output, pos)
                    && before[k].id == id && (forall|j: int|
                    k < j < before.len() ==> !is_at(v, #[trigger] before[j], output, pos));
            assert(before[i].id == id <==> i == k);
            assert(i < k ==> is_at(v, before[k], output, pos));
        }
    }
    if forall|j: int|
        0 <= j < before.len() ==> (#[trigger] after[j]).is_hovered == before[j].is_hovered {
        assert(after =~= before) by {
            assert forall|j: int| 0 <= j < before.len() implies after[j] == before[j] by {
                assert(after[j].is_hovered == before[j].is_hovered);
            }
        }
    }
}

/// A factor of zero or less leaves everything as it is and asks for nothing to be drawn. With
/// another factor the output of the thumbnail is drawn, where there is the thumbnail.
pub proof fn only_factors_above_zero_resize<H: Arithmetic + Outputs>(
    h: &H,
    v: spec_fn(Number) -> real,
    before: PipManager,
    id: PipId,
    factor: Number,
    after: PipManager,
    redraw: Option<OutputId>,
)
    requires
        is_exact(h, v),
        !factor.nan(),
        is_resized_by(h, before, id, factor, after, redraw),
    ensures
        v(factor) <= 0real ==> redraw is None && after@ == before@,
        v(factor) > 0real ==> (redraw is None <==> forall|i: int|
            0 <= i < before@.len() ==> (#[trigger] before@[i]).id != id),
        redraw is None ==> after@ == before@,
        redraw matches Some(output) ==> exists|i: int|
            0 <= i < before@.len() && (#[trigger] before@[i]).id == id && before@[i].output
                == output && after@ == before@.update(i, after@[i]) && zoom_by(
                h,
                factor,
            )(before@[i], after@[i]),
{
    let zero = Number { bits: 0 };
    assert(factor.le(zero) <==> v(factor) <= v(zero));
    if v(factor) > 0real {
        if let Some(output) = redraw {
            let i = choose|i: int|
                #![trigger is_first(before@, with_id(id), i)]
                is_first(before@, with_id(id), i) && after@.len() == before@.len() && after@
                    == before@.update(i, after@[i]) && zoom_by(h, factor)(
                    before@[i],
                    after@[i],
                ) && output == before@[i].output;
            assert(with_id(id)(before@[i]));
        } else {
            assert forall|j: int| 0 <= j < before@.len() implies (#[trigger] before@[j]).id
                != id by {
                assert(!with_id(id)(before@[j]));
            }
        }
    }
}

/// A new size of a window is noted on its thumbnails and on no others. They get the proportions of
/// the window within the area that they had.
pub proof fn window_sizes_are_noted<H: Arithmetic + Outputs>(
    h: &H,
    v: spec_fn(Number) -> real,
    before: Seq<PipThumbnail>,
    source_id: MappedId,
    size: PixelSize,
    after: Seq<PipThumbnail>,
    i: int,
)
    requires
        is_exact(h, v),
        is_source_refreshed(h, before, source_id, size, after),
        0 <= i < before.len(),
    ensures
        after.len() == before.len(),
        before[i].source_id != source_id ==> after[i] == before[i],
        before[i].source_id == source_id ==> v(after[i].source_size.w) == (size.w as int) as real
            && v(after[i].source_size.h) == (size.h as int) as real,
        ({
            let least = v(Number { bits: 0x3f50_624d_d2f1_a9fc });
            let (w, h) = ((size.w as int) as real, (size.h as int) as real);
            before[i].source_id == source_id && 0 < size.w && 0 < size.h && least * w <= v(
                before[i].size.w,
            ) && least * h <= v(before[i].size.h) ==> {
                &&& v(after[i].size.w) * h == v(after[i].size.h) * w
                &&& v(after[i].size.w) <= v(before[i].size.w)
                &&& v(after[i].size.h) <= v(before[i].size.h)
                &&& v(after[i].size.w) == v(before[i].size.w) || v(after[i].size.h) == v(
                    before[i].size.h,
                )
            }
        }),
{
    let source_size = choose|source_size: Size| #[trigger]
        is_pixel_size(h, size, source_size) && changed_where(
            before,
            with_source(source_id),
            refresh_to(h, source_size),
            after,
        );
    assert(v(source_size.w) == (size.w as int) as real && !source_size.w.nan());
    assert(v(source_size.h) == (size.h as int) as real && !source_size.h.nan());
    assert(with_source(source_id)(before[i]) <==> before[i].source_id == source_id);
    if before[i].source_id == source_id {
        assert(refresh_to(h, source_size)(before[i], after[i]));
        assert(after[i].source_size == source_size);
        let least = v(Number { bits: 0x3f50_624d_d2f1_a9fc });
        if 0 < size.w && 0 < size.h && least * v(source_size.w) <= v(before[i].size.w) && least * v(
            source_size.h,
        ) <= v(before[i].size.h) {
            refreshing_keeps_the_area(h, v, before[i], source_size, after[i]);
        }
    }
}

/// The thumbnails of an output are brought onto it by the shortest way, and the others stay where
/// they are. A change is told exactly where one of them is somewhere else than before.
pub proof fn outputs_keep_their_thumbnails<H: Arithmetic + Outputs>(
    h: &H,
    v: spec_fn(Number) -> real,
    before: Seq<PipThumbnail>,
    output: OutputId,
    bounds: Size,
    after: Seq<PipThumbnail>,
    changed: bool,
)
    requires
        is_exact(h, v),
        has_size(h, output, bounds),
        forall|i: int|
            0 <= i < before.len() ==> !(#[trigger] before[i]).position.x.nan()
                && !before[i].position.y.nan(),
        is_output_clamped(h, before, output, after, changed),
    ensures
        after.len() == before.len(),
        forall|i: int|
            0 <= i < before.len() && before[i].output != output ==> #[trigger] after[i] == before[i],
        forall|i: int|
            0 <= i < before.len() && before[i].output == output ==> {
                &&& #[trigger] after[i] == (PipThumbnail {
                    position: after[i].position,
                    ..before[i]
                })
                &&& v(after[i].position.x) == kept_on(
                    v(before[i].position.x),
                    v(before[i].size.w),
                    v(bounds.w),
                )
                &&& v(after[i].position.y) == kept_on(
                    v(before[i].position.y),
                    v(before[i].size.h),
                    v(bounds.h),
                )
            },
        changed <==> exists|i: int|
            0 <= i < before.len() && (v((#[trigger] after[i]).position.x) != v(before[i].position.x)
                || v(after[i].position.y) != v(before[i].position.y)),
{
    assert forall|i: int| 0 <= i < before.len() && before[i].output == output implies {
        &&& #[trigger] after[i] == (PipThumbnail { position: after[i].position, ..before[i] })
        &&& !after[i].position.x.nan()
        &&& !after[i].position.y.nan()
        &&& v(after[i].position.x) == kept_on(
            v(before[i].position.x),
            v(before[i].size.w),
            v(bounds.w),
        )
        &&& v(after[i].position.y) == kept_on(
            v(before[i].position.y),
            v(before[i].size.h),
            v(bounds.h),
        )
    } by {
        assert(with_output(output)(before[i]));
        assert(clamp_onto(h)(before[i], after[i]));
        clamping_is_the_shortest_way(h, v, before[i], bounds, after[i]);
    }
    assert forall|i: int| 0 <= i < before.len() && before[i].output != output implies (
    #[trigger] after[i]) == before[i] by {
        assert(!with_output(output)(before[i]));
    }
    if changed {
        let i = choose|i: int|
            0 <= i < before.len() && before[i].output == output && #[trigger] has_moved(
                before,
                after,
                i,
            );
        assert(after[i].output == output);
        moves_are_noticed(v, before, after, i);
    }
    if exists|i: int|
        0 <= i < before.len() && (v((#[trigger] after[i]).position.x) != v(before[i].position.x)
            || v(after[i].position.y) != v(before[i].position.y)) {
        let i = choose|i: int|
            0 <= i < before.len() && (v((#[trigger] after[i]).position.x) != v(before[i].position.x)
                || v(after[i].position.y) != v(before[i].position.y));
        assert(before[i].output == output);
        moves_are_noticed(v, before, after, i);
    }
}

/// A grab ends when its thumbnail or its output is gone, and then as before a place of the output is
/// known it changes nothing.
pub proof fn grab_ends_with_what_it_holds<H: Arithmetic + Outputs>(
    h: &H,
    grab: PipPointerGrab,
    output_alive: bool,
    output_loc: Option<PixelPoint>,
    location: Point,
    before: PipManager,
    after: PipManager,
    effect: GrabEffect,
)
    requires
        is_motion(h, grab, output_alive, output_loc, location, before, after, effect),
    ensures
        effect is Unset <==> !output_alive || forall|i: int|
            0 <= i < before@.len() ==> (#[trigger] before@[i]).id != grab.spec_pip_id(),
        effect is Unset || output_loc is None ==> after == before && effect !is Redraw,
        effect matches GrabEffect::Redraw(output) ==> output == grab.spec_output(),
        effect !is Redraw ==> after == before,
{
    let id = grab.spec_pip_id();
    if any(before@, with_id(id)) {
        let i = choose|i: int| 0 <= i < before@.len() && with_id(id)(#[trigger] before@[i]);
        assert(before@[i].id == id);
    } else {
        assert forall|j: int| 0 <= j < before@.len() implies (#[trigger] before@[j]).id != id by {
            assert(!with_id(id)(before@[j]));
        }
    }
}

/// While the pointer is on the output, a thumbnail that is moved stays under it, as far as it fits
/// on the output. No other thumbnail is touched.
pub proof fn moved_thumbnail_follows_the_pointer<H: Arithmetic + Outputs>(
    h: &H,
    v: spec_fn(Number) -> real,
    grab: PipPointerGrab,
    output_loc: PixelPoint,
    location: Point,
    bounds: Size,
    before: PipManager,
    after: PipManager,
    effect: GrabEffect,
)
    requires
        is_exact(h, v),
        has_size(h, grab.spec_output(), bounds),
        forall|i: int|
            0 <= i < before@.len() && (#[trigger] before@[i]).id == grab.spec_pip_id()
                ==> before@[i].output == grab.spec_output(),
        any(before@, with_id(grab.spec_pip_id())),
        grab.spec_mode() is Move,
        is_motion(h, grab, true, Some(output_loc), location, before, after, effect),
    ensures
        ({
            let x = v(location.x) - (output_loc.x as int) as real;
            let y = v(location.y) - (output_loc.y as int) as real;
            let offset = grab.spec_mode()->grab_offset;
            if 0real <= x < v(bounds.w) && 0real <= y < v(bounds.h) {
                &&& effect == GrabEffect::Redraw(grab.spec_output())
                &&& after@.len() == before@.len()
                &&& exists|i: int|
                    0 <= i < before@.len() && (#[trigger] before@[i]).id == grab.spec_pip_id()
                        && after@[i] == (PipThumbnail {
                        position: after@[i].position,
                        ..before@[i]
                    }) && v(after@[i].position.x) == kept_on(
                        x - v(offset.x),
                        v(before@[i].size.w),
                        v(bounds.w),
                    ) && v(after@[i].position.y) == kept_on(
                        y - v(offset.y),
                        v(before@[i].size.h),
                        v(bounds.h),
                    ) && forall|j: int|
                        0 <= j < before@.len() && j != i ==> #[trigger] after@[j] == before@[j]
            } else {
                effect is Nothing && after == before
            }
        }),
{
    let pos = choose|pos: Point| #[trigger]
        is_within_output(h, location, output_loc, pos) && is_followed(
            h,
            grab,
            pos,
            before,
            after,
            effect,
        );
    let origin = choose|origin: Point| #[trigger]
        is_pixel_point(h, output_loc, origin) && is_offset(
            h,
            location,
            origin,
            pos,
        );
    assert(v(origin.x) == (output_loc.x as int) as real);
    assert(v(origin.y) == (output_loc.y as int) as real);
    drag_follows_on_the_output(h, v, grab, pos, bounds, before, after, effect);
    if effect is Redraw {
        motion_follows_the_grab(h, grab, pos, before, after, effect);
        let grab_offset = grab.spec_mode()->grab_offset;
        let i = choose|i: int| #[trigger]
            is_first(before@, with_id(grab.spec_pip_id()), i) && (forall|j: int|
                0 <= j < before@.len() && j != i ==> #[trigger] after@[j] == before@[j])
                && exists|target: Point| #[trigger]
                is_offset(h, pos, grab_offset, target) && move_to(h, target)(before@[i], after@[i]);
        let target = choose|target: Point| #[trigger]
            is_offset(h, pos, grab_offset, target) && move_to(h, target)(before@[i], after@[i]);
        assert(with_id(grab.spec_pip_id())(before@[i]));
        dragged_thumbnail_stays_under_the_pointer(
            h,
            v,
            location,
            output_loc,
            pos,
            grab_offset,
            target,
            bounds,
            before@[i],
            after@[i],
        );
    }
}

/// A thumbnail that is resized is pulled to the pointer wherever that is, and no other is touched.
pub proof fn resized_thumbnail_follows_the_pointer<H: Arithmetic + Outputs>(
    h: &H,
    v: spec_fn(Number) -> real,
    grab: PipPointerGrab,
    output_loc: PixelPoint,
    location: Point,
    before: PipManager,
    after: PipManager,
    effect: GrabEffect,
)
    requires
        is_exact(h, v),
        any(before@, with_id(grab.spec_pip_id())),
        grab.spec_mode() is Resize,
        is_motion(h, grab, true, Some(output_loc), location, before, after, effect),
    ensures
        effect == GrabEffect::Redraw(grab.spec_output()),
        after@.len() == before@.len(),
        exists|i: int, pos: Point|
            #![trigger before@[i], pull_to(h, grab.spec_mode()->edges, pos)]
            0 <= i < before@.len() && before@[i].id == grab.spec_pip_id() && v(pos.x) == v(
                location.x,
            ) - (output_loc.x as int) as real && v(pos.y) == v(location.y) - (
            output_loc.y as int) as real && pull_to(h, grab.spec_mode()->edges, pos)(
                before@[i],
                after@[i],
            ) && forall|j: int|
                0 <= j < before@.len() && j != i ==> #[trigger] after@[j] == before@[j],
{
    let pos = choose|pos: Point| #[trigger]
        is_within_output(h, location, output_loc, pos) && is_followed(
            h,
            grab,
            pos,
            before,
            after,
            effect,
        );
    let origin = choose|origin: Point| #[trigger]
        is_pixel_point(h, output_loc, origin) && is_offset(
            h,
            location,
            origin,
            pos,
        );
    assert(v(origin.x) == (output_loc.x as int) as real);
    assert(v(origin.y) == (output_loc.y as int) as real);
    motion_follows_the_grab(h, grab, pos, before, after, effect);
    let edges = grab.spec_mode()->edges;
    let i = choose|i: int| #[trigger]
        is_first(before@, with_id(grab.spec_pip_id()), i) && (forall|j: int|
            0 <= j < before@.len() && j != i ==> #[trigger] after@[j] == before@[j]) && pull_to(
            h,
            edges,
            pos,
        )(before@[i], after@[i]);
    assert(with_id(grab.spec_pip_id())(before@[i]));
}

/// A grab goes on as long as its button is among the pressed ones, whatever others are.
pub proof fn button_holds_the_grab(button: u32, pressed: Seq<u32>, other: u32)
    ensures
        is_released(button, Seq::empty()),
        is_released(button, pressed.push(other)) <==> is_released(button, pressed) && other
            != button,
{
    assert(pressed.push(other)[pressed.len() as int] == other);
    if pressed.contains(button) {
        let i = choose|i: int| 0 <= i < pressed.len() && pressed[i] == button;
        assert(pressed.push(other)[i] == button);
    }
    if pressed.push(other).contains(button) && other != button {
        let i = choose|i: int| 0 <= i < pressed.len() + 1 && pressed.push(other)[i] == button;
        assert(pressed[i] == button);
    }
}

/// Removing by identifier, window or output leaves exactly the thumbnails with another one, and has
/// exactly the outputs redrawn that showed a removed one, each once.
pub proof fn removals_take_what_they_name(
    before: PipManager,
    p: spec_fn(PipThumbnail) -> bool,
    id: PipId,
    source_id: MappedId,
    output: OutputId,
    after: PipManager,
    redraw: Seq<OutputId>,
    thumb: PipThumbnail,
)
    requires
        is_removed(before, p, after, redraw),
    ensures
        p == with_id(id) ==> (after@.contains(thumb) <==> before@.contains(thumb) && thumb.id != id),
        p == with_source(source_id) ==> (after@.contains(thumb) <==> before@.contains(thumb)
            && thumb.source_id != source_id),
        p == with_output(output) ==> (after@.contains(thumb) <==> before@.contains(thumb)
            && thumb.output != output),
        before@.contains(thumb) && !after@.contains(thumb) ==> redraw.contains(thumb.output),
        redraw.contains(output) ==> exists|i: int|
            0 <= i < before@.len() && (#[trigger] before@[i]).output == output && !after@.contains(
                before@[i],
            ),
        redraw.no_duplicates(),
        after.next() == before.next(),
{
    removal_is_exact(before@, p);
    redraw_is_exact(before@, p);
    assert(with_id(id)(thumb) <==> thumb.id == id);
    assert(with_source(source_id)(thumb) <==> thumb.source_id == source_id);
    assert(with_output(output)(thumb) <==> thumb.output == output);
    if before@.contains(thumb) && !after@.contains(thumb) {
        let k = before@.index_of(thumb);
        let shown = |other: PipThumbnail| p(other) && other.output == thumb.output;
        assert(shown(before@[k]));
        assert(any(before@, shown));
    }
    if redraw.contains(output) {
        let shown = |other: PipThumbnail| p(other) && other.output == output;
        assert(any(before@, shown));
        let k = choose|k: int| 0 <= k < before@.len() && shown(#[trigger] before@[k]);
        assert(!after@.contains(before@[k]));
    }
}

/// The outputs of thumbnails come in the order in which the thumbnails do: those of the first ones
/// come first, whatever follows.
pub proof fn outputs_come_in_order(
    s: Seq<PipThumbnail>,
    p: spec_fn(PipThumbnail) -> bool,
    thumb: PipThumbnail,
)
    ensures
        outputs_of(s, p).is_prefix_of(outputs_of(s.push(thumb), p)),
        p(thumb) ==> outputs_of(s.push(thumb), p).contains(thumb.output),
        !p(thumb) ==> outputs_of(s.push(thumb), p) == outputs_of(s, p),
{
    let more = s.push(thumb);
    assert(more.drop_last() =~= s);
    assert(more.last() == thumb);
    let listed = outputs_of(s, p);
    let all = outputs_of(more, p);
    if p(thumb) && !listed.contains(thumb.output) {
        assert(all[listed.len() as int] == thumb.output);
    }
    assert(all.take(listed.len() as int) =~= listed);
}

} // verus!
