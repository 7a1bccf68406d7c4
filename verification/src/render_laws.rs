//! Where thumbnails are drawn, and what is drawn of them, without rounding.
use crate::exact::{
    is_exact, is_reading, keeps_values, larger, lemma_quotient, rounds_to_nearest, smaller,
};
use crate::geometry::{CornerRadius, PixelPoint, Point, Rectangle, Scale, Size};
use crate::number::{is_narrow, is_nearest, is_product, is_whole, saturated, Arithmetic, Number};
use crate::pip_exact::has_area;
use crate::pip_render::{
    close_button, front_to_back, is_clip_answer, is_clipped_element, is_content_drawn, is_drawn,
    is_drawn_in_parts, is_nearest_pixel, is_picture, is_picture_steps, is_scaled_radius, is_scene,
    is_shadow_radius, is_single_product, shadow, shadow_config, window_of,
    LayoutElementRenderElement, PictureSteps, PipRenderElement, PipThumbnailRenderElement,
    RenderContext, WindowRenderer,
};
use crate::thumbnail::{OutputId, PipThumbnail};
use crate::window::{Mapped, MappedId};
use vstd::prelude::*;

verus! {

/// The window with an identifier is the first one that has it.
pub proof fn first_window_is_found(windows: Seq<Mapped>, id: MappedId)
    ensures
        match window_of(windows, id) {
            Some(mapped) => exists|i: int|
                0 <= i < windows.len() && #[trigger] windows[i] == mapped && mapped.id == id
                    && forall|j: int| 0 <= j < i ==> (#[trigger] windows[j]).id != id,
            None => forall|j: int| 0 <= j < windows.len() ==> (#[trigger] windows[j]).id != id,
        },
    decreases windows.len(),
{
    if windows.len() > 0 && windows[0].id != id {
        let rest = windows.drop_first();
        first_window_is_found(rest, id);
        match window_of(rest, id) {
            Some(mapped) => {
                let i = choose|i: int|
                    0 <= i < rest.len() && #[trigger] rest[i] == mapped && mapped.id == id
                        && forall|j: int| 0 <= j < i ==> (#[trigger] rest[j]).id != id;
                assert(windows[i + 1] == mapped);
                assert forall|j: int| 0 <= j < i + 1 implies (#[trigger] windows[j]).id != id by {
                    if j > 0 {
                        assert(rest[j - 1] == windows[j]);
                    }
                }
            },
            None => {
                assert forall|j: int| 0 <= j < windows.len() implies (#[trigger] windows[j]).id
                    != id by {
                    if j > 0 {
                        assert(rest[j - 1] == windows[j]);
                    }
                }
            },
        }
    } else if windows.len() > 0 {
        assert(windows[0].id == id);
    }
}

/// What is on top is drawn in front: the elements of thumbnails further up come before those of the
/// ones below.
pub proof fn upper_thumbnails_are_drawn_in_front<E>(
    below: Seq<Seq<PipRenderElement<E>>>,
    above: Seq<Seq<PipRenderElement<E>>>,
)
    ensures
        front_to_back(below + above) == front_to_back(above) + front_to_back(below),
        above.len() == 1 ==> front_to_back(above) == above[0],
        above.len() == 0 ==> front_to_back(above).len() == 0,
    decreases above.len(),
{
    let all = below + above;
    if above.len() == 0 {
        assert(all =~= below);
        assert(front_to_back(above) + front_to_back(below) =~= front_to_back(below));
    } else {
        let less = above.drop_last();
        upper_thumbnails_are_drawn_in_front(below, less);
        assert(all.drop_last() =~= below + less);
        assert(all.last() == above.last());
        assert(front_to_back(all) =~= front_to_back(above) + front_to_back(below));
        if above.len() == 1 {
            assert(less.len() == 0);
            assert(front_to_back(above) =~= above[0]);
        }
    }
}

/// The pixel is the one nearest to a place.
pub open spec fn is_pixel_near(pixel: int, place: real) -> bool {
    &&& place - 1real / 2real <= pixel as real
    &&& pixel as real <= place + 1real / 2real
}

proof fn lemma_pixel<A: Arithmetic>(
    a: &A,
    v: spec_fn(Number) -> real,
    place: Number,
    scale: Number,
    pixel: int,
)
    requires
        is_exact(a, v),
        rounds_to_nearest(a, v),
        keeps_values(a, v),
        is_nearest_pixel(a, place, scale, pixel),
        (i32::MIN + 1) as real <= v(place) * v(scale) <= (i32::MAX - 1) as real,
    ensures
        is_pixel_near(pixel, v(place) * v(scale)),
{
    let (product, rounded, whole) = choose|product: Number, rounded: Number, whole: i64|
        #![trigger is_product(a, place, scale, product), is_nearest(a, product, rounded), is_whole(a, rounded, whole)]
        is_product(a, place, scale, product) && is_nearest(a, product, rounded) && is_whole(
            a,
            rounded,
            whole,
        ) && pixel == saturated(whole);
    let n = v(rounded).floor();
    assert(v(rounded) == n as real);
    assert(v(product) - 1real / 2real <= n as real);
    assert(n as real <= v(product) + 1real / 2real);
    assert(i32::MIN <= n <= i32::MAX);
    assert(whole == n);
}

/// The picture of a window fills its thumbnail: what is drawn is the window's contents, scaled by
/// what makes the window as large as the thumbnail, and moved to the pixel that is nearest to where
/// the thumbnail is.
pub open spec fn fills_the_thumbnail(
    v: spec_fn(Number) -> real,
    ctx: RenderContext,
    thumb: PipThumbnail,
    scale: Scale,
    offset: PixelPoint,
) -> bool {
    &&& v(scale.x) * v(thumb.source_size.w) == v(thumb.size.w)
    &&& v(scale.y) * v(thumb.source_size.h) == v(thumb.size.h)
    &&& is_pixel_near(offset.x as int, v(thumb.position.x) * v(ctx.scale))
    &&& is_pixel_near(offset.y as int, v(thumb.position.y) * v(ctx.scale))
}

/// The corner radius that a window shows: that of its rules while it is neither maximized nor
/// fullscreen, else none.
pub open spec fn shown_radius(mapped: Mapped) -> CornerRadius {
    let zero = Number { bits: 0 };
    if mapped.is_normal && mapped.geometry_corner_radius is Some {
        mapped.geometry_corner_radius->0
    } else {
        CornerRadius { top_left: zero, top_right: zero, bottom_right: zero, bottom_left: zero }
    }
}

/// The radius of the shadow is that of the window, scaled as the window is along the side where it
/// is scaled down more.
pub open spec fn is_shrunk_radius(
    v: spec_fn(Number) -> real,
    of_window: CornerRadius,
    thumb: PipThumbnail,
    radius: CornerRadius,
) -> bool {
    let k = larger(
        0real,
        smaller(
            v(thumb.size.w) / v(thumb.source_size.w),
            v(thumb.size.h) / v(thumb.source_size.h),
        ),
    );
    &&& v(radius.top_left) == v(of_window.top_left) * k
    &&& v(radius.top_right) == v(of_window.top_right) * k
    &&& v(radius.bottom_right) == v(of_window.bottom_right) * k
    &&& v(radius.bottom_left) == v(of_window.bottom_left) * k
}

/// A thumbnail of a window is drawn where it is: while the pointer is over it the close button in
/// front, a black square of `24` at its upper-left corner; the picture of the window, which fills
/// it; behind them its shadow, which has its place and size.
pub proof fn thumbnail_is_drawn_where_it_is<E, H: Arithmetic + WindowRenderer<E>>(
    h: &H,
    v: spec_fn(Number) -> real,
    ctx: RenderContext,
    thumb: PipThumbnail,
    windows: Seq<Mapped>,
    mapped: Mapped,
    elements: Seq<PipRenderElement<E>>,
    i: int,
)
    requires
        is_exact(h, v),
        rounds_to_nearest(h, v),
        keeps_values(h, v),
        has_area(v, thumb.source_size),
        (i32::MIN + 1) as real <= v(thumb.position.x) * v(ctx.scale) <= (i32::MAX - 1) as real,
        (i32::MIN + 1) as real <= v(thumb.position.y) * v(ctx.scale) <= (i32::MAX - 1) as real,
        window_of(windows, thumb.source_id) == Some(mapped),
        is_drawn(h, ctx, thumb, windows, elements),
        0 <= i < elements.len(),
    ensures
        elements.len() >= 1,
        thumb.is_hovered ==> elements.len() >= 2,
        ({
            let zero = Number { bits: 0 };
            let one = Number { bits: 0x3ff0_0000_0000_0000 };
            let side = Number { bits: 0x4038_0000_0000_0000 };
            if i == elements.len() - 1 {
                &&& elements[i] is Shadow
                &&& elements[i]->Shadow_position == thumb.position
                &&& elements[i]->Shadow_size == thumb.size
                &&& elements[i]->Shadow_scale == ctx.scale
                &&& elements[i]->Shadow_alpha == one
                &&& elements[i]->is_active
                &&& is_shrunk_radius(v, shown_radius(mapped), thumb, elements[i]->Shadow_radius)
            } else if i == 0 && thumb.is_hovered {
                &&& elements[i] is SolidColor
                &&& elements[i]->SolidColor_position == thumb.position
                &&& elements[i]->SolidColor_size == (Size { w: side, h: side })
                &&& elements[i]->SolidColor_alpha == one
                &&& elements[i]->color.r == zero && elements[i]->color.g == zero
                    && elements[i]->color.b == zero && elements[i]->color.a.bits
                    == 0x3fe8_0000_0000_0000
            } else {
                &&& elements[i] is Thumbnail
                &&& fills_the_thumbnail(
                    v,
                    ctx,
                    thumb,
                    elements[i]->Thumbnail_scale,
                    elements[i]->offset,
                )
                &&& elements[i]->elem matches PipThumbnailRenderElement::ClippedSurface {
                    scale,
                    geo,
                    radius,
                    ..
                } ==> scale == (Scale { x: ctx.scale, y: ctx.scale }) && geo == (Rectangle {
                    loc: Point { x: zero, y: zero },
                    size: thumb.source_size,
                }) && radius == shown_radius(mapped)
            }
        }),
{
    let zero = Number { bits: 0 };
    assert(!thumb.source_size.w.le(zero) && !thumb.source_size.h.le(zero));
    let picture = choose|picture: Seq<PipRenderElement<E>>| #[trigger]
        is_picture(h, ctx, thumb, mapped, picture) && elements == (if thumb.is_hovered {
            seq![close_button::<E>(thumb)]
        } else {
            Seq::<PipRenderElement<E>>::empty()
        }) + picture;
    let s = choose|s: PictureSteps<E>| #[trigger]
        is_picture_steps(h, ctx, thumb, mapped, s) && picture.len() == s.contents@.len() + 1 && (
        forall|k: int|
            0 <= k < s.contents@.len() ==> is_content_drawn(
                h,
                ctx,
                thumb,
                mapped,
                s,
                s.contents@[k],
                #[trigger] picture[k],
            )) && picture.last() == shadow::<E>(ctx, thumb, s.shadow_radius);
    let skipped: int = if thumb.is_hovered {
        1
    } else {
        0
    };
    assert(elements.len() == picture.len() + skipped);
    lemma_pixel(h, v, thumb.position.x, ctx.scale, s.offset.x as int);
    lemma_pixel(h, v, thumb.position.y, ctx.scale, s.offset.y as int);
    lemma_quotient(h, v, thumb.size.w, thumb.source_size.w, s.scale.x);
    lemma_quotient(h, v, thumb.size.h, thumb.source_size.h, s.scale.y);
    let k = i - skipped;
    if i == elements.len() - 1 {
        assert(elements[i] == picture.last());
        lemma_shadow_radius(h, v, shown_radius(mapped), thumb, s.scale, s.shadow_radius);
    } else if k >= 0 {
        assert(elements[i] == picture[k]);
        assert(is_content_drawn(h, ctx, thumb, mapped, s, s.contents@[k], picture[k]));
    }
}

proof fn lemma_shadow_radius<A: Arithmetic>(
    a: &A,
    v: spec_fn(Number) -> real,
    of_window: CornerRadius,
    thumb: PipThumbnail,
    scale: Scale,
    radius: CornerRadius,
)
    requires
        is_exact(a, v),
        keeps_values(a, v),
        !scale.x.nan(),
        !scale.y.nan(),
        v(scale.x) == v(thumb.size.w) / v(thumb.source_size.w),
        v(scale.y) == v(thumb.size.h) / v(thumb.source_size.h),
        is_shadow_radius(a, of_window, scale, radius),
    ensures
        is_shrunk_radius(v, of_window, thumb, radius),
{
    let zero = Number { bits: 0 };
    let factor = choose|factor: Number| #[trigger]
        is_narrow(a, scale.x.lesser(scale.y), factor) && is_scaled_radius(
            a,
            of_window,
            factor,
            radius,
        );
    assert(v(factor) == smaller(v(scale.x), v(scale.y)));
    let k = factor.greater(zero);
    assert(v(k) == larger(0real, v(factor)));
    lemma_single(a, v, of_window.top_left, k, radius.top_left);
    lemma_single(a, v, of_window.top_right, k, radius.top_right);
    lemma_single(a, v, of_window.bottom_right, k, radius.bottom_right);
    lemma_single(a, v, of_window.bottom_left, k, radius.bottom_left);
}

proof fn lemma_single<A: Arithmetic>(
    a: &A,
    v: spec_fn(Number) -> real,
    x: Number,
    y: Number,
    r: Number,
)
    requires
        is_exact(a, v),
        keeps_values(a, v),
        is_single_product(a, x, y, r),
    ensures
        v(r) == v(x) * v(y),
{
    let p = choose|p: Number| #[trigger] is_product(a, x, y, p) && is_narrow(a, p, r);
}

/// A window that is gone, or that has no area, shows nothing but the close button, and that only
/// while the pointer is over the thumbnail.
pub proof fn nothing_is_drawn_of_a_window_that_is_gone<E, H: Arithmetic + WindowRenderer<E>>(
    h: &H,
    ctx: RenderContext,
    thumb: PipThumbnail,
    windows: Seq<Mapped>,
    elements: Seq<PipRenderElement<E>>,
)
    requires
        is_drawn(h, ctx, thumb, windows, elements),
        window_of(windows, thumb.source_id) is None || thumb.source_size.w.le(Number { bits: 0 })
            || thumb.source_size.h.le(Number { bits: 0 }),
    ensures
        !thumb.is_hovered ==> elements.len() == 0,
        thumb.is_hovered ==> elements.len() == 1 && elements[0] is SolidColor
            && elements[0]->SolidColor_position == thumb.position,
{
}

/// A surface is clipped exactly where that can be done and it reaches outside the window; a
/// rectangle is rounded exactly where that can be done and the corners are not square, in its own
/// color and to the size of the window; all else is drawn as it is.
pub proof fn elements_are_clipped_to_the_window<E, H: Arithmetic + WindowRenderer<E>>(
    h: &H,
    elem: LayoutElementRenderElement<E>,
    scale: Scale,
    geo: Rectangle,
    radius: CornerRadius,
    has_border_shader: bool,
    has_clip_shader: bool,
    clipped: PipThumbnailRenderElement<E>,
)
    requires
        is_clipped_element(
            h,
            elem,
            scale,
            geo,
            radius,
            has_border_shader,
            has_clip_shader,
            clipped,
        ),
    ensures
        clipped is LayoutElement ==> clipped == PipThumbnailRenderElement::LayoutElement(elem),
        clipped is ClippedSurface ==> has_clip_shader && elem is Wayland
            && clipped->ClippedSurface_elem == elem->Wayland_0 && clipped->ClippedSurface_geo == geo
            && clipped->ClippedSurface_radius == radius && is_clip_answer(
            h,
            elem->Wayland_0,
            scale,
            geo,
            radius,
            true,
        ),
        elem is Wayland && has_clip_shader && !is_clip_answer(
            h,
            elem->Wayland_0,
            scale,
            geo,
            radius,
            false,
        ) ==> clipped is ClippedSurface,
        clipped is Border <==> elem is SolidColor && has_border_shader && !(radius.top_left.same(
            Number { bits: 0 },
        ) && radius.top_right.same(Number { bits: 0 }) && radius.bottom_right.same(
            Number { bits: 0 },
        ) && radius.bottom_left.same(Number { bits: 0 })),
        clipped matches PipThumbnailRenderElement::Border(border) ==> border.size == geo.size
            && border.geometry.size == geo.size && border.corner_radius == radius
            && border.color_from == elem->color && border.color_to == elem->color
            && border.border_width.bits == 0 && border.alpha.bits == 0x3ff0_0000_0000_0000
            && is_narrow(h, scale.x, border.scale),
{
}

/// Without thumbnails there is nothing in the scene. A thumbnail on top of others is drawn in front
/// of all of them on its own output, and not at all on another one.
pub proof fn scene_is_drawn_from_the_top<E, H: Arithmetic + WindowRenderer<E>>(
    h: &H,
    ctx: RenderContext,
    s: Seq<PipThumbnail>,
    windows: Seq<Mapped>,
    output: OutputId,
    elements: Seq<PipRenderElement<E>>,
)
    requires
        is_scene(h, ctx, s, windows, output, elements),
    ensures
        s.len() == 0 ==> elements.len() == 0,
        s.len() > 0 && s.last().output != output ==> is_scene(
            h,
            ctx,
            s.drop_last(),
            windows,
            output,
            elements,
        ),
        s.len() > 0 && s.last().output == output ==> exists|
            front: Seq<PipRenderElement<E>>,
            behind: Seq<PipRenderElement<E>>,
        |
            #![trigger is_drawn(h, ctx, s.last(), windows, front), is_scene(h, ctx, s.drop_last(), windows, output, behind)]
            is_drawn(h, ctx, s.last(), windows, front) && is_scene(
                h,
                ctx,
                s.drop_last(),
                windows,
                output,
                behind,
            ) && elements == front + behind,
{
    let parts = choose|parts: Seq<Seq<PipRenderElement<E>>>| #[trigger]
        is_drawn_in_parts(h, ctx, s, windows, output, parts) && elements == front_to_back(parts);
    if s.len() > 0 {
        let rest = s.drop_last();
        let fewer = parts.drop_last();
        assert forall|i: int| 0 <= i < rest.len() implies if rest[i].output == output {
            is_drawn(h, ctx, rest[i], windows, #[trigger] fewer[i])
        } else {
            fewer[i].len() == 0
        } by {
            assert(rest[i] == s[i]);
            assert(fewer[i] == parts[i]);
        }
        assert(is_drawn_in_parts(h, ctx, rest, windows, output, fewer));
        let front = parts[s.len() - 1];
        let behind = front_to_back(fewer);
        assert(is_scene(h, ctx, rest, windows, output, behind));
        assert(parts.last() == front);
        if s.last().output == output {
            assert(is_drawn(h, ctx, s.last(), windows, front));
        } else {
            assert(elements =~= behind);
        }
    }
}

/// The shadow of a thumbnail is black and lies `2` below it, softened by `18` and spread by `2`.
/// It is not drawn behind the window, and looks the same whether the window is active or not.
pub proof fn shadow_lies_below(v: spec_fn(Number) -> real)
    requires
        is_reading(v),
        v(Number { bits: 0x4032_0000_0000_0000 }) == 18real,
    ensures
        shadow_config().on,
        v(shadow_config().offset.x) == 0real,
        v(shadow_config().offset.y) == 2real,
        v(shadow_config().softness) == 18real,
        v(shadow_config().spread) == 2real,
        !shadow_config().draw_behind_window,
        shadow_config().color.r == 0 && shadow_config().color.g == 0 && shadow_config().color.b == 0,
        shadow_config().color.a == 0x50,
        shadow_config().inactive_color is None,
{
}

} // verus!
