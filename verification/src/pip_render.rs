//! What is drawn of the thumbnails.
//!
//! An element holds the values it is drawn with; turning it into surfaces and textures is left to
//! the renderer. What the renderer draws of a window passes through as it is.
use crate::geometry::{CornerRadius, PixelPoint, Point, Rectangle, Scale, Size};
use crate::number::{
    is_narrow, is_nearest, is_product, is_quotient, is_whole, saturate, saturated, Arithmetic, Number,
    ONE,
};
use crate::pip::PipManager;
use crate::thumbnail::{degenerate, one, zero, OutputId, PipThumbnail, CLOSE_BUTTON_SIZE};
use crate::window::{Mapped, MappedId};
use vstd::prelude::*;

verus! {

/// The alpha channel of the shadow.
pub const PIP_SHADOW_ALPHA: u8 = 0x50;

/// How soft the shadow is: `18`.
pub const PIP_SHADOW_SOFTNESS: u64 = 0x4032_0000_0000_0000;

/// How far the shadow spreads: `2`.
pub const PIP_SHADOW_SPREAD: u64 = 0x4000_0000_0000_0000;

/// How far the shadow is below the thumbnail: `2`.
pub const PIP_SHADOW_Y_OFFSET: u64 = 0x4000_0000_0000_0000;

/// The alpha of the close button: `0.75`.
pub const CLOSE_BUTTON_ALPHA: u64 = 0x3fe8_0000_0000_0000;

/// A color, its channels in single precision.
#[derive(Clone, Copy, Debug)]
pub struct Color {
    /// Red.
    pub r: Number,
    /// Green.
    pub g: Number,
    /// Blue.
    pub b: Number,
    /// Alpha.
    pub a: Number,
}

/// A color with channels of eight bits, not multiplied by its alpha.
#[derive(Clone, Copy, Debug, PartialEq, Eq, Structural)]
pub struct Rgba8 {
    /// Red.
    pub r: u8,
    /// Green.
    pub g: u8,
    /// Blue.
    pub b: u8,
    /// Alpha.
    pub a: u8,
}

/// How a shadow looks.
#[derive(Clone, Copy, Debug)]
pub struct ShadowConfig {
    /// Whether there is a shadow.
    pub on: bool,
    /// How far the shadow is away.
    pub offset: Point,
    /// How soft the shadow is.
    pub softness: Number,
    /// How far the shadow spreads.
    pub spread: Number,
    /// Whether the shadow is drawn behind the window too.
    pub draw_behind_window: bool,
    /// The color.
    pub color: Rgba8,
    /// The color while inactive.
    pub inactive_color: Option<Rgba8>,
}

/// An element of a window's contents.
#[derive(Debug)]
pub enum LayoutElementRenderElement<E> {
    /// A surface.
    Wayland(E),
    /// A rectangle in one color, in place of a window that must not be seen.
    SolidColor {
        /// The rectangle.
        elem: E,
        /// The color.
        color: Color,
    },
    /// An effect behind a surface.
    BackgroundEffect(E),
}

/// A border without width, which fills its area.
#[derive(Clone, Copy, Debug)]
pub struct BorderParams {
    /// The size of the element.
    pub size: Size,
    /// The area of the gradient.
    pub gradient_area: Rectangle,
    /// The color at the start.
    pub color_from: Color,
    /// The color at the end.
    pub color_to: Color,
    /// The angle of the gradient.
    pub angle: Number,
    /// The area that the border is round.
    pub geometry: Rectangle,
    /// The width of the border.
    pub border_width: Number,
    /// The corner radius.
    pub corner_radius: CornerRadius,
    /// The scale of the output in single precision.
    pub scale: Number,
    /// The opacity.
    pub alpha: Number,
}

/// An element of a window's contents, clipped.
#[derive(Debug)]
pub enum PipThumbnailRenderElement<E> {
    /// The element as it is.
    LayoutElement(LayoutElementRenderElement<E>),
    /// The surface, clipped to the geometry and the corner radius.
    ClippedSurface {
        /// The surface.
        elem: E,
        /// The scale of the output.
        scale: Scale,
        /// The geometry.
        geo: Rectangle,
        /// The corner radius.
        radius: CornerRadius,
    },
    /// A rounded rectangle in place of one with square corners.
    Border(BorderParams),
}

/// An element of the scene that the thumbnails add.
#[derive(Debug)]
pub enum PipRenderElement<E> {
    /// An element of a window's contents, scaled towards the origin and moved from there.
    Thumbnail {
        /// The element.
        elem: PipThumbnailRenderElement<E>,
        /// The factor from the window to the thumbnail.
        scale: Scale,
        /// How far it is moved, in physical pixels.
        offset: PixelPoint,
    },
    /// The shadow of a thumbnail.
    Shadow {
        /// How it looks.
        config: ShadowConfig,
        /// The size of what throws it.
        size: Size,
        /// Whether what throws it is active.
        is_active: bool,
        /// The corner radius of what throws it.
        radius: CornerRadius,
        /// The scale of the output.
        scale: Number,
        /// The opacity.
        alpha: Number,
        /// Where the thumbnail is.
        position: Point,
    },
    /// A rectangle in one color.
    SolidColor {
        /// Its size.
        size: Size,
        /// Its color.
        color: Color,
        /// Where it is.
        position: Point,
        /// The opacity.
        alpha: Number,
    },
}

/// How an output is drawn.
#[derive(Clone, Copy, Debug)]
pub struct RenderContext {
    /// The fractional scale of the output.
    pub scale: Number,
    /// Whether rounded rectangles can be drawn.
    pub has_border_shader: bool,
    /// Whether surfaces can be clipped to rounded corners.
    pub has_clip_shader: bool,
}

impl RenderContext {
    /// The scale of the output along both axes.
    pub open spec fn output_scale(self) -> Scale {
        Scale { x: self.scale, y: self.scale }
    }
}

/// What draws windows.
///
/// The methods carry no contract: a caller learns only that an answer was given.
pub trait WindowRenderer<E> {
    /// The elements of a window's contents at a location, from front to back.
    fn render_normal(
        &self,
        mapped: &Mapped,
        location: Point,
        scale: Scale,
        alpha: Number,
    ) -> Vec<LayoutElementRenderElement<E>>;

    /// Whether a surface reaches outside a geometry with rounded corners.
    fn will_clip(&self, elem: &E, scale: Scale, geo: Rectangle, radius: CornerRadius) -> bool;
}

/// `contents` was answered for the elements of a window.
#[verifier::inline]
pub open spec fn is_contents<E, H: WindowRenderer<E>>(
    h: &H,
    mapped: Mapped,
    location: Point,
    scale: Scale,
    alpha: Number,
    contents: Vec<LayoutElementRenderElement<E>>,
) -> bool {
    call_ensures(H::render_normal, (h, &mapped, location, scale, alpha), contents)
}

/// `clips` was answered for whether a surface reaches outside.
#[verifier::inline]
pub open spec fn is_clip_answer<E, H: WindowRenderer<E>>(
    h: &H,
    elem: E,
    scale: Scale,
    geo: Rectangle,
    radius: CornerRadius,
    clips: bool,
) -> bool {
    call_ensures(H::will_clip, (h, &elem, scale, geo, radius), clips)
}

/// How the shadow of a thumbnail looks.
pub open spec fn shadow_config() -> ShadowConfig {
    ShadowConfig {
        on: true,
        offset: Point { x: zero(), y: Number { bits: PIP_SHADOW_Y_OFFSET } },
        softness: Number { bits: PIP_SHADOW_SOFTNESS },
        spread: Number { bits: PIP_SHADOW_SPREAD },
        draw_behind_window: false,
        color: Rgba8 { r: 0, g: 0, b: 0, a: PIP_SHADOW_ALPHA },
        inactive_color: None,
    }
}

/// How the shadow of a thumbnail looks.
pub fn pip_shadow_config() -> (config: ShadowConfig)
    ensures
        config == shadow_config(),
{
    ShadowConfig {
        on: true,
        offset: Point::new(Number::zero(), Number::new(PIP_SHADOW_Y_OFFSET)),
        softness: Number::new(PIP_SHADOW_SOFTNESS),
        spread: Number::new(PIP_SHADOW_SPREAD),
        draw_behind_window: false,
        color: Rgba8 { r: 0, g: 0, b: 0, a: PIP_SHADOW_ALPHA },
        inactive_color: None,
    }
}

/// `r` is the product in single precision.
pub open spec fn is_single_product<A: Arithmetic>(a: &A, x: Number, y: Number, r: Number) -> bool {
    exists|p: Number| #[trigger] is_product(a, x, y, p) && is_narrow(a, p, r)
}

/// `scaled` is the radius times the scale, or square where the scale is negative.
pub open spec fn is_scaled_radius<A: Arithmetic>(
    a: &A,
    radius: CornerRadius,
    scale: Number,
    scaled: CornerRadius,
) -> bool {
    let scale = scale.greater(zero());
    &&& is_single_product(a, radius.top_left, scale, scaled.top_left)
    &&& is_single_product(a, radius.top_right, scale, scaled.top_right)
    &&& is_single_product(a, radius.bottom_right, scale, scaled.bottom_right)
    &&& is_single_product(a, radius.bottom_left, scale, scaled.bottom_left)
}

fn single_product<A: Arithmetic>(a: &A, x: Number, y: Number) -> (r: Number)
    ensures
        is_single_product(a, x, y, r),
{
    a.narrow(a.product(x, y))
}

/// The corner radius at a scale. A negative scale counts as zero.
pub fn scale_corner_radius<A: Arithmetic>(a: &A, radius: CornerRadius, scale: Number) -> (scaled:
    CornerRadius)
    ensures
        is_scaled_radius(a, radius, scale, scaled),
{
    let scale = scale.max(Number::zero());
    CornerRadius {
        top_left: single_product(a, radius.top_left, scale),
        top_right: single_product(a, radius.top_right, scale),
        bottom_right: single_product(a, radius.bottom_right, scale),
        bottom_left: single_product(a, radius.bottom_left, scale),
    }
}

/// The window with an identifier: the first one, where there are several.
pub open spec fn window_of(windows: Seq<Mapped>, id: MappedId) -> Option<Mapped>
    decreases windows.len(),
{
    if windows.len() == 0 {
        None
    } else if windows[0].id == id {
        Some(windows[0])
    } else {
        window_of(windows.drop_first(), id)
    }
}

/// The corner radius of a window: that of its rules while it is neither maximized nor fullscreen,
/// and square corners otherwise.
pub open spec fn radius_of(mapped: Mapped) -> CornerRadius {
    match mapped.geometry_corner_radius {
        Some(radius) if mapped.is_normal => radius,
        _ => CornerRadius::square(),
    }
}

/// The close button, drawn over the upper-left corner of a thumbnail.
pub open spec fn close_button<E>(thumb: PipThumbnail) -> PipRenderElement<E> {
    let side = Number { bits: CLOSE_BUTTON_SIZE };
    PipRenderElement::SolidColor {
        size: Size { w: side, h: side },
        color: Color { r: zero(), g: zero(), b: zero(), a: Number { bits: CLOSE_BUTTON_ALPHA } },
        position: thumb.position,
        alpha: one(),
    }
}

/// `scale` is the factor from the window to the thumbnail.
pub open spec fn is_thumb_scale<A: Arithmetic>(a: &A, thumb: PipThumbnail, scale: Scale) -> bool {
    is_quotient(a, thumb.size.w, thumb.source_size.w, scale.x) && is_quotient(
        a,
        thumb.size.h,
        thumb.source_size.h,
        scale.y,
    )
}

/// `radius` is the corner radius of the shadow: that of the window, scaled down with it.
pub open spec fn is_shadow_radius<A: Arithmetic>(
    a: &A,
    of_window: CornerRadius,
    scale: Scale,
    radius: CornerRadius,
) -> bool {
    exists|factor: Number| #[trigger]
        is_narrow(a, scale.x.lesser(scale.y), factor) && is_scaled_radius(
            a,
            of_window,
            factor,
            radius,
        )
}

/// `clipped` is the element fitted into the geometry. A surface is clipped where there is a shader
/// for that and it reaches outside. A rectangle is rounded where the corners are not square and
/// there is a shader for that. Anything else stays as it is.
pub open spec fn is_clipped_element<E, H: Arithmetic + WindowRenderer<E>>(
    h: &H,
    elem: LayoutElementRenderElement<E>,
    scale: Scale,
    geo: Rectangle,
    radius: CornerRadius,
    has_border_shader: bool,
    has_clip_shader: bool,
    clipped: PipThumbnailRenderElement<E>,
) -> bool {
    let same = PipThumbnailRenderElement::LayoutElement(elem);
    match elem {
        LayoutElementRenderElement::Wayland(surface) => if has_clip_shader {
            exists|clips: bool| #[trigger]
                is_clip_answer(h, surface, scale, geo, radius, clips) && clipped == if clips {
                    PipThumbnailRenderElement::ClippedSurface { elem: surface, scale, geo, radius }
                } else {
                    same
                }
        } else {
            clipped == same
        },
        LayoutElementRenderElement::SolidColor { color, .. } => if !radius.same(
            CornerRadius::square(),
        ) && has_border_shader {
            let area = Rectangle { loc: Point { x: zero(), y: zero() }, size: geo.size };
            exists|single: Number| #[trigger]
                is_narrow(h, scale.x, single) && clipped == PipThumbnailRenderElement::<E>::Border(
                    BorderParams {
                        size: geo.size,
                        gradient_area: area,
                        color_from: color,
                        color_to: color,
                        angle: zero(),
                        geometry: area,
                        border_width: zero(),
                        corner_radius: radius,
                        scale: single,
                        alpha: one(),
                    },
                )
        } else {
            clipped == same
        },
        LayoutElementRenderElement::BackgroundEffect(_) => clipped == same,
    }
}

/// Fits an element of a window's contents into the geometry and corner radius of the window.
pub fn clip_element<E, H: Arithmetic + WindowRenderer<E>>(
    h: &H,
    elem: LayoutElementRenderElement<E>,
    scale: Scale,
    geo: Rectangle,
    radius: CornerRadius,
    has_border_shader: bool,
    has_clip_shader: bool,
) -> (clipped: PipThumbnailRenderElement<E>)
    ensures
        is_clipped_element(
            h,
            elem,
            scale,
            geo,
            radius,
            has_border_shader,
            has_clip_shader,
            clipped,
        ),
{
    match elem {
        LayoutElementRenderElement::Wayland(elem) => {
            if has_clip_shader {
                if h.will_clip(&elem, scale, geo, radius) {
                    return PipThumbnailRenderElement::ClippedSurface { elem, scale, geo, radius };
                }
            }
            PipThumbnailRenderElement::LayoutElement(LayoutElementRenderElement::Wayland(elem))
        },
        LayoutElementRenderElement::SolidColor { elem, color } => {
            if !radius.is_same(CornerRadius::default()) && has_border_shader {
                let zero = Number::zero();
                let area = Rectangle::new(Point::new(zero, zero), geo.size);
                return PipThumbnailRenderElement::Border(
                    BorderParams {
                        size: geo.size,
                        gradient_area: area,
                        color_from: color,
                        color_to: color,
                        angle: zero,
                        geometry: area,
                        border_width: zero,
                        corner_radius: radius,
                        scale: h.narrow(scale.x),
                        alpha: Number::new(ONE),
                    },
                );
            }
            PipThumbnailRenderElement::LayoutElement(
                LayoutElementRenderElement::SolidColor { elem, color },
            )
        },
        LayoutElementRenderElement::BackgroundEffect(
            elem,
        ) => PipThumbnailRenderElement::LayoutElement(
            LayoutElementRenderElement::BackgroundEffect(elem),
        ),
    }
}

/// `pixel` is the physical pixel nearest to a place in logical pixels.
pub open spec fn is_nearest_pixel<A: Arithmetic>(
    a: &A,
    place: Number,
    scale: Number,
    pixel: int,
) -> bool {
    exists|product: Number, rounded: Number, whole: i64|
        #![trigger is_product(a, place, scale, product), is_nearest(a, product, rounded), is_whole(a, rounded, whole)]
        is_product(a, place, scale, product) && is_nearest(a, product, rounded) && is_whole(
            a,
            rounded,
            whole,
        ) && pixel == saturated(whole)
}

fn nearest_pixel<A: Arithmetic>(a: &A, place: Number, scale: Number) -> (pixel: i32)
    ensures
        is_nearest_pixel(a, place, scale, pixel as int),
{
    let product = a.product(place, scale);
    let rounded = a.nearest(product);
    saturate(a.whole(rounded))
}

/// What the picture of a window was drawn with.
pub ghost struct PictureSteps<E> {
    /// The factor from the window to the thumbnail.
    pub scale: Scale,
    /// The corner radius of the shadow.
    pub shadow_radius: CornerRadius,
    /// Where the thumbnail is, in physical pixels.
    pub offset: PixelPoint,
    /// The contents of the window.
    pub contents: Vec<LayoutElementRenderElement<E>>,
}

/// `s` is what the picture of a window is drawn with.
pub open spec fn is_picture_steps<E, H: Arithmetic + WindowRenderer<E>>(
    h: &H,
    ctx: RenderContext,
    thumb: PipThumbnail,
    mapped: Mapped,
    s: PictureSteps<E>,
) -> bool {
    &&& is_thumb_scale(h, thumb, s.scale)
    &&& is_shadow_radius(h, radius_of(mapped), s.scale, s.shadow_radius)
    &&& is_nearest_pixel(h, thumb.position.x, ctx.scale, s.offset.x as int)
    &&& is_nearest_pixel(h, thumb.position.y, ctx.scale, s.offset.y as int)
    &&& is_contents(
        h,
        mapped,
        Point { x: zero(), y: zero() },
        ctx.output_scale(),
        one(),
        s.contents,
    )
}

/// `drawn` is an element of the window's contents, clipped to its geometry and rounded corners,
/// scaled, and moved.
pub open spec fn is_content_drawn<E, H: Arithmetic + WindowRenderer<E>>(
    h: &H,
    ctx: RenderContext,
    thumb: PipThumbnail,
    mapped: Mapped,
    s: PictureSteps<E>,
    elem: LayoutElementRenderElement<E>,
    drawn: PipRenderElement<E>,
) -> bool {
    exists|clipped: PipThumbnailRenderElement<E>| #[trigger]
        is_clipped_element(
            h,
            elem,
            ctx.output_scale(),
            Rectangle { loc: Point { x: zero(), y: zero() }, size: thumb.source_size },
            radius_of(mapped),
            ctx.has_border_shader,
            ctx.has_clip_shader,
            clipped,
        ) && drawn == (PipRenderElement::Thumbnail {
            elem: clipped,
            scale: s.scale,
            offset: s.offset,
        })
}

/// The shadow of a thumbnail.
pub open spec fn shadow<E>(
    ctx: RenderContext,
    thumb: PipThumbnail,
    radius: CornerRadius,
) -> PipRenderElement<E> {
    PipRenderElement::Shadow {
        config: shadow_config(),
        size: thumb.size,
        is_active: true,
        radius,
        scale: ctx.scale,
        alpha: one(),
        position: thumb.position,
    }
}

/// `elements` are the picture of the window, element by element, and its shadow behind them.
pub open spec fn is_picture<E, H: Arithmetic + WindowRenderer<E>>(
    h: &H,
    ctx: RenderContext,
    thumb: PipThumbnail,
    mapped: Mapped,
    elements: Seq<PipRenderElement<E>>,
) -> bool {
    exists|s: PictureSteps<E>| #[trigger]
        is_picture_steps(h, ctx, thumb, mapped, s) && elements.len() == s.contents@.len() + 1 && (
        forall|i: int|
            0 <= i < s.contents@.len() ==> is_content_drawn(
                h,
                ctx,
                thumb,
                mapped,
                s,
                s.contents@[i],
                #[trigger] elements[i],
            )) && elements.last() == shadow::<E>(ctx, thumb, s.shadow_radius)
}

/// `elements` are what a thumbnail of the output adds, from front to back: the close button while
/// hovered, then the picture and the shadow. There is no picture of a window that has no area or
/// that is gone.
pub open spec fn is_drawn<E, H: Arithmetic + WindowRenderer<E>>(
    h: &H,
    ctx: RenderContext,
    thumb: PipThumbnail,
    windows: Seq<Mapped>,
    elements: Seq<PipRenderElement<E>>,
) -> bool {
    let button = if thumb.is_hovered {
        seq![close_button::<E>(thumb)]
    } else {
        Seq::<PipRenderElement<E>>::empty()
    };
    match window_of(windows, thumb.source_id) {
        Some(mapped) if !degenerate(thumb.source_size) => exists|picture: Seq<PipRenderElement<E>>|
         #[trigger]
            is_picture(h, ctx, thumb, mapped, picture) && elements == button + picture,
        _ => elements == button,
    }
}

/// The parts one after the other, the last one first.
pub open spec fn front_to_back<E>(parts: Seq<Seq<PipRenderElement<E>>>) -> Seq<PipRenderElement<E>>
    decreases parts.len(),
{
    if parts.len() == 0 {
        Seq::empty()
    } else {
        parts.last() + front_to_back(parts.drop_last())
    }
}

/// `parts` are what the thumbnails add to the scene of an output.
pub open spec fn is_drawn_in_parts<E, H: Arithmetic + WindowRenderer<E>>(
    h: &H,
    ctx: RenderContext,
    s: Seq<PipThumbnail>,
    windows: Seq<Mapped>,
    output: OutputId,
    parts: Seq<Seq<PipRenderElement<E>>>,
) -> bool {
    &&& parts.len() == s.len()
    &&& forall|i: int|
        0 <= i < s.len() ==> if s[i].output == output {
            is_drawn(h, ctx, s[i], windows, #[trigger] parts[i])
        } else {
            parts[i].len() == 0
        }
}

/// `elements` are what the thumbnails add to the scene of an output, from front to back.
pub open spec fn is_scene<E, H: Arithmetic + WindowRenderer<E>>(
    h: &H,
    ctx: RenderContext,
    s: Seq<PipThumbnail>,
    windows: Seq<Mapped>,
    output: OutputId,
    elements: Seq<PipRenderElement<E>>,
) -> bool {
    exists|parts: Seq<Seq<PipRenderElement<E>>>| #[trigger]
        is_drawn_in_parts(h, ctx, s, windows, output, parts) && elements == front_to_back(parts)
}

/// Appending to the front of the parts appends to the end of the scene.
proof fn lemma_front_to_back<E>(
    parts: Seq<Seq<PipRenderElement<E>>>,
    first: Seq<PipRenderElement<E>>,
)
    ensures
        front_to_back(seq![first] + parts) == front_to_back(parts) + first,
    decreases parts.len(),
{
    let all = seq![first] + parts;
    if parts.len() == 0 {
        assert(all.drop_last() =~= parts);
        assert(all.last() == first);
        assert(front_to_back(all) =~= front_to_back(parts) + first);
    } else {
        assert(all.drop_last() =~= seq![first] + parts.drop_last());
        assert(all.last() == parts.last());
        lemma_front_to_back(parts.drop_last(), first);
        assert(front_to_back(all) =~= front_to_back(parts) + first);
    }
}

fn find_window(windows: &Vec<Mapped>, id: MappedId) -> (found: Option<Mapped>)
    ensures
        found == window_of(windows@, id),
{
    let mut i: usize = 0;
    assert(windows@.skip(0) =~= windows@);
    while i < windows.len()
        invariant
            i <= windows.len(),
            window_of(windows@, id) == window_of(windows@.skip(i as int), id),
        decreases windows.len() - i,
    {
        assert(windows@.skip(i as int).drop_first() =~= windows@.skip(i + 1));
        if windows[i].id == id {
            return Some(windows[i]);
        }
        i += 1;
    }
    None
}

fn draw_picture<E, H: Arithmetic + WindowRenderer<E>>(
    h: &H,
    ctx: RenderContext,
    thumb: PipThumbnail,
    mapped: Mapped,
    elements: &mut Vec<PipRenderElement<E>>,
)
    ensures
        exists|picture: Seq<PipRenderElement<E>>| #[trigger]
            is_picture(h, ctx, thumb, mapped, picture) && final(elements)@ == old(elements)@
                + picture,
{
    let radius = match mapped.geometry_corner_radius {
        Some(radius) if mapped.is_normal => radius,
        _ => CornerRadius::default(),
    };
    let zero = Number::zero();
    let one = Number::new(ONE);
    let origin = Point::new(zero, zero);
    let output_scale = Scale { x: ctx.scale, y: ctx.scale };
    let geo = Rectangle::new(origin, thumb.source_size);
    let scale = Scale {
        x: h.quotient(thumb.size.w, geo.size.w),
        y: h.quotient(thumb.size.h, geo.size.h),
    };
    let shadow_scale = h.narrow(scale.x.min(scale.y));
    let offset = PixelPoint {
        x: nearest_pixel(h, thumb.position.x, ctx.scale),
        y: nearest_pixel(h, thumb.position.y, ctx.scale),
    };
    let contents = h.render_normal(&mapped, origin, output_scale, one);
    let shadow_radius = scale_corner_radius(h, radius, shadow_scale);
    let ghost s = PictureSteps { scale, shadow_radius, offset, contents };
    proof {
        assert(is_shadow_radius(h, radius_of(mapped), scale, shadow_radius));
        assert(is_picture_steps(h, ctx, thumb, mapped, s));
    }

    let ghost start = elements@;
    let ghost mut picture: Seq<PipRenderElement<E>> = Seq::empty();
    assert(elements@ =~= start + picture);
    for elem in it: contents.into_iter()
        invariant
            it.seq() == s.contents@,
            picture.len() == it.index(),
            elements@ == start + picture,
            radius == radius_of(mapped),
            geo == (Rectangle {
                loc: Point { x: Number { bits: 0 }, y: Number { bits: 0 } },
                size: thumb.source_size,
            }),
            output_scale == ctx.output_scale(),
            scale == s.scale,
            offset == s.offset,
            forall|i: int|
                0 <= i < picture.len() ==> is_content_drawn(
                    h,
                    ctx,
                    thumb,
                    mapped,
                    s,
                    s.contents@[i],
                    #[trigger] picture[i],
                ),
    {
        let clipped = clip_element(
            h,
            elem,
            output_scale,
            geo,
            radius,
            ctx.has_border_shader,
            ctx.has_clip_shader,
        );
        let drawn = PipRenderElement::Thumbnail { elem: clipped, scale, offset };
        proof {
            assert(is_content_drawn(h, ctx, thumb, mapped, s, elem, drawn));
            picture = picture.push(drawn);
        }
        elements.push(drawn);
        assert(elements@ =~= start + picture);
    }

    let shadow = PipRenderElement::Shadow {
        config: pip_shadow_config(),
        size: thumb.size,
        is_active: true,
        radius: shadow_radius,
        scale: ctx.scale,
        alpha: one,
        position: thumb.position,
    };
    proof {
        picture = picture.push(shadow);
        assert(is_picture(h, ctx, thumb, mapped, picture));
    }
    elements.push(shadow);
    assert(elements@ =~= start + picture);
}

fn draw<E, H: Arithmetic + WindowRenderer<E>>(
    h: &H,
    ctx: RenderContext,
    thumb: PipThumbnail,
    windows: &Vec<Mapped>,
) -> (elements: Vec<PipRenderElement<E>>)
    ensures
        is_drawn(h, ctx, thumb, windows@, elements@),
{
    let zero = Number::zero();
    let mut elements: Vec<PipRenderElement<E>> = Vec::new();
    if thumb.is_hovered {
        let side = Number::new(CLOSE_BUTTON_SIZE);
        elements.push(
            PipRenderElement::SolidColor {
                size: Size::new(side, side),
                color: Color { r: zero, g: zero, b: zero, a: Number::new(CLOSE_BUTTON_ALPHA) },
                position: thumb.position,
                alpha: Number::new(ONE),
            },
        );
        assert(elements@ =~= seq![close_button::<E>(thumb)]);
    }
    if thumb.source_size.w.is_le(zero) || thumb.source_size.h.is_le(zero) {
        return elements;
    }
    if let Some(mapped) = find_window(windows, thumb.source_id) {
        draw_picture(h, ctx, thumb, mapped, &mut elements);
    }
    elements
}

impl PipManager {
    /// What the thumbnails add to the scene of an output, from front to back.
    pub fn render_for_output<E, H: Arithmetic + WindowRenderer<E>>(
        &self,
        h: &H,
        windows: &Vec<Mapped>,
        output: OutputId,
        ctx: RenderContext,
    ) -> (elements: Vec<PipRenderElement<E>>)
        ensures
            is_scene(h, ctx, self@, windows@, output, elements@),
    {
        let thumbnails = self.stack();
        let ghost s = self@;
        let ghost mut parts: Seq<Seq<PipRenderElement<E>>> = Seq::empty();
        let mut elements: Vec<PipRenderElement<E>> = Vec::new();
        let mut i: usize = thumbnails.len();
        while i > 0
            invariant
                i <= thumbnails.len(),
                thumbnails@ == s,
                is_drawn_in_parts(h, ctx, s.skip(i as int), windows@, output, parts),
                elements@ == front_to_back(parts),
            decreases i,
        {
            i -= 1;
            let thumb = thumbnails[i];
            let ghost start = elements@;
            let ghost mut part: Seq<PipRenderElement<E>> = Seq::empty();
            if thumb.output == output {
                let mut drawn = draw(h, ctx, thumb, windows);
                proof {
                    part = drawn@;
                }
                elements.append(&mut drawn);
            }
            proof {
                assert(elements@ =~= start + part);
                lemma_front_to_back(parts, part);
                let more = seq![part] + parts;
                assert forall|j: int| 0 <= j < s.skip(i as int).len() implies if s.skip(
                    i as int,
                )[j].output == output {
                    is_drawn(h, ctx, s.skip(i as int)[j], windows@, #[trigger] more[j])
                } else {
                    more[j].len() == 0
                } by {
                    if j > 0 {
                        assert(more[j] == parts[j - 1]);
                        assert(s.skip(i as int)[j] == s.skip(i + 1)[j - 1]);
                    }
                }
                parts = more;
            }
        }
        assert(s.skip(0) =~= s);
        elements
    }
}

} // verus!
