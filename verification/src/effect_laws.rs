//! What holds of background effects from the rules to what is drawn.
use crate::background_effect::{
    is_clip_fitted, is_clip_radius, is_configured, is_draw_steps, is_expanded, is_fitted,
    is_framebuffer_drawn, is_rendered, is_rounded_area, is_surface_area, is_surface_effect,
    is_surface_params, is_surface_rendered, is_updated, is_xray_drawn, known_geometry,
    BackgroundEffect, BackgroundEffectElement, Blur, BlurOptions, DrawSteps, EffectRules,
    RenderParams, Rounding, TransformedRegion,
};
use crate::exact::is_exact;
use crate::geometry::{is_pixel_point, CornerRadius, PixelRectangle, Point, Rectangle, Scale};
use crate::number::{is_narrow, is_sum, Arithmetic, Number};
use vstd::prelude::*;

verus! {

/// The rules hold numbers only.
pub open spec fn has_numbers(rules: EffectRules) -> bool {
    &&& rules.noise matches Some(noise) ==> !noise.nan()
    &&& rules.saturation matches Some(saturation) ==> !saturation.nan()
}

/// After new rules, the effect is what they ask for. Blur that they leave open is shown where the
/// surface asks for a blur region; noise and saturation are taken over; the wallpaper that they
/// leave open is seen through anything else that is shown.
pub proof fn effect_follows_the_rules(
    before: BackgroundEffect,
    radius: CornerRadius,
    rules: EffectRules,
    has_blur_region: bool,
    after: BackgroundEffect,
)
    requires
        has_numbers(rules),
        is_updated(before, radius, rules, has_blur_region, after),
    ensures
        after.spec_blur_config() == before.spec_blur_config(),
        rules.blur == Some(true) ==> after.spec_options().blur,
        rules.blur == Some(false) ==> !after.spec_options().blur,
        rules.blur is None ==> after.spec_options().blur == has_blur_region,
        rules.noise is None <==> after.spec_options().noise is None,
        rules.noise matches Some(noise) ==> noise.same(after.spec_options().noise->0),
        rules.saturation is None <==> after.spec_options().saturation is None,
        rules.saturation matches Some(saturation) ==> saturation.same(
            after.spec_options().saturation->0,
        ),
        rules.xray == Some(true) ==> after.spec_options().xray,
        rules.xray == Some(false) ==> !after.spec_options().xray,
        rules.xray is None ==> (after.spec_options().xray <==> after.spec_options().blur || (
        rules.noise matches Some(noise) && (Number { bits: 0 }).lt(noise)) || (
        rules.saturation matches Some(saturation) && !saturation.same(
            Number { bits: 0x3ff0_0000_0000_0000 },
        ))),
        after.spec_corner_radius() == radius || after.spec_corner_radius().same(radius),
{
}

/// New rules or a new radius are drawn, and what stays the same is not drawn again: the counter
/// moves exactly where something changes.
pub proof fn changes_are_drawn_again(
    before: BackgroundEffect,
    radius: CornerRadius,
    rules: EffectRules,
    has_blur_region: bool,
    config: Blur,
    updated: BackgroundEffect,
    configured: BackgroundEffect,
)
    requires
        is_updated(before, radius, rules, has_blur_region, updated),
        is_configured(before, config, configured),
    ensures
        updated.spec_damage() == before.spec_damage() ==> updated == before,
        configured.spec_damage() == before.spec_damage() ==> configured == before,
        configured.spec_blur_config() == config || configured.spec_blur_config().same(config),
        configured.spec_options() == before.spec_options(),
        configured.spec_corner_radius() == before.spec_corner_radius(),
        before.spec_blur_config().same(config) ==> configured == before,
        updated.spec_damage() == before.spec_damage() || updated.spec_damage()
            == before.spec_damage() + 1 || updated.spec_damage() == 0,
        configured.spec_damage() == before.spec_damage() || configured.spec_damage()
            == before.spec_damage() + 1 || configured.spec_damage() == 0,
{
}

/// Blur is shown where it is asked for and not disabled.
pub open spec fn shows_blur(effect: BackgroundEffect) -> bool {
    effect.spec_options().blur && !effect.spec_blur_config().off
}

/// The noise that goes into drawing, in single precision: that of the effect, whatever the
/// configuration of blur is. Only where the effect has none, it is that of blur where blur is
/// shown, and none otherwise.
pub open spec fn is_drawn_noise<A: Arithmetic>(a: &A, effect: BackgroundEffect, n: Number) -> bool {
    &&& effect.spec_options().noise matches Some(noise) ==> is_narrow(a, noise, n)
    &&& effect.spec_options().noise is None && shows_blur(effect) ==> is_narrow(
        a,
        effect.spec_blur_config().noise,
        n,
    )
    &&& effect.spec_options().noise is None && !shows_blur(effect) ==> is_narrow(
        a,
        Number { bits: 0 },
        n,
    )
}

/// The saturation that goes into drawing, in single precision: that of the effect, whatever the
/// configuration of blur is. Only where the effect has none, it is that of blur where blur is
/// shown, and the normal one otherwise.
pub open spec fn is_drawn_saturation<A: Arithmetic>(
    a: &A,
    effect: BackgroundEffect,
    s: Number,
) -> bool {
    &&& effect.spec_options().saturation matches Some(saturation) ==> is_narrow(a, saturation, s)
    &&& effect.spec_options().saturation is None && shows_blur(effect) ==> is_narrow(
        a,
        effect.spec_blur_config().saturation,
        s,
    )
    &&& effect.spec_options().saturation is None && !shows_blur(effect) ==> is_narrow(
        a,
        Number { bits: 0x3ff0_0000_0000_0000 },
        s,
    )
}

/// What is drawn where, and clipped to what: the geometry and the subregion that were given, and
/// where there is an area to clip to, that one, with the radius of the effect, a pixel more, as far
/// as the area has room for it.
pub open spec fn is_drawn_place<H: Arithmetic + Rounding>(
    h: &H,
    effect: BackgroundEffect,
    given: RenderParams,
    drawn: RenderParams,
) -> bool {
    &&& drawn.geometry == given.geometry
    &&& drawn.subregion == given.subregion
    &&& drawn.scale == given.scale
    &&& given.clip is None <==> drawn.clip is None
    &&& given.clip matches Some(clip) ==> {
        &&& (drawn.clip->0).0 == clip.0
        &&& exists|wide: CornerRadius, w: Number, height: Number|
            #![trigger is_expanded(h, effect.spec_corner_radius(), Number { bits: 0x3ff0_0000_0000_0000 }, wide), is_narrow(h, clip.0.size.w, w), is_narrow(h, clip.0.size.h, height)]
            is_expanded(
                h,
                effect.spec_corner_radius(),
                Number { bits: 0x3ff0_0000_0000_0000 },
                wide,
            ) && is_narrow(h, clip.0.size.w, w) && is_narrow(h, clip.0.size.h, height) && is_fitted(
                h,
                wide,
                w,
                height,
                (drawn.clip->0).1,
            )
    }
}

proof fn lemma_place<H: Arithmetic + Rounding>(
    h: &H,
    effect: BackgroundEffect,
    given: RenderParams,
    drawn: RenderParams,
)
    requires
        is_clip_fitted(h, effect.with_radius(given), drawn),
    ensures
        is_drawn_place(h, effect, given, drawn),
{
    if let Some((area, radius)) = given.clip {
        let of_effect = effect.spec_corner_radius();
        assert(is_clip_radius(h, area, of_effect, (drawn.clip->0).1));
        let one = Number { bits: 0x3ff0_0000_0000_0000 };
        let (wide, w, height) = choose|wide: CornerRadius, w: Number, height: Number|
            #![trigger is_expanded(h, of_effect, one, wide), is_narrow(h, area.size.w, w), is_narrow(h, area.size.h, height)]
            is_expanded(h, of_effect, one, wide) && is_narrow(h, area.size.w, w) && is_narrow(
                h,
                area.size.h,
                height,
            ) && is_fitted(h, wide, w, height, (drawn.clip->0).1);
        assert(is_expanded(h, of_effect, one, wide));
    }
}

/// An effect that shows nothing draws nothing.
pub proof fn invisible_effect_draws_nothing<
    H: Arithmetic + Rounding,
    X,
    F,
    DX: FnOnce(RenderParams, bool, Number, Number) -> Vec<X>,
    DF: FnOnce(RenderParams, Option<BlurOptions>, Number, Number) -> Option<F>,
>(
    h: &H,
    effect: BackgroundEffect,
    params: RenderParams,
    xray: Option<DX>,
    framebuffer: DF,
    elements: Seq<BackgroundEffectElement<X, F>>,
)
    requires
        is_rendered(h, effect, params, xray, framebuffer, elements),
        !effect.spec_options().xray,
        !effect.spec_options().blur,
        effect.spec_options().noise matches Some(noise) ==> noise.le(Number { bits: 0 }),
        effect.spec_options().saturation matches Some(saturation) ==> saturation.same(
            Number { bits: 0x3ff0_0000_0000_0000 },
        ),
    ensures
        elements.len() == 0,
{
}

/// An effect through which the wallpaper is seen draws the wallpaper, where there is one, with the
/// noise and the saturation of the effect, blurred where blur is shown. In front of it goes what
/// redraws the area whenever the effect changes.
pub proof fn wallpaper_is_drawn_with_the_effect<
    H: Arithmetic + Rounding,
    X,
    F,
    DX: FnOnce(RenderParams, bool, Number, Number) -> Vec<X>,
    DF: FnOnce(RenderParams, Option<BlurOptions>, Number, Number) -> Option<F>,
>(
    h: &H,
    effect: BackgroundEffect,
    params: RenderParams,
    xray: Option<DX>,
    framebuffer: DF,
    elements: Seq<BackgroundEffectElement<X, F>>,
)
    requires
        is_rendered(h, effect, params, xray, framebuffer, elements),
        effect.spec_options().xray,
    ensures
        xray is None ==> elements.len() == 0,
        xray matches Some(draw) ==> exists|p: RenderParams, n: Number, s: Number, drawn: Vec<X>|
            #[trigger]
            draw.ensures((p, shows_blur(effect), n, s), drawn) && is_drawn_place(
                h,
                effect,
                params,
                p,
            ) && is_drawn_noise(h, effect, n) && is_drawn_saturation(h, effect, s)
                && elements.len() == drawn@.len() + 1 && elements[0]
                == (BackgroundEffectElement::<X, F>::ExtraDamage {
                geometry: params.geometry,
                commit: effect.spec_damage(),
            }) && forall|i: int|
                0 <= i < drawn@.len() ==> #[trigger] elements[i + 1]
                    == BackgroundEffectElement::<X, F>::Xray(drawn@[i]),
{
    let s = choose|s: DrawSteps| #[trigger]
        is_draw_steps(h, effect, params, s) && is_xray_drawn(
            effect,
            s.params,
            s.noise,
            s.saturation,
            xray,
            elements,
        );
    lemma_place(h, effect, params, s.params);
    if let Some(draw) = xray {
        let drawn = choose|drawn: Vec<X>| #[trigger]
            draw.ensures((s.params, effect.blurs(), s.noise, s.saturation), drawn) && elements
                == seq![effect.extra_damage::<X, F>(s.params.geometry)] + drawn@.map_values(
                |x: X| BackgroundEffectElement::<X, F>::Xray(x),
            );
        assert(draw.ensures((s.params, shows_blur(effect), s.noise, s.saturation), drawn));
    }
}

/// A visible effect without the wallpaper is drawn on what lies behind, with the noise and the
/// saturation of the effect, and with blur as it is configured where blur is shown. Where that
/// draws something, in front of it goes what redraws the area whenever the effect changes.
pub proof fn framebuffer_is_drawn_with_the_effect<
    H: Arithmetic + Rounding,
    X,
    F,
    DX: FnOnce(RenderParams, bool, Number, Number) -> Vec<X>,
    DF: FnOnce(RenderParams, Option<BlurOptions>, Number, Number) -> Option<F>,
>(
    h: &H,
    effect: BackgroundEffect,
    params: RenderParams,
    xray: Option<DX>,
    framebuffer: DF,
    elements: Seq<BackgroundEffectElement<X, F>>,
)
    requires
        is_rendered(h, effect, params, xray, framebuffer, elements),
        !effect.spec_options().xray,
        effect.spec_options().blur || (effect.spec_options().noise matches Some(noise) && (Number {
            bits: 0,
        }).lt(noise)) || (effect.spec_options().saturation matches Some(saturation)
            && !saturation.same(Number { bits: 0x3ff0_0000_0000_0000 })),
    ensures
        exists|p: RenderParams, b: Option<BlurOptions>, n: Number, s: Number, drawn: Option<F>|
            #[trigger]
            framebuffer.ensures((p, b, n, s), drawn) && is_drawn_place(h, effect, params, p) && (
            shows_blur(effect) ==> b == Some(effect.spec_blur_config().options)) && (!shows_blur(
                effect,
            ) ==> b is None) && is_drawn_noise(h, effect, n) && is_drawn_saturation(h, effect, s)
                && (drawn is None ==> elements.len() == 0) && (drawn matches Some(f) ==> elements
                == seq![
                BackgroundEffectElement::<X, F>::ExtraDamage {
                    geometry: params.geometry,
                    commit: effect.spec_damage(),
                },
                BackgroundEffectElement::<X, F>::FramebufferEffect(f),
            ]),
{
    let s = choose|s: DrawSteps| #[trigger]
        is_draw_steps(h, effect, params, s) && is_framebuffer_drawn(
            effect,
            s.params,
            s.noise,
            s.saturation,
            framebuffer,
            elements,
        );
    lemma_place(h, effect, params, s.params);
    let drawn = choose|drawn: Option<F>| #[trigger]
        framebuffer.ensures((s.params, effect.blur_options(), s.noise, s.saturation), drawn)
            && elements == match drawn {
            Some(f) => seq![
                effect.extra_damage::<X, F>(s.params.geometry),
                BackgroundEffectElement::FramebufferEffect(f),
            ],
            None => Seq::empty(),
        };
    assert(framebuffer.ensures((s.params, effect.blur_options(), s.noise, s.saturation), drawn));
}

/// The effect behind a surface covers the surface: its geometry at its location, in physical
/// pixels. The blur region counts from the same corner and is not scaled, and nothing is clipped.
pub proof fn surface_effect_covers_the_surface<H: Arithmetic + Rounding>(
    h: &H,
    v: spec_fn(Number) -> real,
    rects: Vec<PixelRectangle>,
    geo: PixelRectangle,
    location: Point,
    scale: Scale,
    params: RenderParams,
)
    requires
        is_exact(h, v),
        is_surface_params(h, rects, Some(geo), location, scale, params),
    ensures
        params.clip is None,
        params.scale == scale.x,
        exists|area: Rectangle| #[trigger]
            is_rounded_area(h, area, scale, params.geometry) && v(area.loc.x) == v(location.x) + (
            geo.loc.x as int) as real && v(area.loc.y) == v(location.y) + (geo.loc.y as int) as real
                && v(area.size.w) == (geo.size.w as int) as real && v(area.size.h) == (
            geo.size.h as int) as real && params.subregion == Some(
                TransformedRegion {
                    rects,
                    scale: Scale {
                        x: Number { bits: 0x3ff0_0000_0000_0000 },
                        y: Number { bits: 0x3ff0_0000_0000_0000 },
                    },
                    offset: area.loc,
                },
            ),
{
    let area = choose|area: Rectangle| #[trigger]
        is_surface_area(h, Some(geo), location, area) && is_rounded_area(
            h,
            area,
            scale,
            params.geometry,
        ) && params.subregion == Some(
            TransformedRegion {
                rects,
                scale: Scale {
                    x: Number { bits: 0x3ff0_0000_0000_0000 },
                    y: Number { bits: 0x3ff0_0000_0000_0000 },
                },
                offset: area.loc,
            },
        );
    let loc = choose|loc: Point| #[trigger]
        is_pixel_point(h, geo.loc, loc) && is_sum(h, loc.x, location.x, area.loc.x)
            && is_sum(h, loc.y, location.y, area.loc.y);
    assert(is_rounded_area(h, area, scale, params.geometry));
    assert(v(loc.x) == (geo.loc.x as int) as real);
    assert(v(loc.y) == (geo.loc.y as int) as real);
    assert(v(area.size.w) == (geo.size.w as int) as real);
    assert(v(area.size.h) == (geo.size.h as int) as real);
}

/// A surface keeps the effect that it has, with the new configuration of blur. One that has none
/// gets blur and nothing else: no wallpaper, noise, saturation or radius of its own.
pub proof fn surfaces_keep_their_effect(
    before: Option<BackgroundEffect>,
    config: Blur,
    after: BackgroundEffect,
)
    requires
        is_surface_effect(before, config, after),
    ensures
        after.spec_blur_config() == config || after.spec_blur_config().same(config),
        before matches Some(effect) ==> after.spec_options() == effect.spec_options()
            && after.spec_corner_radius() == effect.spec_corner_radius(),
        before is None ==> {
            &&& after.spec_options().blur
            &&& !after.spec_options().xray
            &&& after.spec_options().noise is None
            &&& after.spec_options().saturation is None
            &&& after.spec_corner_radius().top_left.bits == 0
            &&& after.spec_corner_radius().top_right.bits == 0
            &&& after.spec_corner_radius().bottom_right.bits == 0
            &&& after.spec_corner_radius().bottom_left.bits == 0
        },
{
}

/// A surface without geometry has an empty effect at its location.
pub proof fn surface_without_geometry_is_empty<H: Arithmetic + Rounding>(
    h: &H,
    v: spec_fn(Number) -> real,
    location: Point,
    area: Rectangle,
)
    requires
        is_exact(h, v),
        is_surface_area(h, None, location, area),
    ensures
        v(area.loc.x) == v(location.x),
        v(area.loc.y) == v(location.y),
        v(area.size.w) == 0real,
        v(area.size.h) == 0real,
{
    let known = known_geometry(None);
    assert(known.loc.x == 0 && known.loc.y == 0);
    let loc = choose|loc: Point| #[trigger]
        is_pixel_point(h, known.loc, loc) && is_sum(h, loc.x, location.x, area.loc.x) && is_sum(
            h,
            loc.y,
            location.y,
            area.loc.y,
        );
    assert(v(loc.x) == 0real && v(loc.y) == 0real);
    assert(v(area.size.w) == 0real && v(area.size.h) == 0real);
}

/// A surface has an effect only while it asks for a blur region that is not empty. Where it does,
/// the effect that it keeps is drawn for the region, at the scale, without clipping. One that has no
/// effect yet gets one that draws on what lies behind, or nothing, and never the wallpaper.
pub proof fn effect_of_a_surface_needs_a_region<
    H: Arithmetic + Rounding,
    X,
    F,
    DX: FnOnce(RenderParams, bool, Number, Number) -> Vec<X>,
    DF: FnOnce(RenderParams, Option<BlurOptions>, Number, Number) -> Option<F>,
>(
    h: &H,
    before: Option<BackgroundEffect>,
    blur_region: Option<Vec<PixelRectangle>>,
    geo: Option<PixelRectangle>,
    config: Blur,
    location: Point,
    scale: Scale,
    xray: Option<DX>,
    framebuffer: DF,
    after: Option<BackgroundEffect>,
    elements: Seq<BackgroundEffectElement<X, F>>,
)
    requires
        is_surface_rendered(
            h,
            before,
            blur_region,
            geo,
            config,
            location,
            scale,
            xray,
            framebuffer,
            after,
            elements,
        ),
    ensures
        blur_region is None || blur_region->0@.len() == 0 ==> elements.len() == 0 && after == before,
        blur_region is Some && blur_region->0@.len() > 0 ==> {
            &&& after is Some
            &&& is_surface_effect(before, config, after->0)
            &&& exists|params: RenderParams| #[trigger]
                is_rendered(h, after->0, params, xray, framebuffer, elements) && params.clip is None
                    && params.scale == scale.x && (params.subregion matches Some(region)
                    && region.rects == blur_region->0)
            &&& before is None ==> elements.len() == 0 || (elements.len() == 2
                && elements[1] is FramebufferEffect)
        },
{
    if blur_region is Some && blur_region->0@.len() > 0 {
        let effect = after->0;
        let params = choose|params: RenderParams| #[trigger]
            is_surface_params(h, blur_region->0, geo, location, scale, params) && is_rendered(
                h,
                effect,
                params,
                xray,
                framebuffer,
                elements,
            );
        assert(is_rendered(h, effect, params, xray, framebuffer, elements));
        if before is None {
            surfaces_keep_their_effect(before, config, effect);
            framebuffer_is_drawn_with_the_effect(h, effect, params, xray, framebuffer, elements);
        }
    }
}

} // verus!
