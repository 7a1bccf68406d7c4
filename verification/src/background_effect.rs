//! Effects behind windows and popups: blur, noise, saturation, and seeing through to the wallpaper.
use crate::geometry::{
    is_pixel_point, is_pixel_size, CornerRadius, PixelPoint, PixelRectangle, PixelSize, Point,
    Rectangle, Scale,
};
use crate::number::{is_narrow, is_sum, Arithmetic, Number, ONE};
use crate::thumbnail::{one, zero};
use vstd::prelude::*;

verus! {

/// How strong a blur is.
#[derive(Debug, Clone, Copy)]
pub struct BlurOptions {
    /// Number of passes.
    pub passes: u8,
    /// Distance of the samples.
    pub offset: Number,
}

/// The configuration of blur.
#[derive(Debug, Clone, Copy)]
pub struct Blur {
    /// Whether blur is disabled.
    pub off: bool,
    /// How strong it is.
    pub options: BlurOptions,
    /// Noise that goes with it.
    pub noise: Number,
    /// Saturation that goes with it.
    pub saturation: Number,
}

/// The effect that the rules of a surface ask for.
#[derive(Debug, Clone, Copy)]
pub struct EffectRules {
    /// Whether to see through to the wallpaper.
    pub xray: Option<bool>,
    /// Whether to blur.
    pub blur: Option<bool>,
    /// How much noise.
    pub noise: Option<Number>,
    /// How much saturation.
    pub saturation: Option<Number>,
}

/// The effect that is shown.
#[derive(Debug, Clone, Copy)]
pub struct Options {
    /// Blur.
    pub blur: bool,
    /// See through to the wallpaper.
    pub xray: bool,
    /// Noise, in place of that of the blur.
    pub noise: Option<Number>,
    /// Saturation, in place of that of the blur.
    pub saturation: Option<Number>,
}

/// Both are absent, or both compare equal.
pub open spec fn same_option(a: Option<Number>, b: Option<Number>) -> bool {
    match (a, b) {
        (Some(a), Some(b)) => a.same(b),
        (None, None) => true,
        _ => false,
    }
}

fn is_same_option(a: Option<Number>, b: Option<Number>) -> (result: bool)
    ensures
        result == same_option(a, b),
{
    match (a, b) {
        (Some(a), Some(b)) => a.is_same(b),
        (None, None) => true,
        _ => false,
    }
}

impl Blur {
    /// All parts compare equal.
    pub open spec fn same(self, other: Blur) -> bool {
        &&& self.off == other.off
        &&& self.options.passes == other.options.passes
        &&& self.options.offset.same(other.options.offset)
        &&& self.noise.same(other.noise)
        &&& self.saturation.same(other.saturation)
    }

    /// Whether all parts compare equal.
    pub fn is_same(self, other: Blur) -> (result: bool)
        ensures
            result == self.same(other),
    {
        self.off == other.off && self.options.passes == other.options.passes
            && self.options.offset.is_same(other.options.offset) && self.noise.is_same(other.noise)
            && self.saturation.is_same(other.saturation)
    }
}

impl EffectRules {
    /// Rules that ask for nothing.
    pub open spec fn none() -> EffectRules {
        EffectRules { xray: None, blur: None, noise: None, saturation: None }
    }
}

impl Options {
    /// No effect.
    pub open spec fn none() -> Options {
        Options { blur: false, xray: false, noise: None, saturation: None }
    }

    /// Something is to be seen: the wallpaper, blur, noise, or another saturation than `1`.
    pub open spec fn visible(self) -> bool {
        ||| self.xray
        ||| self.blur
        ||| self.noise matches Some(noise) && zero().lt(noise)
        ||| self.saturation matches Some(saturation) && !saturation.same(one())
    }

    /// All parts compare equal.
    pub open spec fn same(self, other: Options) -> bool {
        &&& self.blur == other.blur
        &&& self.xray == other.xray
        &&& same_option(self.noise, other.noise)
        &&& same_option(self.saturation, other.saturation)
    }

    /// Whether something is to be seen.
    pub fn is_visible(&self) -> (result: bool)
        ensures
            result == self.visible(),
    {
        let noisy = match self.noise {
            Some(noise) => Number::zero().is_lt(noise),
            None => false,
        };
        let saturated = match self.saturation {
            Some(saturation) => !saturation.is_same(Number::new(ONE)),
            None => false,
        };
        self.xray || self.blur || noisy || saturated
    }

    /// Whether all parts compare equal.
    pub fn is_same(self, other: Options) -> (result: bool)
        ensures
            result == self.same(other),
    {
        self.blur == other.blur && self.xray == other.xray && is_same_option(
            self.noise,
            other.noise,
        ) && is_same_option(self.saturation, other.saturation)
    }
}

impl Default for Options {
    /// No effect.
    fn default() -> (options: Options)
        ensures
            options == Options::none(),
    {
        Options { blur: false, xray: false, noise: None, saturation: None }
    }
}

/// The effect for a surface. Blur is on by default where the surface itself asks for it, and the
/// wallpaper is seen through any effect unless the rules say whether it is.
pub open spec fn options_for(rules: EffectRules, has_blur_region: bool) -> Options {
    let options = Options {
        blur: if has_blur_region {
            rules.blur != Some(false)
        } else {
            rules.blur == Some(true)
        },
        xray: rules.xray == Some(true),
        noise: rules.noise,
        saturation: rules.saturation,
    };
    if options.visible() && rules.xray is None {
        Options { xray: true, ..options }
    } else {
        options
    }
}

/// The effect behind one surface.
#[derive(Debug, Clone, Copy)]
pub struct BackgroundEffect {
    damage: u64,
    corner_radius: CornerRadius,
    blur_config: Blur,
    options: Options,
}

impl BackgroundEffect {
    /// Counts how often everything behind the surface had to be drawn again.
    pub closed spec fn spec_damage(self) -> u64 {
        self.damage
    }

    /// The corner radius for clipping.
    pub closed spec fn spec_corner_radius(self) -> CornerRadius {
        self.corner_radius
    }

    /// The configuration of blur.
    pub closed spec fn spec_blur_config(self) -> Blur {
        self.blur_config
    }

    /// The effect that is shown.
    pub closed spec fn spec_options(self) -> Options {
        self.options
    }

    /// No effect yet.
    pub fn new(blur_config: Blur) -> (effect: BackgroundEffect)
        ensures
            effect.spec_damage() == 0,
            effect.spec_corner_radius() == CornerRadius::square(),
            effect.spec_blur_config() == blur_config,
            effect.spec_options() == Options::none(),
    {
        BackgroundEffect {
            damage: 0,
            corner_radius: CornerRadius::default(),
            blur_config,
            options: Options::default(),
        }
    }

    /// Takes a new configuration of blur. Everything is drawn again if it differs.
    pub fn update_config(&mut self, config: Blur)
        ensures
            is_configured(*old(self), config, *final(self)),
    {
        if self.blur_config.is_same(config) {
            return ;
        }

        self.blur_config = config;
        self.damage = self.damage.wrapping_add(1);
    }

    /// Takes a new corner radius and new rules. Everything is drawn again if the effect differs.
    pub fn update_render_elements(
        &mut self,
        corner_radius: CornerRadius,
        effect: EffectRules,
        has_blur_region: bool,
    )
        ensures
            is_updated(*old(self), corner_radius, effect, has_blur_region, *final(self)),
    {
        // If the surface explicitly requests a blur region, default blur to true.
        let blur = match effect.blur {
            Some(blur) => blur,
            None => has_blur_region,
        };
        let xray = match effect.xray {
            Some(xray) => xray,
            None => false,
        };

        let mut options = Options {
            blur,
            xray,
            noise: effect.noise,
            saturation: effect.saturation,
        };

        // If we have some background effect but xray wasn't explicitly set, default it to true
        // since it's cheaper.
        if options.is_visible() && effect.xray.is_none() {
            options.xray = true;
        }

        if self.options.is_same(options) && self.corner_radius.is_same(corner_radius) {
            return ;
        }

        self.options = options;
        self.corner_radius = corner_radius;
        self.damage = self.damage.wrapping_add(1);
    }

    /// Whether something is to be seen.
    pub fn is_visible(&self) -> (result: bool)
        ensures
            result == self.spec_options().visible(),
    {
        self.options.is_visible()
    }
}

/// One more draw, on a counter that wraps around.
pub open spec fn damaged(damage: u64) -> int {
    if damage == u64::MAX {
        0
    } else {
        damage + 1
    }
}

/// What a new configuration of blur does.
pub open spec fn is_configured(
    before: BackgroundEffect,
    config: Blur,
    after: BackgroundEffect,
) -> bool {
    if before.spec_blur_config().same(config) {
        after == before
    } else {
        &&& after.spec_blur_config() == config
        &&& after.spec_damage() == damaged(before.spec_damage())
        &&& after.spec_corner_radius() == before.spec_corner_radius()
        &&& after.spec_options() == before.spec_options()
    }
}

/// What a new corner radius and new rules do.
pub open spec fn is_updated(
    before: BackgroundEffect,
    corner_radius: CornerRadius,
    rules: EffectRules,
    has_blur_region: bool,
    after: BackgroundEffect,
) -> bool {
    let options = options_for(rules, has_blur_region);
    if before.spec_options().same(options) && before.spec_corner_radius().same(corner_radius) {
        after == before
    } else {
        &&& after.spec_options() == options
        &&& after.spec_corner_radius() == corner_radius
        &&& after.spec_damage() == damaged(before.spec_damage())
        &&& after.spec_blur_config() == before.spec_blur_config()
    }
}

/// A region, scaled and moved.
#[derive(Debug)]
pub struct TransformedRegion {
    /// The region.
    pub rects: Vec<PixelRectangle>,
    /// The factor.
    pub scale: Scale,
    /// How far it is moved.
    pub offset: Point,
}

/// Render-time parameters.
#[derive(Debug)]
pub struct RenderParams {
    /// Geometry of the background effect.
    pub geometry: Rectangle,
    /// Effect subregion, to be clipped to `geometry`.
    pub subregion: Option<TransformedRegion>,
    /// Geometry and radius for clipping in the same coordinate space as `geometry`.
    pub clip: Option<(Rectangle, CornerRadius)>,
    /// Scale to use for rounding to physical pixels.
    pub scale: Number,
}

/// What rounds corners and pixels.
///
/// The methods carry no contract: a caller learns only that an answer was given.
pub trait Rounding {
    /// The corner radius of an area that is larger by `amount` on each side.
    fn expanded_by(&self, radius: CornerRadius, amount: Number) -> CornerRadius;

    /// The corner radius reduced to what an area of the given size has room for.
    fn fit_to(&self, radius: CornerRadius, w: Number, h: Number) -> CornerRadius;

    /// The area with its edges on physical pixels.
    fn round_to_physical(&self, area: Rectangle, scale: Scale) -> Rectangle;
}

/// `r` was answered for the expanded radius.
#[verifier::inline]
pub open spec fn is_expanded<H: Rounding>(
    h: &H,
    radius: CornerRadius,
    amount: Number,
    r: CornerRadius,
) -> bool {
    call_ensures(H::expanded_by, (h, radius, amount), r)
}

/// `r` was answered for the radius that fits.
#[verifier::inline]
pub open spec fn is_fitted<H: Rounding>(
    h: &H,
    radius: CornerRadius,
    w: Number,
    height: Number,
    r: CornerRadius,
) -> bool {
    call_ensures(H::fit_to, (h, radius, w, height), r)
}

/// `r` was answered for the area on physical pixels.
#[verifier::inline]
pub open spec fn is_rounded_area<H: Rounding>(
    h: &H,
    area: Rectangle,
    scale: Scale,
    r: Rectangle,
) -> bool {
    call_ensures(H::round_to_physical, (h, area, scale), r)
}

/// `fitted` is the radius for clipping: a pixel more, against bleeding at the corners, but no more
/// than the area has room for.
pub open spec fn is_clip_radius<H: Arithmetic + Rounding>(
    h: &H,
    area: Rectangle,
    radius: CornerRadius,
    fitted: CornerRadius,
) -> bool {
    exists|wide: CornerRadius, w: Number, height: Number|
        #![trigger is_expanded(h, radius, one(), wide), is_narrow(h, area.size.w, w), is_narrow(h, area.size.h, height)]
        is_expanded(h, radius, one(), wide) && is_narrow(h, area.size.w, w) && is_narrow(
            h,
            area.size.h,
            height,
        ) && is_fitted(h, wide, w, height, fitted)
}

/// `after` are the parameters with the radius for clipping fitted.
pub open spec fn is_clip_fitted<H: Arithmetic + Rounding>(
    h: &H,
    before: RenderParams,
    after: RenderParams,
) -> bool {
    &&& after.geometry == before.geometry
    &&& after.subregion == before.subregion
    &&& after.scale == before.scale
    &&& match (before.clip, after.clip) {
        (Some((area, radius)), Some((clip, fitted))) => clip == area && is_clip_radius(
            h,
            area,
            radius,
            fitted,
        ),
        (None, None) => true,
        _ => false,
    }
}

impl RenderParams {
    /// Fits the radius for clipping.
    pub fn fit_clip_radius<H: Arithmetic + Rounding>(&mut self, h: &H)
        ensures
            is_clip_fitted(h, *old(self), *final(self)),
    {
        if let Some((area, radius)) = self.clip {
            // Increase the radius to avoid slight bleed on rounded corners.
            let wide = h.expanded_by(radius, Number::new(ONE));
            let w = h.narrow(area.size.w);
            let height = h.narrow(area.size.h);
            assert(is_expanded(h, radius, one(), wide));
            self.clip = Some((area, h.fit_to(wide, w, height)));
        }
    }
}

/// An element of the scene that a background effect adds.
#[derive(Debug)]
pub enum BackgroundEffectElement<X, F> {
    /// An effect on what is already drawn.
    FramebufferEffect(F),
    /// The wallpaper with an effect.
    Xray(X),
    /// Draws an area again whenever the counter changes.
    ExtraDamage {
        /// The area.
        geometry: Rectangle,
        /// The counter.
        commit: u64,
    },
}

impl BackgroundEffect {
    /// Blur is shown.
    pub open spec fn blurs(self) -> bool {
        self.spec_options().blur && !self.spec_blur_config().off
    }

    /// How strong blur is, where it is shown.
    pub open spec fn blur_options(self) -> Option<BlurOptions> {
        if self.blurs() {
            Some(self.spec_blur_config().options)
        } else {
            None
        }
    }

    /// The noise: that of the rules, else that of blur where blur is shown, else none.
    pub open spec fn noise(self) -> Number {
        match self.spec_options().noise {
            Some(noise) => noise,
            None => if self.blurs() {
                self.spec_blur_config().noise
            } else {
                zero()
            },
        }
    }

    /// The saturation: that of the rules, else that of blur where blur is shown, else the normal
    /// one.
    pub open spec fn saturation(self) -> Number {
        match self.spec_options().saturation {
            Some(saturation) => saturation,
            None => if self.blurs() {
                self.spec_blur_config().saturation
            } else {
                one()
            },
        }
    }

    /// The parameters with the corner radius of the surface.
    pub open spec fn with_radius(self, params: RenderParams) -> RenderParams {
        match params.clip {
            Some((area, _)) => RenderParams {
                clip: Some((area, self.spec_corner_radius())),
                ..params
            },
            None => params,
        }
    }

    /// What redraws the area.
    pub open spec fn extra_damage<X, F>(self, geometry: Rectangle) -> BackgroundEffectElement<X, F> {
        BackgroundEffectElement::ExtraDamage { geometry, commit: self.spec_damage() }
    }
}

/// `elements` are what a visible effect with the wallpaper adds: nothing where there is no
/// wallpaper to see, else what was drawn, in front of it what redraws the area.
pub open spec fn is_xray_drawn<X, F, D: FnOnce(RenderParams, bool, Number, Number) -> Vec<X>>(
    effect: BackgroundEffect,
    params: RenderParams,
    noise: Number,
    saturation: Number,
    xray: Option<D>,
    elements: Seq<BackgroundEffectElement<X, F>>,
) -> bool {
    match xray {
        Some(draw) => exists|drawn: Vec<X>| #[trigger]
            draw.ensures((params, effect.blurs(), noise, saturation), drawn) && elements == seq![
                effect.extra_damage::<X, F>(params.geometry),
            ] + drawn@.map_values(|x: X| BackgroundEffectElement::<X, F>::Xray(x)),
        None => elements.len() == 0,
    }
}

/// `elements` are what a visible effect without the wallpaper adds: nothing where nothing was
/// drawn, else what was drawn, in front of it what redraws the area.
pub open spec fn is_framebuffer_drawn<
    X,
    F,
    D: FnOnce(RenderParams, Option<BlurOptions>, Number, Number) -> Option<F>,
>(
    effect: BackgroundEffect,
    params: RenderParams,
    noise: Number,
    saturation: Number,
    framebuffer: D,
    elements: Seq<BackgroundEffectElement<X, F>>,
) -> bool {
    exists|drawn: Option<F>| #[trigger]
        framebuffer.ensures((params, effect.blur_options(), noise, saturation), drawn) && elements
            == match drawn {
            Some(f) => seq![
                effect.extra_damage::<X, F>(params.geometry),
                BackgroundEffectElement::FramebufferEffect(f),
            ],
            None => Seq::empty(),
        }
}

/// What an effect was drawn with.
pub ghost struct DrawSteps {
    /// The parameters with the radius for clipping.
    pub params: RenderParams,
    /// Noise in single precision.
    pub noise: Number,
    /// Saturation in single precision.
    pub saturation: Number,
}

/// `s` is what an effect is drawn with.
pub open spec fn is_draw_steps<H: Arithmetic + Rounding>(
    h: &H,
    effect: BackgroundEffect,
    params: RenderParams,
    s: DrawSteps,
) -> bool {
    &&& is_clip_fitted(h, effect.with_radius(params), s.params)
    &&& is_narrow(h, effect.noise(), s.noise)
    &&& is_narrow(h, effect.saturation(), s.saturation)
}

/// `elements` are what an effect adds to the scene.
pub open spec fn is_rendered<
    H: Arithmetic + Rounding,
    X,
    F,
    DX: FnOnce(RenderParams, bool, Number, Number) -> Vec<X>,
    DF: FnOnce(RenderParams, Option<BlurOptions>, Number, Number) -> Option<F>,
>(
    h: &H,
    effect: BackgroundEffect,
    params: RenderParams,
    xray: Option<DX>,
    framebuffer: DF,
    elements: Seq<BackgroundEffectElement<X, F>>,
) -> bool {
    if effect.spec_options().visible() {
        exists|s: DrawSteps| #[trigger]
            is_draw_steps(h, effect, params, s) && if effect.spec_options().xray {
                is_xray_drawn(effect, s.params, s.noise, s.saturation, xray, elements)
            } else {
                is_framebuffer_drawn(
                    effect,
                    s.params,
                    s.noise,
                    s.saturation,
                    framebuffer,
                    elements,
                )
            }
    } else {
        elements.len() == 0
    }
}

impl BackgroundEffect {
    /// What the effect adds to the scene, from front to back.
    ///
    /// `xray` draws the wallpaper, where there is one to see, and `framebuffer` draws on what lies
    /// behind; at most one of them is called.
    pub fn render<
        H: Arithmetic + Rounding,
        X,
        F,
        DX: FnOnce(RenderParams, bool, Number, Number) -> Vec<X>,
        DF: FnOnce(RenderParams, Option<BlurOptions>, Number, Number) -> Option<F>,
    >(&self, h: &H, params: RenderParams, xray: Option<DX>, framebuffer: DF) -> (elements: Vec<
        BackgroundEffectElement<X, F>,
    >)
        requires
            xray matches Some(draw) ==> forall|p: RenderParams, b: bool, n: Number, s: Number|
             #[trigger]
                draw.requires((p, b, n, s)),
            forall|p: RenderParams, b: Option<BlurOptions>, n: Number, s: Number| #[trigger]
                framebuffer.requires((p, b, n, s)),
        ensures
            is_rendered(h, *self, params, xray, framebuffer, elements@),
    {
        let mut elements: Vec<BackgroundEffectElement<X, F>> = Vec::new();
        if !self.is_visible() {
            return elements;
        }

        let ghost given = params;
        let mut params = params;
        if let Some((area, _)) = params.clip {
            params.clip = Some((area, self.corner_radius));
        }
        assert(params == self.with_radius(given));
        params.fit_clip_radius(h);
        let ghost fitted = params;

        let damage = BackgroundEffectElement::ExtraDamage {
            geometry: params.geometry,
            commit: self.damage,
        };

        // Use noise/saturation from options, falling back to blur defaults if blurred, and
        // to no effect if not blurred.
        let blur = self.options.blur && !self.blur_config.off;
        let blur_options = if blur {
            Some(self.blur_config.options)
        } else {
            None
        };
        let noise = match self.options.noise {
            Some(noise) => noise,
            None => if blur {
                self.blur_config.noise
            } else {
                Number::zero()
            },
        };
        let noise = h.narrow(noise);
        let saturation = match self.options.saturation {
            Some(saturation) => saturation,
            None => if blur {
                self.blur_config.saturation
            } else {
                Number::new(ONE)
            },
        };
        let saturation = h.narrow(saturation);
        assert(is_draw_steps(h, *self, given, DrawSteps { params, noise, saturation }));

        if self.options.xray {
            let draw = match xray {
                Some(draw) => draw,
                None => return elements,
            };
            let drawn = draw(params, blur, noise, saturation);
            let ghost all = drawn;
            elements.push(damage);
            for x in it: drawn.into_iter()
                invariant
                    it.seq() == all@,
                    elements@ == seq![damage] + all@.take(it.index()).map_values(
                        |x: X| BackgroundEffectElement::<X, F>::Xray(x),
                    ),
            {
                let ghost i = it.index();
                elements.push(BackgroundEffectElement::Xray(x));
                assert(elements@ =~= seq![damage] + all@.take(i + 1).map_values(
                    |x: X| BackgroundEffectElement::<X, F>::Xray(x),
                ));
            }
            proof {
                assert(all@.take(all@.len() as int) =~= all@);
                assert(is_xray_drawn(*self, fitted, noise, saturation, xray, elements@));
            }
        } else {
            if let Some(f) = framebuffer(params, blur_options, noise, saturation) {
                elements.push(damage);
                elements.push(BackgroundEffectElement::FramebufferEffect(f));
                assert(elements@ =~= seq![damage, BackgroundEffectElement::FramebufferEffect(f)]);
            }
            assert(is_framebuffer_drawn(
                *self,
                fitted,
                noise,
                saturation,
                framebuffer,
                elements@,
            ));
        }
        elements
    }
}

/// The effect behind a new popup: blur, and never the wallpaper.
pub open spec fn is_popup_effect(blur_config: Blur, effect: BackgroundEffect) -> bool {
    exists|start: BackgroundEffect| #[trigger]
        is_new_effect(blur_config, start) && is_updated(
            start,
            CornerRadius::square(),
            EffectRules { xray: Some(false), ..EffectRules::none() },
            true,
            effect,
        )
}

/// An effect that shows nothing yet.
pub open spec fn is_new_effect(blur_config: Blur, effect: BackgroundEffect) -> bool {
    &&& effect.spec_damage() == 0
    &&& effect.spec_corner_radius() == CornerRadius::square()
    &&& effect.spec_blur_config() == blur_config
    &&& effect.spec_options() == Options::none()
}

/// The effect behind a new popup.
fn popup_effect(blur_config: Blur) -> (effect: BackgroundEffect)
    ensures
        is_popup_effect(blur_config, effect),
{
    let mut effect = BackgroundEffect::new(blur_config);
    assert(is_new_effect(blur_config, effect));
    effect.update_render_elements(
        CornerRadius::default(),
        // We don't do xray on popups.
        EffectRules { xray: Some(false), blur: None, noise: None, saturation: None },
        // We always have a blur region.
        true,
    );
    effect
}

/// The geometry of a surface, or an empty one where it has none.
pub open spec fn known_geometry(geo: Option<PixelRectangle>) -> PixelRectangle {
    match geo {
        Some(geo) => geo,
        None => PixelRectangle { loc: PixelPoint { x: 0, y: 0 }, size: PixelSize { w: 0, h: 0 } },
    }
}

/// `area` is that of a surface at a location: its geometry in numbers, moved.
pub open spec fn is_surface_area<A: Arithmetic>(
    a: &A,
    geo: Option<PixelRectangle>,
    location: Point,
    area: Rectangle,
) -> bool {
    &&& is_pixel_size(a, known_geometry(geo).size, area.size)
    &&& exists|loc: Point| #[trigger]
        is_pixel_point(a, known_geometry(geo).loc, loc) && is_sum(a, loc.x, location.x, area.loc.x) && is_sum(
            a,
            loc.y,
            location.y,
            area.loc.y,
        )
}

fn surface_area<A: Arithmetic>(a: &A, geo: Option<PixelRectangle>, location: Point) -> (area:
    Rectangle)
    ensures
        is_surface_area(a, geo, location, area),
{
    let known = match geo {
        Some(geo) => geo,
        None => PixelRectangle { loc: PixelPoint { x: 0, y: 0 }, size: PixelSize { w: 0, h: 0 } },
    };
    let loc = known.loc.to_point(a);
    let size = known.size.to_size(a);
    assert(is_pixel_point(a, known_geometry(geo).loc, loc));
    Rectangle::new(Point::new(a.sum(loc.x, location.x), a.sum(loc.y, location.y)), size)
}

/// `params` are those for the blur region of a surface.
pub open spec fn is_surface_params<H: Arithmetic + Rounding>(
    h: &H,
    rects: Vec<PixelRectangle>,
    geo: Option<PixelRectangle>,
    location: Point,
    scale: Scale,
    params: RenderParams,
) -> bool {
    &&& params.clip is None
    &&& params.scale == scale.x
    &&& exists|area: Rectangle| #[trigger]
        is_surface_area(h, geo, location, area) && is_rounded_area(h, area, scale, params.geometry)
            && params.subregion == Some(
            TransformedRegion {
                rects,
                scale: Scale { x: one(), y: one() },
                offset: area.loc,
            },
        )
}

/// `after` is the effect of a surface for a configuration of blur: the one that it has, or else
/// that of a new popup.
pub open spec fn is_surface_effect(
    before: Option<BackgroundEffect>,
    blur_config: Blur,
    after: BackgroundEffect,
) -> bool {
    match before {
        Some(effect) => is_configured(effect, blur_config, after),
        None => exists|effect: BackgroundEffect| #[trigger]
            is_popup_effect(blur_config, effect) && is_configured(effect, blur_config, after),
    }
}

/// What drawing the effect behind the blur region of a surface does: nothing without a region, or
/// with an empty one.
pub open spec fn is_surface_rendered<
    H: Arithmetic + Rounding,
    X,
    F,
    DX: FnOnce(RenderParams, bool, Number, Number) -> Vec<X>,
    DF: FnOnce(RenderParams, Option<BlurOptions>, Number, Number) -> Option<F>,
>(
    h: &H,
    before: Option<BackgroundEffect>,
    blur_region: Option<Vec<PixelRectangle>>,
    geo: Option<PixelRectangle>,
    blur_config: Blur,
    location: Point,
    scale: Scale,
    xray: Option<DX>,
    framebuffer: DF,
    after: Option<BackgroundEffect>,
    elements: Seq<BackgroundEffectElement<X, F>>,
) -> bool {
    match blur_region {
        Some(rects) if rects@.len() > 0 => {
            &&& after matches Some(effect)
            &&& is_surface_effect(before, blur_config, effect)
            &&& exists|params: RenderParams| #[trigger]
                is_surface_params(h, rects, geo, location, scale, params) && is_rendered(
                    h,
                    effect,
                    params,
                    xray,
                    framebuffer,
                    elements,
                )
        },
        _ => elements.len() == 0 && after == before,
    }
}

/// What the effect behind a surface adds to the scene. A surface that asks for no blur region, or
/// for an empty one, has none.
///
/// `effect` is where the surface keeps its effect, and `geo` its geometry.
pub fn render_for_surface<
    H: Arithmetic + Rounding,
    X,
    F,
    DX: FnOnce(RenderParams, bool, Number, Number) -> Vec<X>,
    DF: FnOnce(RenderParams, Option<BlurOptions>, Number, Number) -> Option<F>,
>(
    h: &H,
    effect: &mut Option<BackgroundEffect>,
    blur_region: Option<Vec<PixelRectangle>>,
    geo: Option<PixelRectangle>,
    blur_config: Blur,
    location: Point,
    scale: Scale,
    xray: Option<DX>,
    framebuffer: DF,
) -> (elements: Vec<BackgroundEffectElement<X, F>>)
    requires
        xray matches Some(draw) ==> forall|p: RenderParams, b: bool, n: Number, s: Number|
         #[trigger]
            draw.requires((p, b, n, s)),
        forall|p: RenderParams, b: Option<BlurOptions>, n: Number, s: Number| #[trigger]
            framebuffer.requires((p, b, n, s)),
    ensures
        is_surface_rendered(
            h,
            *old(effect),
            blur_region,
            geo,
            blur_config,
            location,
            scale,
            xray,
            framebuffer,
            *final(effect),
            elements@,
        ),
{
    let rects = match blur_region {
        Some(rects) => rects,
        None => return Vec::new(),
    };
    if rects.len() == 0 {
        return Vec::new();
    }

    let area = surface_area(h, geo, location);
    let one = Number::new(ONE);
    let ghost region = rects;
    let subregion = TransformedRegion { rects, scale: Scale { x: one, y: one }, offset: area.loc };
    let geometry = h.round_to_physical(area, scale);
    let params = RenderParams { geometry, subregion: Some(subregion), clip: None, scale: scale.x };
    assert(is_surface_params(h, region, geo, location, scale, params));

    let mut background_effect = match *effect {
        Some(effect) => effect,
        None => popup_effect(blur_config),
    };
    background_effect.update_config(blur_config);
    *effect = Some(background_effect);
    background_effect.render(h, params, xray, framebuffer)
}

/// Drawing again is asked for exactly where the effect changes: the same configuration, or the
/// same rules and radius, cost nothing the second time. A value that is not a number never
/// compares equal, so it is left out.
pub proof fn same_values_cost_nothing(
    start: BackgroundEffect,
    config: Blur,
    radius: CornerRadius,
    rules: EffectRules,
    has_blur_region: bool,
    once: BackgroundEffect,
    twice: BackgroundEffect,
)
    requires
        config.same(config),
        radius.same(radius),
        options_for(rules, has_blur_region).same(options_for(rules, has_blur_region)),
    ensures
        is_configured(start, config, once) && is_configured(once, config, twice) ==> twice == once,
        is_updated(start, radius, rules, has_blur_region, once) && is_updated(
            once,
            radius,
            rules,
            has_blur_region,
            twice,
        ) ==> twice == once,
{
}

/// Rules that say whether the wallpaper is seen are followed; else it is seen through any effect
/// that is visible without it.
pub proof fn xray_follows_the_rules(rules: EffectRules, has_blur_region: bool)
    ensures
        rules.xray matches Some(xray) ==> options_for(rules, has_blur_region).xray == xray,
        rules.xray is None ==> options_for(rules, has_blur_region).xray == options_for(
            EffectRules { xray: Some(false), ..rules },
            has_blur_region,
        ).visible(),
{
}

/// Rules that say whether to blur are followed; else a surface that asks for a blur region gets
/// blur.
pub proof fn blur_follows_the_rules(rules: EffectRules, has_blur_region: bool)
    ensures
        options_for(rules, has_blur_region).blur == match rules.blur {
            Some(blur) => blur,
            None => has_blur_region,
        },
{
}

/// Without rules and without a blur region nothing is seen.
pub proof fn nothing_by_default()
    ensures
        !options_for(EffectRules::none(), false).visible(),
{
}

/// A new popup is blurred, and the wallpaper is not seen through it, whatever the configuration of
/// blur becomes later.
pub proof fn popups_never_xray(
    first: Blur,
    later: Blur,
    effect: BackgroundEffect,
    after: BackgroundEffect,
)
    requires
        is_popup_effect(first, effect),
        is_configured(effect, later, after),
    ensures
        !after.spec_options().xray,
        after.spec_options().blur,
        after.spec_options().visible(),
{
}

} // verus!
