use niri::background_effect::{
    render_for_surface, BackgroundEffect, BackgroundEffectElement, Blur, BlurOptions, EffectRules,
    Options, RenderParams, Rounding,
};
use niri::focus_or_spawn::{
    Action, DecodeError, Diagnostic, EntryNode, FocusOrSpawn, FocusOrSpawnEntry, Key, Keysym,
    Literal, Property, Trigger, Value,
};
use niri::geometry::{
    CornerRadius, PixelPoint, PixelRectangle, PixelSize, Point, Rectangle, Scale, Size,
};
use niri::keyboard_scroll::{
    KeyboardScrollDirection, State, Tick, TimeoutAction, DEFAULT_KEYBOARD_SCROLL_PIXELS_PER_SECOND,
    KEYBOARD_SCROLL_INTERVAL,
};
use niri::number::{Arithmetic, Number};

struct Host;

fn n(x: f64) -> Number {
    Number::new(x.to_bits())
}

fn f(x: Number) -> f64 {
    f64::from_bits(x.bits)
}

impl Arithmetic for Host {
    fn sum(&self, x: Number, y: Number) -> Number {
        n(f(x) + f(y))
    }

    fn difference(&self, x: Number, y: Number) -> Number {
        n(f(x) - f(y))
    }

    fn product(&self, x: Number, y: Number) -> Number {
        n(f(x) * f(y))
    }

    fn quotient(&self, x: Number, y: Number) -> Number {
        n(f(x) / f(y))
    }

    fn root(&self, x: Number) -> Number {
        n(f(x).sqrt())
    }

    fn ceiling(&self, x: Number) -> Number {
        n(f(x).ceil())
    }

    fn nearest(&self, x: Number) -> Number {
        n(f(x).round())
    }

    fn narrow(&self, x: Number) -> Number {
        n(f(x) as f32 as f64)
    }

    fn number(&self, k: i128) -> Number {
        n(k as f64)
    }

    fn whole(&self, x: Number) -> i64 {
        f(x) as i64
    }

    fn seconds(&self, nanos: u128) -> Number {
        n(std::time::Duration::from_nanos(nanos as u64).as_secs_f64())
    }
}

impl Rounding for Host {
    fn expanded_by(&self, radius: CornerRadius, amount: Number) -> CornerRadius {
        square(f(radius.top_left) + f(amount))
    }

    fn fit_to(&self, radius: CornerRadius, w: Number, h: Number) -> CornerRadius {
        square(f(radius.top_left).min(f(w) / 2.).min(f(h) / 2.))
    }

    fn round_to_physical(&self, area: Rectangle, _scale: Scale) -> Rectangle {
        Rectangle::new(
            Point::new(self.nearest(area.loc.x), self.nearest(area.loc.y)),
            area.size,
        )
    }
}

fn square(radius: f64) -> CornerRadius {
    let r = n(radius);
    CornerRadius { top_left: r, top_right: r, bottom_right: r, bottom_left: r }
}

#[test]
fn amounts_follow_the_direction() {
    assert_eq!(f(KeyboardScrollDirection::Up.amount(n(3.))), -3.);
    assert_eq!(f(KeyboardScrollDirection::Down.amount(n(3.))), 3.);
    assert_eq!(f64::from_bits(DEFAULT_KEYBOARD_SCROLL_PIXELS_PER_SECOND), 150.);
}

#[test]
fn scroll_starts_with_one_interval() {
    let mut state = State::new();
    let now = 5_000_000_000_000_000u128 + 999_999;
    assert_eq!(state.start_keyboard_scroll(now, KeyboardScrollDirection::Up, n(150.)), None);
    state.set_keyboard_scroll_timer(4);
    match state.tick_keyboard_scroll(&Host, now) {
        Tick::Send { frame, scroll } => {
            assert_eq!(f(frame.amount), -(150. * 0.008_333_333));
            assert_eq!(frame.time, (5_000_000_000u64 % (1 << 32)) as u32);
            assert_eq!(scroll.last_tick_time, now);
            assert!(state.active_keyboard_scroll.is_none());
            assert_eq!(state.stop_keyboard_scroll(), None);
            state.finish_keyboard_scroll_tick(scroll);
        }
        Tick::Nothing => panic!("expected a frame"),
    }
    assert_eq!(
        state.keyboard_scroll_timeout(),
        TimeoutAction::ToDuration(KEYBOARD_SCROLL_INTERVAL)
    );
    assert!(matches!(state.tick_keyboard_scroll(&Host, now), Tick::Nothing));
    assert!(state.active_keyboard_scroll.is_some());
}

#[test]
fn scrolled_way_adds_up() {
    let start = KEYBOARD_SCROLL_INTERVAL + 1_000_000_000;
    let mut state = State::new();
    state.start_keyboard_scroll(start, KeyboardScrollDirection::Down, n(64.));
    let first = start - KEYBOARD_SCROLL_INTERVAL;
    let mut way = 0.;
    for millis in [250u128, 250, 750, 1000, 3000] {
        match state.tick_keyboard_scroll(&Host, first + millis * 1_000_000) {
            Tick::Send { frame, scroll } => {
                way += f(frame.amount);
                state.finish_keyboard_scroll_tick(scroll);
            }
            Tick::Nothing => assert_eq!(millis, 250),
        }
    }
    assert_eq!(way, 192.);
    let scroll = state.active_keyboard_scroll.unwrap();
    assert_eq!(scroll.last_tick_time, first + 3_000_000_000);
    assert_eq!(f(scroll.speed), 64.);
}

#[test]
fn clocks_that_run_backwards_do_not_scroll() {
    let mut state = State::new();
    state.start_keyboard_scroll(10_000_000, KeyboardScrollDirection::Down, n(1.));
    assert!(matches!(state.tick_keyboard_scroll(&Host, 5), Tick::Nothing));
    assert_eq!(state.active_keyboard_scroll.unwrap().last_tick_time, 5);
}

#[test]
fn restart_hands_back_the_timer() {
    let mut state = State::new();
    state.start_keyboard_scroll(0, KeyboardScrollDirection::Up, n(1.));
    state.set_keyboard_scroll_timer(9);
    assert_eq!(state.start_keyboard_scroll(1, KeyboardScrollDirection::Down, n(1.)), Some(9));
    state.set_keyboard_scroll_timer(10);
    assert_eq!(state.stop_keyboard_scroll(), Some(10));
    assert_eq!(state.stop_keyboard_scroll(), None);
    assert!(matches!(state.tick_keyboard_scroll(&Host, 100), Tick::Nothing));
    assert_eq!(state.keyboard_scroll_timeout(), TimeoutAction::Drop);
}

fn blur() -> Blur {
    Blur {
        off: false,
        options: BlurOptions { passes: 3, offset: n(3.) },
        noise: n(0.02),
        saturation: n(1.5),
    }
}

fn rules() -> EffectRules {
    EffectRules { xray: None, blur: None, noise: None, saturation: None }
}

fn params() -> RenderParams {
    let area = Rectangle::new(Point::new(n(0.), n(0.)), Size::new(n(20.), n(10.)));
    RenderParams {
        geometry: area,
        subregion: None,
        clip: Some((area, CornerRadius::default())),
        scale: n(1.),
    }
}

type Drawn = (bool, f64, f64, f64);

fn render(
    effect: &BackgroundEffect,
    wallpaper: bool,
) -> Vec<BackgroundEffectElement<Drawn, (Option<u8>, f64, f64)>> {
    let xray = |p: RenderParams, blur: bool, noise: Number, saturation: Number| {
        vec![(blur, f(noise), f(saturation), f(p.clip.unwrap().1.top_left))]
    };
    effect.render(
        &Host,
        params(),
        wallpaper.then_some(xray),
        |_: RenderParams, blur: Option<BlurOptions>, noise: Number, saturation: Number| {
            Some((blur.map(|b| b.passes), f(noise), f(saturation)))
        },
    )
}

#[test]
fn visibility_of_options() {
    let none = Options::default();
    assert!(!none.is_visible());
    assert!(Options { blur: true, ..none }.is_visible());
    assert!(Options { xray: true, ..none }.is_visible());
    assert!(Options { noise: Some(n(0.1)), ..none }.is_visible());
    assert!(!Options { noise: Some(n(0.)), ..none }.is_visible());
    assert!(!Options { saturation: Some(n(1.)), ..none }.is_visible());
    assert!(Options { saturation: Some(n(0.)), ..none }.is_visible());
    assert!(Options { saturation: Some(n(f64::NAN)), ..none }.is_visible());
}

#[test]
fn nothing_is_drawn_by_default() {
    let mut effect = BackgroundEffect::new(blur());
    effect.update_render_elements(square(4.), rules(), false);
    assert!(!effect.is_visible());
    assert!(render(&effect, true).is_empty());
}

#[test]
fn xray_is_the_default_and_needs_a_wallpaper() {
    let mut effect = BackgroundEffect::new(blur());
    effect.update_render_elements(square(4.), rules(), true);
    let elements = render(&effect, true);
    assert_eq!(elements.len(), 2);
    assert!(matches!(elements[0], BackgroundEffectElement::ExtraDamage { commit: 1, .. }));
    match elements[1] {
        BackgroundEffectElement::Xray(drawn) => {
            assert_eq!(drawn, (true, 0.02f32 as f64, 1.5, 5.));
        }
        _ => panic!("expected the wallpaper"),
    }
    assert!(render(&effect, false).is_empty());
}

#[test]
fn framebuffer_effect_without_xray() {
    let mut effect = BackgroundEffect::new(blur());
    let mut asked = rules();
    asked.xray = Some(false);
    asked.blur = Some(true);
    asked.saturation = Some(n(0.5));
    effect.update_render_elements(square(4.), asked, false);
    let elements = render(&effect, true);
    assert_eq!(elements.len(), 2);
    match elements[1] {
        BackgroundEffectElement::FramebufferEffect(drawn) => {
            assert_eq!(drawn, (Some(3), 0.02f32 as f64, 0.5));
        }
        _ => panic!("expected an effect"),
    }
    asked.blur = None;
    effect.update_render_elements(square(4.), asked, false);
    match render(&effect, true)[1] {
        BackgroundEffectElement::FramebufferEffect(drawn) => assert_eq!(drawn, (None, 0., 0.5)),
        _ => panic!("expected an effect"),
    }
}

fn damage(effect: &BackgroundEffect) -> u64 {
    match render(effect, true)[0] {
        BackgroundEffectElement::ExtraDamage { commit, .. } => commit,
        _ => panic!("expected damage"),
    }
}

#[test]
fn changes_are_drawn_once() {
    let mut effect = BackgroundEffect::new(blur());
    effect.update_render_elements(square(4.), rules(), true);
    assert_eq!(damage(&effect), 1);
    effect.update_render_elements(square(4.), rules(), true);
    effect.update_config(blur());
    assert_eq!(damage(&effect), 1);
    effect.update_render_elements(square(5.), rules(), true);
    assert_eq!(damage(&effect), 2);
    let mut off = blur();
    off.off = true;
    effect.update_config(off);
    assert_eq!(damage(&effect), 3);
    match render(&effect, true)[1] {
        BackgroundEffectElement::Xray(drawn) => assert_eq!((drawn.0, drawn.1, drawn.2), (false, 0., 1.)),
        _ => panic!("expected the wallpaper"),
    }
}

#[test]
fn surfaces_without_blur_region_have_no_effect() {
    let mut slot = None;
    for region in [None, Some(vec![])] {
        let elements: Vec<BackgroundEffectElement<u8, u8>> = render_for_surface(
            &Host,
            &mut slot,
            region,
            None,
            blur(),
            Point::new(n(0.), n(0.)),
            Scale { x: n(1.), y: n(1.) },
            Some(|_: RenderParams, _: bool, _: Number, _: Number| vec![1]),
            |_: RenderParams, _: Option<BlurOptions>, _: Number, _: Number| Some(2),
        );
        assert!(elements.is_empty());
        assert!(slot.is_none());
    }
}

#[test]
fn popups_are_blurred_without_xray() {
    let mut slot = None;
    let rect = PixelRectangle {
        loc: PixelPoint { x: 1, y: 2 },
        size: PixelSize { w: 30, h: 40 },
    };
    let elements: Vec<BackgroundEffectElement<u8, (f64, f64, u8)>> = render_for_surface(
        &Host,
        &mut slot,
        Some(vec![rect]),
        Some(rect),
        blur(),
        Point::new(n(10.25), n(20.)),
        Scale { x: n(1.), y: n(1.) },
        Some(|_: RenderParams, _: bool, _: Number, _: Number| panic!("no xray on popups")),
        |p: RenderParams, blur: Option<BlurOptions>, _: Number, _: Number| {
            let region = p.subregion.unwrap();
            assert_eq!(region.rects, vec![rect]);
            assert!(p.clip.is_none());
            assert_eq!(f(p.geometry.loc.x), 11.);
            Some((f(region.offset.x), f(region.offset.y), blur.unwrap().passes))
        },
    );
    assert_eq!(elements.len(), 2);
    match elements[1] {
        BackgroundEffectElement::FramebufferEffect(drawn) => assert_eq!(drawn, (11.25, 22., 3)),
        _ => panic!("expected an effect"),
    }
    assert!(slot.unwrap().is_visible());
}

fn text(name: &str, value: &str) -> Property {
    Property {
        name: name.to_owned(),
        value: Value { has_type_name: false, literal: Literal::Text(value.to_owned()) },
    }
}

fn flag(name: &str, value: bool) -> Property {
    Property {
        name: name.to_owned(),
        value: Value { has_type_name: false, literal: Literal::Flag(value) },
    }
}

fn node(properties: Vec<Property>) -> EntryNode {
    EntryNode {
        has_type_name: false,
        arguments: 0,
        key: Some(Key { trigger: Trigger::Keysym(Keysym(0x62)), modifiers: 0 }),
        properties,
        children: 1,
    }
}

#[test]
fn entries_are_decoded() {
    let node = node(vec![
        flag("all-outputs", true),
        flag("all-workspaces", false),
        text("app-id", "firefox"),
    ]);
    let (diagnostics, head) = FocusOrSpawnEntry::decode_head(&node);
    assert!(diagnostics.is_empty());
    let entry = head.unwrap().decode_action(Some(Action::SpawnSh("firefox".to_owned()))).unwrap();
    assert_eq!(entry.trigger, Keysym(0x62));
    assert_eq!(entry.app_id, "firefox");
    assert!(entry.cycle_all_outputs);
    assert!(!entry.cycle_all_workspaces);
    assert!(matches!(entry.spawn, Some(Action::SpawnSh(_))));
}

#[test]
fn problems_are_reported_in_order() {
    let mut node = node(vec![
        text("all-outputs", "yes"),
        flag("app-id", true),
        text("title", "x"),
        text("app-id", "y"),
    ]);
    node.properties[3].value.has_type_name = true;
    node.has_type_name = true;
    node.arguments = 2;
    node.children = 3;
    let (diagnostics, head) = FocusOrSpawnEntry::decode_head(&node);
    assert_eq!(
        diagnostics,
        [
            Diagnostic::TypeName,
            Diagnostic::Argument(0),
            Diagnostic::Argument(1),
            Diagnostic::NotFlag(0),
            Diagnostic::NotText(1),
            Diagnostic::UnexpectedProperty(2),
            Diagnostic::PropertyTypeName(3),
            Diagnostic::ExtraChild(1),
            Diagnostic::ExtraChild(2),
        ]
    );
    assert_eq!(head.unwrap().app_id, "y");
    assert_eq!(diagnostics[0].message(), Some("no type name expected for this node"));
    assert_eq!(diagnostics[1].message(), Some("no arguments expected for this node"));
    assert_eq!(diagnostics[5].message(), None);
    assert_eq!(
        diagnostics[7].message(),
        Some("only one action is allowed per focus-or-spawn entry")
    );
}

#[test]
fn keys_must_be_plain() {
    let mut entry = node(vec![flag("app-id", true)]);
    entry.arguments = 1;
    for (key, error) in [
        (None, DecodeError::NotAKey),
        (
            Some(Key { trigger: Trigger::Keysym(Keysym(1)), modifiers: 4 }),
            DecodeError::KeyNotPlain,
        ),
        (Some(Key { trigger: Trigger::Other, modifiers: 0 }), DecodeError::KeyNotPlain),
    ] {
        entry.key = key;
        let (diagnostics, head) = FocusOrSpawnEntry::decode_head(&entry);
        assert_eq!(diagnostics, [Diagnostic::Argument(0)]);
        assert_eq!(head.unwrap_err(), error);
    }
    assert_eq!(DecodeError::NotAKey.message(), None);
    assert_eq!(
        DecodeError::KeyNotPlain.message(),
        Some("focus-or-spawn key must be a single keyboard key without modifiers")
    );
}

#[test]
fn app_id_is_required() {
    let mut entry = node(vec![text("other", "x")]);
    entry.children = 5;
    let (diagnostics, head) = FocusOrSpawnEntry::decode_head(&entry);
    assert_eq!(diagnostics, [Diagnostic::UnexpectedProperty(0)]);
    assert_eq!(head.unwrap_err(), DecodeError::MissingAppId);
    assert_eq!(
        DecodeError::MissingAppId.message(),
        Some("missing required property `app-id`")
    );
}

fn entry(trigger: u32, app_id: &str) -> FocusOrSpawnEntry {
    let mut node = node(vec![text("app-id", app_id)]);
    node.key = Some(Key { trigger: Trigger::Keysym(Keysym(trigger)), modifiers: 0 });
    FocusOrSpawnEntry::decode_head(&node).1.unwrap()
}

#[test]
fn only_commands_can_be_started() {
    assert_eq!(
        entry(1, "a").decode_action(Some(Action::Other)).unwrap_err(),
        DecodeError::UnsupportedAction
    );
    assert!(entry(1, "a").decode_action(None).unwrap().spawn.is_none());
    let spawn = Some(Action::Spawn(vec!["a".to_owned()]));
    assert!(matches!(entry(1, "a").decode_action(spawn).unwrap().spawn, Some(Action::Spawn(_))));
    assert_eq!(
        DecodeError::UnsupportedAction.message(),
        Some("focus-or-spawn entries only support spawn or spawn-sh")
    );
}

#[test]
fn first_entry_of_a_key_is_kept() {
    let entries = vec![entry(1, "a"), entry(2, "b"), entry(1, "c"), entry(2, "d"), entry(3, "e")];
    let (section, duplicates) = FocusOrSpawn::collect(entries);
    assert_eq!(duplicates, [2, 3]);
    let apps: Vec<&str> = section.0.iter().map(|e| e.app_id.as_str()).collect();
    assert_eq!(apps, ["a", "b", "e"]);
    assert_eq!(section.find_by_trigger(Keysym(2)).unwrap().app_id, "b");
    assert!(section.find_by_trigger(Keysym(9)).is_none());
    let mut section = section;
    assert!(!section.add_entry(entry(3, "x")));
    assert!(section.add_entry(entry(4, "y")));
    assert_eq!(section.find_by_trigger(Keysym(4)).unwrap().app_id, "y");
}

#[test]
fn sections_compare_by_their_entries() {
    assert_eq!(FocusOrSpawn::default(), FocusOrSpawn::new());
    assert_eq!(FocusOrSpawn(vec![entry(1, "a")]), FocusOrSpawn(vec![entry(1, "a")]));
    assert_ne!(FocusOrSpawn(vec![entry(1, "a")]), FocusOrSpawn(vec![entry(1, "b")]));
    assert_eq!(Action::SpawnSh("x".to_owned()), Action::SpawnSh("x".to_owned()));
}
