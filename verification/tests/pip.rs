use niri::geometry::{CornerRadius, PixelPoint, PixelSize, Point, Rectangle, ResizeEdge, Scale, Size};
use niri::number::{Arithmetic, Number};
use niri::pip::{PipHit, PipHitTarget, PipManager};
use niri::pip_grab::{GrabEffect, GrabStartData, PipGrabMode, PipPointerGrab};
use niri::pip_render::{
    clip_element, pip_shadow_config, scale_corner_radius, Color, LayoutElementRenderElement,
    PipRenderElement, PipThumbnailRenderElement, RenderContext, Rgba8, WindowRenderer,
};
use niri::thumbnail::{
    current_scale, fit_into_box, min_thumbnail_scale, normalize_source_size, scale_to_fit,
    thumbnail_size, Outputs, PipThumbnail,
};
use niri::window::Mapped;
use std::cell::RefCell;

struct Host {
    outputs: RefCell<Vec<(u64, (f64, f64))>>,
    clips: RefCell<bool>,
}

impl Host {
    fn new(outputs: &[(u64, (f64, f64))]) -> Host {
        Host { outputs: RefCell::new(outputs.to_vec()), clips: RefCell::new(true) }
    }

    fn resize_output(&self, output: u64, size: (f64, f64)) {
        for entry in self.outputs.borrow_mut().iter_mut() {
            if entry.0 == output {
                entry.1 = size;
            }
        }
    }
}

fn n(x: f64) -> Number {
    Number::new(x.to_bits())
}

fn f(x: Number) -> f64 {
    f64::from_bits(x.bits)
}

impl Arithmetic for Host {
    fn sum(&self, x: Number, y: Number) -> Number {
        n(f(x) + f(y))
    }

    fn difference(&self, x: Number, y: Number) -> Number {
        n(f(x) - f(y))
    }

    fn product(&self, x: Number, y: Number) -> Number {
        n(f(x) * f(y))
    }

    fn quotient(&self, x: Number, y: Number) -> Number {
        n(f(x) / f(y))
    }

    fn root(&self, x: Number) -> Number {
        n(f(x).sqrt())
    }

    fn ceiling(&self, x: Number) -> Number {
        n(f(x).ceil())
    }

    fn nearest(&self, x: Number) -> Number {
        n(f(x).round())
    }

    fn narrow(&self, x: Number) -> Number {
        n(f(x) as f32 as f64)
    }

    fn number(&self, k: i128) -> Number {
        n(k as f64)
    }

    fn whole(&self, x: Number) -> i64 {
        f(x) as i64
    }

    fn seconds(&self, nanos: u128) -> Number {
        n(std::time::Duration::from_nanos(nanos as u64).as_secs_f64())
    }
}

impl Outputs for Host {
    fn output_size(&self, output: u64) -> Size {
        let outputs = self.outputs.borrow();
        let found = outputs.iter().find(|entry| entry.0 == output).unwrap();
        size(found.1 .0, found.1 .1)
    }
}

fn point(x: f64, y: f64) -> Point {
    Point::new(n(x), n(y))
}

fn size(w: f64, h: f64) -> Size {
    Size::new(n(w), n(h))
}

fn xy(p: Point) -> (f64, f64) {
    (f(p.x), f(p.y))
}

fn wh(s: Size) -> (f64, f64) {
    (f(s.w), f(s.h))
}

fn pixels(w: i32, h: i32) -> PixelSize {
    PixelSize { w, h }
}

const WINDOW: u64 = 7;

fn set_up(outputs: &[(u64, (f64, f64))], pip_output: u64) -> (Host, PipManager) {
    let host = Host::new(outputs);
    let mut pips = PipManager::new();
    let redraws = pips.toggle_pip_for_source(&host, WINDOW, pixels(100, 100), pip_output);
    assert_eq!(redraws, vec![pip_output]);
    (host, pips)
}

fn thumbnail(pips: &PipManager) -> PipThumbnail {
    *pips.find_by_source(WINDOW).unwrap()
}

#[test]
fn visible_thumbnail_is_hit_at_its_center() {
    let (host, pips) = set_up(&[(1, (1920., 1080.))], 1);
    let pip = thumbnail(&pips);
    let center = point(
        f(pip.position.x) + f(pip.size.w) / 2.,
        f(pip.position.y) + f(pip.size.h) / 2.,
    );
    assert_eq!(pips.pip_under(&host, 1, center), Some(pip.id));
    assert_eq!(pips.pip_under(&host, 2, center), None);
}

#[test]
fn pip_removed_when_source_unmaps() {
    let (_host, mut pips) = set_up(&[(1, (1920., 1080.))], 1);
    assert_eq!(pips.remove_by_source(WINDOW), vec![1]);
    assert!(pips.find_by_source(WINDOW).is_none());
    assert!(pips.remove_by_source(WINDOW).is_empty());
}

#[test]
fn pip_removed_when_output_is_removed() {
    let (_host, mut pips) = set_up(&[(1, (1920., 1080.)), (2, (1280., 720.))], 2);
    assert_eq!(pips.remove_by_output(2), vec![2]);
    assert!(pips.find_by_source(WINDOW).is_none());
}

#[test]
fn pip_is_clamped_after_output_resize() {
    let (host, mut pips) = set_up(&[(1, (1920., 1080.))], 1);
    host.resize_output(1, (1280., 720.));
    assert!(pips.clamp_output(&host, 1));

    let pip = thumbnail(&pips);
    let eps = 1e-6;
    assert!(f(pip.position.x) >= -eps);
    assert!(f(pip.position.y) >= -eps);
    assert!(f(pip.position.x) + f(pip.size.w) <= 1280. + eps);
    assert!(f(pip.position.y) + f(pip.size.h) <= 720. + eps);
    assert_eq!(xy(pip.position), (800., 240.));
    assert!(!pips.clamp_output(&host, 1));
}

#[test]
fn source_commit_refreshes_pip_source_size() {
    let (host, mut pips) = set_up(&[(1, (1920., 1080.))], 1);
    pips.refresh_source_size(&host, WINDOW, pixels(200, 150));

    let pip = thumbnail(&pips);
    assert_eq!(wh(pip.source_size), (200., 150.));
    assert_eq!(wh(pip.size), (480., 360.));
    assert_eq!(xy(pip.position), (1424., 584.));

    pips.refresh_source_size(&host, WINDOW, pixels(200, 150));
    let again = thumbnail(&pips);
    assert_eq!(wh(again.size), wh(pip.size));
    assert_eq!(xy(again.position), xy(pip.position));
}

#[test]
fn new_thumbnail_is_a_quarter_wide_in_the_lower_right_corner() {
    let (_host, pips) = set_up(&[(1, (1920., 1080.))], 1);
    let pip = thumbnail(&pips);
    assert_eq!(pip.id, 1);
    assert_eq!(pip.output, 1);
    assert_eq!(wh(pip.size), (480., 480.));
    assert_eq!(xy(pip.position), (1424., 584.));
    assert!(!pip.is_hovered);
}

#[test]
fn new_thumbnail_on_a_tiny_output_stays_at_the_origin() {
    let (_host, pips) = set_up(&[(1, (10., 10.))], 1);
    assert_eq!(xy(thumbnail(&pips).position), (0., 0.));
}

#[test]
fn new_thumbnail_of_a_tall_window_leaves_the_margin() {
    let host = Host::new(&[(1, (1920., 1080.))]);
    let mut pips = PipManager::new();
    pips.toggle_pip_for_source(&host, WINDOW, pixels(100, 532), 1);
    let pip = thumbnail(&pips);
    assert_eq!(wh(pip.size), (200., 1064.));
    assert_eq!(xy(pip.position), (1704., 0.));

    let tiny = thumbnail_size(&host, size(100., 200.), size(10., 10.));
    assert_eq!(wh(tiny), (0.5, 1.));
}

#[test]
fn toggle_pip_takes_the_window() {
    let host = Host::new(&[(1, (1920., 1080.))]);
    let mut pips = PipManager::new();
    let mapped = Mapped {
        id: WINDOW,
        size: pixels(100, 100),
        is_normal: true,
        geometry_corner_radius: None,
    };
    assert_eq!(pips.toggle_pip(&host, &mapped, 1), vec![1]);
    assert_eq!(wh(thumbnail(&pips).source_size), (100., 100.));
}

#[test]
fn toggling_twice_restores() {
    let (host, mut pips) = set_up(&[(1, (1920., 1080.)), (2, (800., 600.))], 1);
    assert_eq!(pips.toggle_pip_for_source(&host, WINDOW, pixels(100, 100), 2), vec![1]);
    assert!(pips.find_by_source(WINDOW).is_none());
    pips.toggle_pip_for_source(&host, WINDOW, pixels(100, 100), 2);
    assert_eq!(thumbnail(&pips).id, 2);
}

#[test]
fn removal_lists_each_output_once_and_keeps_the_rest() {
    let host = Host::new(&[(1, (1920., 1080.)), (2, (800., 600.))]);
    let mut pips = PipManager::new();
    for source in 10..14 {
        pips.toggle_pip_for_source(&host, source, pixels(100, 100), 1 + source % 2);
    }
    assert_eq!(pips.remove(2), vec![2]);
    assert!(pips.find(2).is_none());
    assert_eq!(pips.remove_by_output(1), vec![1]);
    assert!(pips.find(1).is_none());
    assert!(pips.find(3).is_none());
    assert_eq!(pips.find(4).unwrap().source_id, 13);
    assert_eq!(pips.outputs_for_source(13), vec![2]);
    assert!(pips.outputs_for_source(10).is_empty());
}

#[test]
fn topmost_thumbnail_is_hit() {
    let (host, mut pips) = set_up(&[(1, (1920., 1080.))], 1);
    pips.toggle_pip_for_source(&host, 8, pixels(100, 100), 1);
    let inside = point(1769., 929.);
    assert_eq!(pips.pip_under(&host, 1, inside), Some(2));
    assert!(pips.raise_to_top(1));
    assert_eq!(pips.pip_under(&host, 1, inside), Some(1));
    assert!(!pips.raise_to_top(1));
    assert!(!pips.raise_to_top(99));
}

#[test]
fn hit_test_tells_the_part() {
    let (host, pips) = set_up(&[(1, (1920., 1080.))], 1);
    let hit = |x: f64, y: f64| pips.hit_test(&host, 1, point(x, y));
    let part = |target: PipHitTarget| Some(PipHit { id: 1, target });
    assert_eq!(hit(1424., 584.), part(PipHitTarget::CloseButton));
    assert_eq!(hit(1447.5, 607.5), part(PipHitTarget::CloseButton));
    assert_eq!(hit(1448., 608.), part(PipHitTarget::Body));
    assert_eq!(hit(1900., 585.), part(PipHitTarget::Resize(ResizeEdge::top_right())));
    assert_eq!(hit(1425., 1060.), part(PipHitTarget::Resize(ResizeEdge::bottom_left())));
    assert_eq!(hit(1900., 1060.), part(PipHitTarget::Resize(ResizeEdge::bottom_right())));
    assert_eq!(hit(1769., 929.), part(PipHitTarget::Body));
    assert_eq!(hit(1423., 584.), None);
    assert_eq!(hit(1904., 929.), None);
}

#[test]
fn every_corner_can_be_pulled() {
    let (host, pips) = set_up(&[(1, (1920., 1080.))], 1);
    let pip = thumbnail(&pips);
    let corner = |x: f64, y: f64| pip.resize_corner_at(&host, point(x, y));
    assert_eq!(corner(1425., 585.), Some(ResizeEdge::top_left()));
    assert_eq!(corner(1900., 585.), Some(ResizeEdge::top_right()));
    assert_eq!(corner(1425., 1060.), Some(ResizeEdge::bottom_left()));
    assert_eq!(corner(1900., 1060.), Some(ResizeEdge::bottom_right()));
    assert_eq!(corner(1769., 929.), None);
    assert_eq!(corner(0., 0.), None);
}

#[test]
fn close_button_is_at_the_upper_left_corner() {
    let (_host, pips) = set_up(&[(1, (1920., 1080.))], 1);
    let rect = pips.close_button_rect(1).unwrap();
    assert_eq!(xy(rect.loc), (1424., 584.));
    assert_eq!(wh(rect.size), (24., 24.));
    assert!(pips.close_button_rect(2).is_none());
}

#[test]
fn moving_stays_on_the_output() {
    let (host, mut pips) = set_up(&[(1, (1920., 1080.))], 1);
    assert_eq!(pips.move_pip(&host, 1, point(-50., 5000.)), Some(1));
    assert_eq!(xy(thumbnail(&pips).position), (0., 600.));
    assert_eq!(pips.move_pip(&host, 9, point(0., 0.)), None);
}

#[test]
fn pulling_a_corner_keeps_the_opposite_one() {
    let (host, mut pips) = set_up(&[(1, (1920., 1080.))], 1);
    let pulled = pips.resize_pip(&host, 1, ResizeEdge::bottom_right(), point(1524., 684.));
    assert_eq!(pulled, Some(1));
    assert_eq!(wh(thumbnail(&pips).size), (100., 100.));
    assert_eq!(xy(thumbnail(&pips).position), (1424., 584.));

    pips.resize_pip(&host, 1, ResizeEdge::top_left(), point(1324., 484.));
    assert_eq!(wh(thumbnail(&pips).size), (200., 200.));
    assert_eq!(xy(thumbnail(&pips).position), (1324., 484.));

    pips.resize_pip(&host, 1, ResizeEdge::top_left(), point(1523., 683.));
    assert_eq!(wh(thumbnail(&pips).size), (96., 96.));
    assert_eq!(pips.resize_pip(&host, 9, ResizeEdge::top_left(), point(0., 0.)), None);
}

#[test]
fn zooming_keeps_the_center() {
    let (host, mut pips) = set_up(&[(1, (1920., 1080.))], 1);
    assert_eq!(pips.resize_by_factor(&host, 1, n(0.5)), Some(1));
    assert_eq!(wh(thumbnail(&pips).size), (240., 240.));
    assert_eq!(xy(thumbnail(&pips).position), (1544., 704.));
    assert_eq!(pips.resize_by_factor(&host, 1, n(0.)), None);
    assert_eq!(pips.resize_by_factor(&host, 1, n(-1.)), None);
    assert_eq!(pips.resize_by_factor(&host, 9, n(2.)), None);
    assert_eq!(wh(thumbnail(&pips).size), (240., 240.));
}

fn assert_is_on_output(pip: PipThumbnail, bounds: (f64, f64)) {
    let eps = 1e-6;
    assert!(f(pip.position.x) >= 0.);
    assert!(f(pip.position.y) >= 0.);
    assert!(f(pip.position.x) + f(pip.size.w) <= bounds.0 + eps);
    assert!(f(pip.position.y) + f(pip.size.h) <= bounds.1 + eps);
}

#[test]
fn resizing_stays_on_the_output() {
    let bounds = (1920., 1080.);
    let (host, mut pips) = set_up(&[(1, bounds)], 1);
    pips.resize_pip(&host, 1, ResizeEdge::bottom_right(), point(5000., 5000.));
    assert_eq!(wh(thumbnail(&pips).size), (496., 496.));
    assert_eq!(xy(thumbnail(&pips).position), (1424., 584.));
    assert_is_on_output(thumbnail(&pips), bounds);

    pips.resize_pip(&host, 1, ResizeEdge::top_left(), point(-5000., -5000.));
    assert_eq!(wh(thumbnail(&pips).size), (1080., 1080.));
    assert_eq!(xy(thumbnail(&pips).position), (840., 0.));
    assert_is_on_output(thumbnail(&pips), bounds);

    let (host, mut pips) = set_up(&[(1, bounds)], 1);
    pips.resize_by_factor(&host, 1, n(100.));
    assert_eq!(wh(thumbnail(&pips).size), (512., 512.));
    assert_eq!(xy(thumbnail(&pips).position), (1408., 568.));
    assert_is_on_output(thumbnail(&pips), bounds);
}

#[test]
fn hover_marks_at_most_one() {
    let (host, mut pips) = set_up(&[(1, (1920., 1080.))], 1);
    pips.toggle_pip_for_source(&host, 8, pixels(100, 100), 1);
    let inside = Some((1, point(1769., 929.)));
    assert!(pips.update_hover(&host, inside));
    assert!(!pips.find(1).unwrap().is_hovered);
    assert!(pips.find(2).unwrap().is_hovered);
    assert!(!pips.update_hover(&host, inside));
    assert!(pips.update_hover(&host, None));
    assert!(!pips.find(2).unwrap().is_hovered);
}

#[test]
fn find_mut_changes_the_thumbnail() {
    let (_host, mut pips) = set_up(&[(1, (1920., 1080.))], 1);
    pips.find_mut(1).unwrap().is_hovered = true;
    assert!(pips.find(1).unwrap().is_hovered);
    assert!(pips.find_mut(2).is_none());
}

#[test]
fn sizes_follow_the_formulas() {
    let host = Host::new(&[]);
    assert_eq!(wh(thumbnail_size(&host, size(1920., 1080.), size(1920., 1080.))), (480., 270.));
    assert_eq!(wh(thumbnail_size(&host, size(0., 10.), size(1920., 1080.))), (480., 270.));
    assert_eq!(wh(thumbnail_size(&host, size(200., 100.), size(1920., 1080.))), (480., 240.));
    assert_eq!(wh(thumbnail_size(&host, size(100., 200.), size(1920., 1080.))), (480., 960.));
    assert_eq!(wh(fit_into_box(&host, size(200., 100.), size(100., 100.))), (100., 50.));
    assert_eq!(wh(fit_into_box(&host, size(0., 100.), size(0.5, 20.))), (1., 20.));
    assert_eq!(wh(fit_into_box(&host, size(1000., 1000.), size(0.1, 0.1))), (1., 1.));
    assert_eq!(wh(normalize_source_size(size(3., 4.), size(9., 9.))), (3., 4.));
    assert_eq!(wh(normalize_source_size(size(-3., 4.), size(0., 9.))), (1., 9.));
    assert_eq!(f(scale_to_fit(&host, size(0., 0.), size(5., 7.))), 5.);
    assert_eq!(f(scale_to_fit(&host, size(10., 10.), size(0., 0.))), 0.001);
    assert_eq!(f(current_scale(&host, size(10., 20.), size(5., 5.))), 0.25);
    assert_eq!(f(min_thumbnail_scale(&host, size(96., 192.))), 0.5);
    assert_eq!(f(min_thumbnail_scale(&host, size(0., 0.))), 96.);
}

fn mapped(normal: bool, radius: f64) -> Mapped {
    let r = n(radius);
    Mapped {
        id: WINDOW,
        size: pixels(100, 100),
        is_normal: normal,
        geometry_corner_radius: Some(CornerRadius {
            top_left: r,
            top_right: r,
            bottom_right: r,
            bottom_left: r,
        }),
    }
}

fn black() -> Color {
    Color { r: n(0.), g: n(0.), b: n(0.), a: n(1.) }
}

// A window is drawn as a surface in front of a rectangle, both named after it.
impl WindowRenderer<u64> for Host {
    fn render_normal(
        &self,
        mapped: &Mapped,
        location: Point,
        _scale: Scale,
        alpha: Number,
    ) -> Vec<LayoutElementRenderElement<u64>> {
        assert_eq!(xy(location), (0., 0.));
        assert_eq!(f(alpha), 1.);
        vec![
            LayoutElementRenderElement::Wayland(mapped.id),
            LayoutElementRenderElement::SolidColor { elem: mapped.id, color: black() },
        ]
    }

    fn will_clip(&self, _elem: &u64, _scale: Scale, _geo: Rectangle, _radius: CornerRadius) -> bool {
        *self.clips.borrow()
    }
}

fn context(scale: f64) -> RenderContext {
    RenderContext { scale: n(scale), has_border_shader: true, has_clip_shader: true }
}

#[test]
fn picture_and_shadow_are_drawn() {
    let (host, pips) = set_up(&[(1, (1920., 1080.))], 1);
    let elements = pips.render_for_output(&host, &vec![mapped(true, 10.)], 1, context(1.5));
    assert_eq!(elements.len(), 3);
    match &elements[0] {
        PipRenderElement::Thumbnail { elem, scale, offset } => {
            match elem {
                PipThumbnailRenderElement::ClippedSurface { elem, scale, geo, radius } => {
                    assert_eq!(*elem, WINDOW);
                    assert_eq!((f(scale.x), f(scale.y)), (1.5, 1.5));
                    assert_eq!(xy(geo.loc), (0., 0.));
                    assert_eq!(wh(geo.size), (100., 100.));
                    assert_eq!(f(radius.top_left), 10.);
                }
                _ => panic!("expected a clipped surface"),
            }
            assert_eq!((f(scale.x), f(scale.y)), (4.8, 4.8));
            assert_eq!(*offset, PixelPoint { x: 2136, y: 876 });
        }
        _ => panic!("expected the picture"),
    }
    assert!(matches!(
        &elements[1],
        PipRenderElement::Thumbnail { elem: PipThumbnailRenderElement::Border(_), .. }
    ));
    match &elements[2] {
        PipRenderElement::Shadow { config, size, is_active, radius, scale, alpha, position } => {
            assert!(config.on);
            assert_eq!(wh(*size), (480., 480.));
            assert!(*is_active);
            assert_eq!(f(radius.top_left), (10f32 * 4.8f32) as f64);
            assert_eq!((f(*scale), f(*alpha)), (1.5, 1.));
            assert_eq!(xy(*position), (1424., 584.));
        }
        _ => panic!("expected the shadow"),
    }
}

#[test]
fn maximized_windows_have_square_corners() {
    let (host, pips) = set_up(&[(1, (1920., 1080.))], 1);
    let elements = pips.render_for_output(&host, &vec![mapped(false, 10.)], 1, context(1.));
    match &elements[0] {
        PipRenderElement::Thumbnail {
            elem: PipThumbnailRenderElement::ClippedSurface { radius, .. },
            ..
        } => assert_eq!(f(radius.top_left), 0.),
        _ => panic!("expected the picture"),
    }
    assert!(matches!(
        &elements[1],
        PipRenderElement::Thumbnail { elem: PipThumbnailRenderElement::LayoutElement(_), .. }
    ));
}

#[test]
fn close_button_is_drawn_while_hovered() {
    let (host, mut pips) = set_up(&[(1, (1920., 1080.))], 1);
    pips.update_hover(&host, Some((1, point(1769., 929.))));
    let elements = pips.render_for_output(&host, &vec![], 1, context(1.));
    assert_eq!(elements.len(), 1);
    match &elements[0] {
        PipRenderElement::SolidColor { size, color, position, alpha } => {
            assert_eq!(wh(*size), (24., 24.));
            assert_eq!((f(color.r), f(color.g), f(color.b), f(color.a)), (0., 0., 0., 0.75));
            assert_eq!(xy(*position), (1424., 584.));
            assert_eq!(f(*alpha), 1.);
        }
        _ => panic!("expected the close button"),
    }
    assert!(pips.render_for_output(&host, &vec![mapped(true, 0.)], 2, context(1.)).is_empty());
}

#[test]
fn topmost_thumbnail_is_drawn_first() {
    let (host, mut pips) = set_up(&[(1, (1920., 1080.))], 1);
    assert!(pips.can_toggle(8));
    pips.toggle_pip_for_source(&host, 8, pixels(100, 100), 1);
    let mut second = mapped(true, 0.);
    second.id = 8;
    let elements =
        pips.render_for_output(&host, &vec![mapped(true, 0.), second], 1, context(1.));
    assert_eq!(elements.len(), 6);
    let surface = |element: &PipRenderElement<u64>| match element {
        PipRenderElement::Thumbnail {
            elem: PipThumbnailRenderElement::ClippedSurface { elem, .. },
            ..
        } => *elem,
        _ => panic!("expected a surface"),
    };
    assert_eq!((surface(&elements[0]), surface(&elements[3])), (8, WINDOW));
}

#[test]
fn windows_without_area_are_not_drawn() {
    let host = Host::new(&[(1, (1920., 1080.))]);
    let mut pips = PipManager::new();
    pips.toggle_pip_for_source(&host, WINDOW, pixels(0, 100), 1);
    assert!(pips.render_for_output(&host, &vec![mapped(true, 0.)], 1, context(1.)).is_empty());
}

#[test]
fn render_smoke_with_pip_survives_lifecycle_changes() {
    let (host, mut pips) = set_up(&[(1, (1920., 1080.))], 1);
    let windows = vec![mapped(true, 0.)];
    let render = |pips: &PipManager| pips.render_for_output(&host, &windows, 1, context(1.)).len();
    assert!(render(&pips) > 0);

    pips.refresh_source_size(&host, WINDOW, pixels(220, 160));
    assert!(render(&pips) > 0);

    host.resize_output(1, (1280., 720.));
    pips.clamp_output(&host, 1);
    assert!(render(&pips) > 0);

    // With the window its thumbnail is gone, and nothing is left of it to draw.
    pips.remove_by_source(WINDOW);
    assert_eq!(render(&pips), 0);
}

#[test]
fn shadow_looks_as_configured() {
    let config = pip_shadow_config();
    assert!(config.on);
    assert_eq!(xy(config.offset), (0., 2.));
    assert_eq!(f(config.softness), 18.);
    assert_eq!(f(config.spread), 2.);
    assert!(!config.draw_behind_window);
    assert_eq!(config.color, Rgba8 { r: 0, g: 0, b: 0, a: 0x50 });
    assert_eq!(config.inactive_color, None);
}

#[test]
fn corner_radius_scales() {
    let host = Host::new(&[]);
    let radius = CornerRadius {
        top_left: n(1.),
        top_right: n(2.),
        bottom_right: n(3.),
        bottom_left: n(4.),
    };
    let scaled = scale_corner_radius(&host, radius, n(0.5));
    assert_eq!(f(scaled.top_left), 0.5);
    assert_eq!(f(scaled.top_right), 1.);
    assert_eq!(f(scaled.bottom_right), 1.5);
    assert_eq!(f(scaled.bottom_left), 2.);
    assert_eq!(f(scale_corner_radius(&host, radius, n(-1.)).bottom_left), 0.);
}

#[test]
fn elements_are_clipped() {
    let host = Host::new(&[]);
    let scale = Scale { x: n(1.5), y: n(1.5) };
    let geo = Rectangle::new(point(3., 4.), size(100., 50.));
    let round = mapped(true, 8.).geometry_corner_radius.unwrap();
    let square = CornerRadius::default();
    let solid = || LayoutElementRenderElement::SolidColor { elem: 2, color: black() };
    let surface = || LayoutElementRenderElement::Wayland(1);
    let clip = |elem, radius, border, shader, clips: bool| {
        *host.clips.borrow_mut() = clips;
        clip_element(&host, elem, scale, geo, radius, border, shader)
    };

    match clip(surface(), round, true, true, true) {
        PipThumbnailRenderElement::ClippedSurface { elem, scale, geo, radius } => {
            assert_eq!(elem, 1);
            assert_eq!(f(scale.x), 1.5);
            assert_eq!(xy(geo.loc), (3., 4.));
            assert_eq!(f(radius.top_left), 8.);
        }
        _ => panic!("expected a clipped surface"),
    }
    assert!(matches!(
        clip(surface(), round, true, true, false),
        PipThumbnailRenderElement::LayoutElement(LayoutElementRenderElement::Wayland(1))
    ));
    assert!(matches!(
        clip(surface(), round, true, false, true),
        PipThumbnailRenderElement::LayoutElement(LayoutElementRenderElement::Wayland(1))
    ));
    match clip(solid(), round, true, false, true) {
        PipThumbnailRenderElement::Border(border) => {
            assert_eq!(wh(border.size), (100., 50.));
            assert_eq!(xy(border.geometry.loc), (0., 0.));
            assert_eq!(f(border.color_from.a), 1.);
            assert_eq!(f(border.scale), 1.5);
            assert_eq!(f(border.alpha), 1.);
            assert_eq!(f(border.border_width), 0.);
        }
        _ => panic!("expected a border"),
    }
    assert!(matches!(
        clip(solid(), square, true, true, true),
        PipThumbnailRenderElement::LayoutElement(LayoutElementRenderElement::SolidColor {
            elem: 2,
            ..
        })
    ));
    assert!(matches!(
        clip(solid(), round, false, true, true),
        PipThumbnailRenderElement::LayoutElement(_)
    ));
    assert!(matches!(
        clip(LayoutElementRenderElement::BackgroundEffect(3), round, true, true, true),
        PipThumbnailRenderElement::LayoutElement(LayoutElementRenderElement::BackgroundEffect(3))
    ));
}

fn start() -> GrabStartData {
    GrabStartData { button: 0x110, location: point(0., 0.) }
}

#[test]
fn grab_moves_the_thumbnail() {
    let (host, mut pips) = set_up(&[(1, (1920., 1080.))], 1);
    let grab = PipPointerGrab::new_move(start(), 1, 1, point(10., 20.));
    let origin = Some(PixelPoint { x: 1000, y: 0 });
    let effect = grab.motion(&host, &mut pips, true, origin, point(1510., 320.));
    assert_eq!(effect, GrabEffect::Redraw(1));
    assert_eq!(xy(thumbnail(&pips).position), (500., 300.));
}

#[test]
fn grab_resizes_the_thumbnail() {
    let (host, mut pips) = set_up(&[(1, (1920., 1080.))], 1);
    let grab = PipPointerGrab::new_resize(start(), 1, 1, ResizeEdge::bottom_right());
    let origin = Some(PixelPoint { x: 0, y: 0 });
    let effect = grab.motion(&host, &mut pips, true, origin, point(1524., 684.));
    assert_eq!(effect, GrabEffect::Redraw(1));
    assert_eq!(wh(thumbnail(&pips).size), (100., 100.));
}

#[test]
fn grab_moves_only_while_the_pointer_is_on_the_output() {
    let (host, mut pips) = set_up(&[(1, (1920., 1080.))], 1);
    let grab = PipPointerGrab::new_move(start(), 1, 1, point(10., 20.));
    let origin = Some(PixelPoint { x: 1000, y: 0 });
    for (x, y) in [(999., 320.), (2920., 320.), (1510., -1.), (1510., 1080.)] {
        let effect = grab.motion(&host, &mut pips, true, origin, point(x, y));
        assert_eq!(effect, GrabEffect::Nothing);
        assert_eq!(xy(thumbnail(&pips).position), (1424., 584.));
    }
    let effect = grab.motion(&host, &mut pips, true, origin, point(1000., 0.));
    assert_eq!(effect, GrabEffect::Redraw(1));
    assert_eq!(xy(thumbnail(&pips).position), (0., 0.));

    let grab = PipPointerGrab::new_resize(start(), 1, 1, ResizeEdge::bottom_right());
    let effect = grab.motion(&host, &mut pips, true, origin, point(9000., 9000.));
    assert_eq!(effect, GrabEffect::Redraw(1));
    assert_eq!(wh(thumbnail(&pips).size), (1080., 1080.));
}

#[test]
fn grab_ends_without_thumbnail_or_output() {
    let (host, mut pips) = set_up(&[(1, (1920., 1080.))], 1);
    let origin = Some(PixelPoint { x: 0, y: 0 });
    let grab = PipPointerGrab::new_move(start(), 1, 1, point(0., 0.));
    let to = point(5., 5.);
    assert_eq!(grab.motion(&host, &mut pips, false, origin, to), GrabEffect::Unset);
    assert_eq!(grab.motion(&host, &mut pips, true, None, to), GrabEffect::Nothing);
    assert_eq!(xy(thumbnail(&pips).position), (1424., 584.));
    pips.remove(1);
    assert_eq!(grab.motion(&host, &mut pips, true, origin, to), GrabEffect::Unset);
}

#[test]
fn grab_ends_with_its_button() {
    let grab = PipPointerGrab::new_move(start(), 1, 3, point(0., 0.));
    assert!(grab.button(&vec![]));
    assert!(grab.button(&vec![0x111]));
    assert!(!grab.button(&vec![0x111, 0x110]));
    assert_eq!(grab.start_data().button, 0x110);
    assert_eq!(grab.output(), 3);
    assert_eq!(grab.queue_redraw_if_output_alive(true), Some(3));
    assert_eq!(grab.queue_redraw_if_output_alive(false), None);
}

#[test]
fn grab_modes_hold_their_values() {
    let modes = [
        PipGrabMode::Move { grab_offset: point(1., 2.) },
        PipGrabMode::Resize { edges: ResizeEdge::top_left() },
    ];
    match modes[0] {
        PipGrabMode::Move { grab_offset } => assert_eq!(xy(grab_offset), (1., 2.)),
        PipGrabMode::Resize { .. } => panic!("expected a move"),
    }
    assert!(matches!(modes[1], PipGrabMode::Resize { .. }));
}

#[test]
fn numbers_compare_like_floats() {
    let values = [
        0., -0., 1., -1., 1.5, -1.5, 1e300, -1e300, 5e-324, -5e-324, f64::INFINITY,
        f64::NEG_INFINITY, f64::NAN,
    ];
    for x in values {
        for y in values {
            assert_eq!(n(x).is_lt(n(y)), x < y);
            assert_eq!(n(x).is_le(n(y)), x <= y);
            assert_eq!(n(x).is_same(n(y)), x == y);
            let least = f(n(x).min(n(y)));
            assert!(least == x.min(y) || (least.is_nan() && x.min(y).is_nan()));
            let most = f(n(x).max(n(y)));
            assert!(most == x.max(y) || (most.is_nan() && x.max(y).is_nan()));
        }
        assert_eq!(n(x).is_nan(), x.is_nan());
        assert_eq!(n(x).neg().bits, (-x).to_bits());
        let clamped = f(n(x).clamp(n(-1.), n(1.)));
        assert!(clamped == x.clamp(-1., 1.) || clamped.is_nan() && x.is_nan());
    }
}
