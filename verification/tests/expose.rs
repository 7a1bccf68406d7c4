use niri::expose::{lerp, lerp_point, ExposeDirection, ExposeLayout};
use niri::geometry::{Point, Size};
use niri::number::{Arithmetic, Number};

struct Floats;

fn n(x: f64) -> Number {
    Number::new(x.to_bits())
}

fn f(x: Number) -> f64 {
    f64::from_bits(x.bits)
}

impl Arithmetic for Floats {
    fn sum(&self, x: Number, y: Number) -> Number {
        n(f(x) + f(y))
    }

    fn difference(&self, x: Number, y: Number) -> Number {
        n(f(x) - f(y))
    }

    fn product(&self, x: Number, y: Number) -> Number {
        n(f(x) * f(y))
    }

    fn quotient(&self, x: Number, y: Number) -> Number {
        n(f(x) / f(y))
    }

    fn root(&self, x: Number) -> Number {
        n(f(x).sqrt())
    }

    fn ceiling(&self, x: Number) -> Number {
        n(f(x).ceil())
    }

    fn nearest(&self, x: Number) -> Number {
        n(f(x).round())
    }

    fn narrow(&self, x: Number) -> Number {
        n(f(x) as f32 as f64)
    }

    fn number(&self, k: i128) -> Number {
        n(k as f64)
    }

    fn whole(&self, x: Number) -> i64 {
        f(x) as i64
    }

    fn seconds(&self, nanos: u128) -> Number {
        n(nanos as f64 / 1e9)
    }
}

fn point(x: f64, y: f64) -> Point {
    Point::new(n(x), n(y))
}

fn size(w: f64, h: f64) -> Size {
    Size::new(n(w), n(h))
}

fn xy(p: Point) -> (f64, f64) {
    (f(p.x), f(p.y))
}

fn layout(windows: &[(u32, (f64, f64), (f64, f64))], view: (f64, f64)) -> ExposeLayout<u32> {
    let windows = windows
        .iter()
        .map(|(id, pos, tile)| (*id, point(pos.0, pos.1), size(tile.0, tile.1)))
        .collect();
    ExposeLayout::compute(&Floats, windows, size(view.0, view.1)).unwrap()
}

fn ids(layout: &ExposeLayout<u32>) -> Vec<u32> {
    layout.windows.iter().map(|w| w.id).collect()
}

fn grid(count: u32) -> ExposeLayout<u32> {
    let windows: Vec<_> =
        (0..count).map(|i| (i, (i as f64 * 10., 0.), (100., 100.))).collect();
    layout(&windows, (1920., 1080.))
}

#[test]
fn no_windows_make_an_empty_layout() {
    let layout = layout(&[], (1920., 1080.));
    assert!(layout.windows.is_empty());
    assert_eq!((layout.cols, layout.rows, layout.selected_idx), (0, 0, 0));
    assert_eq!(layout.selected_id(), None);
}

#[test]
fn one_window_is_centered() {
    let layout = layout(&[(5, (0., 0.), (800., 600.))], (1920., 1080.));
    assert_eq!((layout.cols, layout.rows), (1, 1));
    assert_eq!(f(layout.windows[0].target_scale), 1.);
    assert_eq!(xy(layout.windows[0].target_pos), (560., 240.));
}

#[test]
fn one_large_window_takes_three_quarters() {
    let single = layout(&[(5, (0., 0.), (1600., 900.))], (1920., 1080.));
    assert_eq!(f(single.windows[0].target_scale), 0.9);
    assert_eq!(xy(single.windows[0].target_pos), (240., 135.));
    let wide = layout(&[(5, (0., 0.), (2880., 100.))], (1920., 1080.));
    assert_eq!(f(wide.windows[0].target_scale), 0.5);
    let huge = layout(&[(5, (0., 0.), (100000., 100.))], (1920., 1080.));
    assert_eq!(f(huge.windows[0].target_scale), 0.15);
}

#[test]
fn last_row_is_centered() {
    let windows: Vec<_> = (0..4u32).map(|i| (i, (i as f64, 0.), (800., 600.))).collect();
    let layout = layout(&windows, (1920., 1080.));
    assert_eq!((layout.cols, layout.rows), (3, 2));
    assert_eq!(f(layout.windows[0].target_scale), 0.74);
    assert_eq!(xy(layout.windows[0].target_pos), (48., 66.));
    assert_eq!(xy(layout.windows[1].target_pos), (664., 66.));
    assert_eq!(xy(layout.windows[3].target_pos), (664., 570.));
    assert_eq!(xy(layout.windows[3].original_pos), (3., 0.));
}

#[test]
fn windows_keep_their_reading_order() {
    let layout = layout(
        &[
            (1, (900., 700.), (100., 100.)),
            (2, (900., 10.), (100., 100.)),
            (3, (100., 600.), (100., 100.)),
            (4, (100., 500.), (100., 100.)),
            (5, (100., 20.), (100., 100.)),
        ],
        (1920., 1080.),
    );
    assert_eq!(ids(&layout), vec![5, 2, 3, 4, 1]);
}

#[test]
fn windows_are_sorted_by_their_centers() {
    let by_row = layout(
        &[
            (1, (0., 380.), (100., 100.)),
            (2, (300., 10.), (100., 100.)),
            (3, (600., 20.), (100., 100.)),
        ],
        (800., 800.),
    );
    assert_eq!(ids(&by_row), vec![2, 3, 1]);
    let by_column = layout(
        &[(1, (0., 0.), (700., 100.)), (2, (100., 0.), (100., 100.))],
        (800., 800.),
    );
    assert_eq!(ids(&by_column), vec![2, 1]);
}

#[test]
fn equal_positions_keep_their_order() {
    let layout = layout(
        &[(3, (0., 0.), (10., 10.)), (1, (0., 0.), (10., 10.)), (2, (0., 0.), (10., 10.))],
        (1000., 1000.),
    );
    assert_eq!(ids(&layout), vec![3, 1, 2]);
}

#[test]
fn scale_stays_within_bounds() {
    let layout = layout(
        &[(1, (0., 0.), (100000., 100.)), (2, (90000., 0.), (1., 1.))],
        (1920., 1080.),
    );
    assert_eq!(f(layout.windows[0].target_scale), 0.15);
    assert_eq!(f(layout.windows[1].target_scale), 1.);
}

#[test]
fn windows_fit_their_cells() {
    let tiles = [(800., 600.), (3000., 900.), (500., 2000.), (100., 100.)];
    let windows: Vec<_> =
        tiles.iter().enumerate().map(|(i, tile)| (i as u32, (i as f64, 0.), *tile)).collect();
    let layout = layout(&windows, (1920., 1080.));
    assert_eq!((layout.cols, layout.rows), (3, 2));
    for window in &layout.windows {
        let scale = f(window.target_scale);
        assert!(scale > 0.15);
        assert!(f(window.tile_size.w) * scale <= 592. + 1e-9);
        assert!(f(window.tile_size.h) * scale <= 480. + 1e-9);
    }
}

#[test]
fn small_views_make_an_empty_layout() {
    let layout = layout(&[(1, (0., 0.), (10., 10.))], (96., 500.));
    assert!(layout.windows.is_empty());
    assert_eq!((layout.cols, layout.rows), (0, 0));
}

#[test]
fn views_without_proportions_have_no_layout() {
    let windows = vec![(1u32, point(0., 0.), size(1., 1.)), (2, point(0., 0.), size(1., 1.))];
    assert!(ExposeLayout::compute(&Floats, windows, size(0., 500.)).is_none());
}

#[test]
fn column_count_follows_the_proportions() {
    let view = size(1920., 1080.);
    assert_eq!(ExposeLayout::<u32>::column_count(&Floats, 1, view), 1);
    assert_eq!(ExposeLayout::<u32>::column_count(&Floats, 2, view), 2);
    assert_eq!(ExposeLayout::<u32>::column_count(&Floats, 6, view), 4);
    assert_eq!(ExposeLayout::<u32>::column_count(&Floats, 6, size(2520., 1080.)), 4);
    assert_eq!(ExposeLayout::<u32>::column_count(&Floats, 3, size(9000., 10.)), 3);
}

#[test]
fn navigation_wraps_around() {
    let mut layout = grid(4);
    assert_eq!((layout.cols, layout.rows), (3, 2));
    let mut go = |from: usize, direction: ExposeDirection| {
        layout.selected_idx = from;
        layout.navigate(direction);
        layout.selected_idx
    };
    assert_eq!(go(0, ExposeDirection::Left), 3);
    assert_eq!(go(3, ExposeDirection::Right), 0);
    assert_eq!(go(1, ExposeDirection::Right), 2);
    assert_eq!(go(1, ExposeDirection::Left), 0);
    assert_eq!(go(0, ExposeDirection::Down), 3);
    assert_eq!(go(3, ExposeDirection::Down), 0);
    assert_eq!(go(0, ExposeDirection::Up), 3);
    assert_eq!(go(3, ExposeDirection::Up), 0);
    assert_eq!(go(1, ExposeDirection::Up), 1);
    assert_eq!(go(2, ExposeDirection::Down), 2);
}

#[test]
fn navigation_skips_the_gap_in_the_last_row() {
    let mut layout = grid(9);
    assert_eq!((layout.cols, layout.rows), (4, 3));
    layout.selected_idx = 1;
    layout.navigate(ExposeDirection::Up);
    assert_eq!(layout.selected_idx, 5);
    layout.navigate(ExposeDirection::Down);
    assert_eq!(layout.selected_idx, 1);
}

#[test]
fn opposite_steps_are_undone() {
    for count in 1..14 {
        let mut layout = grid(count);
        for start in 0..count as usize {
            for (there, back) in [
                (ExposeDirection::Up, ExposeDirection::Down),
                (ExposeDirection::Down, ExposeDirection::Up),
                (ExposeDirection::Left, ExposeDirection::Right),
                (ExposeDirection::Right, ExposeDirection::Left),
            ] {
                layout.selected_idx = start;
                layout.navigate(there);
                layout.navigate(back);
                assert_eq!(layout.selected_idx, start);
            }
        }
    }
}

#[test]
fn empty_layout_does_not_navigate() {
    let mut layout = layout(&[], (1920., 1080.));
    layout.navigate(ExposeDirection::Down);
    assert_eq!(layout.selected_idx, 0);
}

#[test]
fn selection_by_id() {
    let mut layout = grid(4);
    layout.select_by_id(&2);
    assert_eq!(layout.selected_id(), Some(&2));
    layout.select_by_id(&77);
    assert_eq!(layout.selected_id(), Some(&0));
}

#[test]
fn window_under_a_point() {
    let layout = grid(4);
    let target = xy(layout.windows[2].target_pos);
    let inside = point(target.0 + 1., target.1 + 1.);
    assert_eq!(layout.window_at(&Floats, inside, n(1.)), Some(&2));
    assert_eq!(layout.window_at(&Floats, point(25., 50.), n(0.)), Some(&2));
    assert_eq!(layout.window_at(&Floats, point(1900., 1000.), n(1.)), None);
}

#[test]
fn interpolation() {
    assert_eq!(f(lerp(&Floats, n(10.), n(20.), n(0.25))), 12.5);
    let middle = lerp_point(&Floats, point(0., 8.), point(4., 0.), n(0.5));
    assert_eq!(xy(middle), (2., 4.));
}
