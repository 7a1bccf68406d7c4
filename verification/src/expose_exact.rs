//! Where the expose view puts windows, and how large it shows them, without rounding.
use crate::exact::{has_exact_roots, is_exact, is_floor, lemma_quotient};
use crate::expose::{
    bounded_scale, is_arranged, is_cell, is_cell_extent, is_centered, is_column_count, is_computed,
    is_covering, is_current_area, is_empty_layout, is_exposed, is_found_at, is_grid, is_in_cell,
    is_lerp, is_middle, is_on_top_at, is_placed_window, is_row_height, is_row_of, is_row_offset,
    is_slot, is_slot_center, missing, ExposeLayout, ExposedWindow, Item,
};
use crate::expose_laws::{comes_first, lemma_arrangement, reading_order_is_kept};
use crate::geometry::{is_far_corner, is_inside, Point, Rectangle, Size};
use crate::number::{
    is_ceiling, is_difference, is_number, is_product, is_quotient, is_root, is_sum, is_whole,
    Arithmetic, Number,
};
use crate::thumbnail::{degenerate, is_scaled};
use vstd::prelude::*;

verus! {

/// Where the middle of a window is shown, rightwards.
pub open spec fn middle_x<Id>(v: spec_fn(Number) -> real, window: ExposedWindow<Id>) -> real {
    v(window.target_pos.x) + v(window.tile_size.w) * v(window.target_scale) / 2real
}

/// Where the middle of a window is shown, downwards.
pub open spec fn middle_y<Id>(v: spec_fn(Number) -> real, window: ExposedWindow<Id>) -> real {
    v(window.target_pos.y) + v(window.tile_size.h) * v(window.target_scale) / 2real
}

/// The number of windows in a row of a grid.
pub open spec fn row_length(n: int, cols: int, row: int) -> int {
    if (row + 1) * cols <= n {
        cols
    } else {
        n - row * cols
    }
}

/// The cells and the gaps between them fill what the padding leaves.
proof fn lemma_cell_extent<A: Arithmetic>(
    a: &A,
    v: spec_fn(Number) -> real,
    view: Number,
    count: int,
    cell: Number,
)
    requires
        is_exact(a, v),
        is_cell_extent(a, view, count, cell),
        0 < count <= usize::MAX,
    ensures
        !cell.nan(),
        (v(cell) + 24real) * (count as real) == v(view) - 72real,
{
    let (available, k, less, gaps, rest) = choose|
        available: Number,
        k: Number,
        less: Number,
        gaps: Number,
        rest: Number,
    |
        #![trigger is_difference(a, view, Number { bits: 0x4058_0000_0000_0000 }, available), is_number(a, count, k), is_difference(a, k, Number { bits: 0x3ff0_0000_0000_0000 }, less), is_product(a, less, Number { bits: 0x4038_0000_0000_0000 }, gaps), is_difference(a, available, gaps, rest)]
        is_difference(a, view, Number { bits: 0x4058_0000_0000_0000 }, available) && is_number(
            a,
            count,
            k,
        ) && is_difference(a, k, Number { bits: 0x3ff0_0000_0000_0000 }, less) && is_product(
            a,
            less,
            Number { bits: 0x4038_0000_0000_0000 },
            gaps,
        ) && is_difference(a, available, gaps, rest) && is_quotient(a, rest, k, cell);
    let n = count as real;
    assert(v(k) == n);
    let c = v(cell);
    let w = v(view);
    assert(c * n == w - 96real - (n - 1real) * 24real);
    assert((c + 24real) * n == w - 72real) by (nonlinear_arith)
        requires
            c * n == w - 96real - (n - 1real) * 24real,
    ;
}

/// The middle of a cell.
proof fn lemma_slot_center<A: Arithmetic>(
    a: &A,
    v: spec_fn(Number) -> real,
    cell: Number,
    base: Number,
    index: int,
    at: Number,
)
    requires
        is_exact(a, v),
        is_slot_center(a, cell, base, index, at),
        0 <= index <= usize::MAX,
    ensures
        !at.nan(),
        v(at) == v(base) + (index as real) * (v(cell) + 24real) + v(cell) / 2real,
{
    let two = Number { bits: 0x4000_0000_0000_0000 };
    let gap = Number { bits: 0x4038_0000_0000_0000 };
    let (k, stride, shift, start, half) = choose|
        k: Number,
        stride: Number,
        shift: Number,
        start: Number,
        half: Number,
    |
        #![trigger is_number(a, index, k), is_sum(a, cell, gap, stride), is_product(a, k, stride, shift), is_sum(a, base, shift, start), is_quotient(a, cell, two, half)]
        is_number(a, index, k) && is_sum(a, cell, gap, stride) && is_product(a, k, stride, shift)
            && is_sum(a, base, shift, start) && is_quotient(a, cell, two, half) && is_sum(
            a,
            start,
            half,
            at,
        );
    assert(v(k) == index as real);
    assert(v(shift) == v(k) * v(stride));
    lemma_quotient(a, v, cell, two, half);
}

/// By how much a row is shifted.
proof fn lemma_row_offset<A: Arithmetic>(
    a: &A,
    v: spec_fn(Number) -> real,
    cell: Number,
    lacks: int,
    offset: Number,
)
    requires
        is_exact(a, v),
        is_row_offset(a, cell, lacks, offset),
        0 <= lacks <= usize::MAX,
    ensures
        v(offset) == (lacks as real) * (v(cell) + 24real) / 2real,
{
    if lacks > 0 {
        let two = Number { bits: 0x4000_0000_0000_0000 };
        let gap = Number { bits: 0x4038_0000_0000_0000 };
        let (k, stride, width) = choose|k: Number, stride: Number, width: Number|
            #![trigger is_number(a, lacks, k), is_sum(a, cell, gap, stride), is_product(a, k, stride, width)]
            is_number(a, lacks, k) && is_sum(a, cell, gap, stride) && is_product(
                a,
                k,
                stride,
                width,
            ) && is_quotient(a, width, two, offset);
        assert(v(k) == lacks as real);
        assert(v(width) == v(k) * v(stride));
        lemma_quotient(a, v, width, two, offset);
    } else {
        let s = v(cell) + 24real;
        assert((lacks as real) * s / 2real == 0real) by (nonlinear_arith)
            requires
                lacks == 0,
        ;
    }
}

/// Where a window is put so that its middle is at a place.
proof fn lemma_centered<A: Arithmetic>(
    a: &A,
    v: spec_fn(Number) -> real,
    center: Number,
    extent: Number,
    place: Number,
)
    requires
        is_exact(a, v),
        is_centered(a, center, extent, place),
    ensures
        v(place) + v(extent) / 2real == v(center),
{
    let two = Number { bits: 0x4000_0000_0000_0000 };
    let half = choose|half: Number| #[trigger]
        is_quotient(a, extent, two, half) && is_difference(a, center, half, place);
    lemma_quotient(a, v, extent, two, half);
}

/// The row and the column of an index.
proof fn lemma_row(n: int, cols: int, i: int)
    requires
        0 < cols,
        0 <= i < n,
    ensures
        is_grid(n, cols, (n - 1) / cols + 1),
        i == (i / cols) * cols + i % cols,
        0 <= i % cols < cols,
        0 <= i / cols < (n - 1) / cols + 1,
        row_length(n, cols, i / cols) == cols - missing(n, cols, (n - 1) / cols + 1, i / cols),
        0 <= missing(n, cols, (n - 1) / cols + 1, i / cols) < cols,
        (n - 1) / cols + 1 <= n,
{
    let rows = (n - 1) / cols + 1;
    let row = i / cols;
    vstd::arithmetic::div_mod::lemma_fundamental_div_mod(i, cols);
    vstd::arithmetic::div_mod::lemma_fundamental_div_mod(n - 1, cols);
    vstd::arithmetic::div_mod::lemma_mod_bound(i, cols);
    vstd::arithmetic::div_mod::lemma_mod_bound(n - 1, cols);
    vstd::arithmetic::div_mod::lemma_div_is_ordered(i, n - 1, cols);
    vstd::arithmetic::div_mod::lemma_div_is_ordered_by_denominator(n - 1, 1, cols);
    vstd::arithmetic::div_mod::lemma_div_pos_is_pos(i, cols);
    assert(cols * row == row * cols) by (nonlinear_arith);
    assert((rows - 1) * cols == cols * (rows - 1)) by (nonlinear_arith);
    assert(rows * cols == (rows - 1) * cols + cols) by (nonlinear_arith);
    assert((row + 1) * cols == row * cols + cols) by (nonlinear_arith);
    if row < rows - 1 {
        assert((row + 1) * cols <= (rows - 1) * cols) by (nonlinear_arith)
            requires
                row + 1 <= rows - 1,
                0 < cols,
        ;
    }
}

/// The cells of a grid are spread evenly over the view, a padding and gaps apart, and every row is
/// in the middle, a short one too.
///
/// Rightwards the middles of the windows in a row are one pitch apart. The pitches of a full row,
/// with the padding and without one gap, make up the width of the view. The row lies around the
/// middle of the view. The same holds downwards.
pub proof fn grid_is_spread_evenly<Id, A: Arithmetic>(
    a: &A,
    v: spec_fn(Number) -> real,
    items: Seq<Item<Id>>,
    view: Size,
    cols: int,
    layout: ExposeLayout<Id>,
    i: int,
)
    requires
        is_exact(a, v),
        0 < cols <= items.len(),
        is_arranged(a, items, view, cols, layout),
        0 <= i < layout.windows@.len(),
    ensures
        layout.windows@.len() == items.len(),
        layout.cols == cols,
        is_grid(items.len() as int, cols, layout.rows as int),
        ({
            let pitch = (v(view.w) - 72real) / (cols as real);
            let before = (2 * (i % cols) + 1 - row_length(items.len() as int, cols, i / cols))
                as real;
            middle_x(v, layout.windows@[i]) == v(view.w) / 2real + pitch * before / 2real
        }),
        ({
            let pitch = (v(view.h) - 72real) / ((layout.rows as int) as real);
            let before = (2 * (i / cols) + 1 - layout.rows) as real;
            middle_y(v, layout.windows@[i]) == v(view.h) / 2real + pitch * before / 2real
        }),
{
    let n = items.len() as int;
    let rows = (n - 1) / cols + 1;
    let r = lemma_arrangement(a, items, view, cols, layout);
    let window = layout.windows@[i];
    let item = r.sorted()[i].item;
    assert(is_in_cell(a, n, cols, rows, r.cell, r.room, i, item, window));
    let slot = choose|slot: Point| #[trigger]
        is_slot(a, n, cols, rows, r.cell, i / cols, i % cols, slot)
            && is_exposed(a, r.room, slot, item, window);
    lemma_row(n, cols, i);
    let row = i / cols;
    let col = i % cols;
    let lacks = missing(n, cols, rows, row);
    let padding = Number { bits: 0x4048_0000_0000_0000 };
    lemma_cell_extent(a, v, view.w, cols, r.cell.w);
    lemma_cell_extent(a, v, view.h, rows, r.cell.h);
    let (offset, base) = choose|offset: Number, base: Number|
        #![trigger is_row_offset(a, r.cell.w, lacks, offset), is_sum(a, padding, offset, base)]
        is_row_offset(a, r.cell.w, lacks, offset) && is_sum(a, padding, offset, base)
            && is_slot_center(a, r.cell.w, base, col, slot.x);
    lemma_row_offset(a, v, r.cell.w, lacks, offset);
    lemma_slot_center(a, v, r.cell.w, base, col, slot.x);
    lemma_slot_center(a, v, r.cell.h, padding, row, slot.y);
    let (w, h) = choose|w: Number, h: Number|
        #![trigger is_product(a, item.2.w, window.target_scale, w), is_product(a, item.2.h, window.target_scale, h)]
        is_product(a, item.2.w, window.target_scale, w) && is_product(
            a,
            item.2.h,
            window.target_scale,
            h,
        ) && is_centered(a, slot.x, w, window.target_pos.x) && is_centered(
            a,
            slot.y,
            h,
            window.target_pos.y,
        );
    lemma_centered(a, v, slot.x, w, window.target_pos.x);
    lemma_centered(a, v, slot.y, h, window.target_pos.y);
    assert(middle_x(v, window) == v(slot.x));
    assert(middle_y(v, window) == v(slot.y));
    lemma_spread(
        v(view.w),
        v(r.cell.w),
        cols as real,
        lacks as real,
        col as real,
        v(slot.x),
    );
    lemma_spread(v(view.h), v(r.cell.h), rows as real, 0real, row as real, v(slot.y));
    assert((2 * col + 1 - row_length(n, cols, row)) as real == 2real * (col as real) + 1real
        + lacks as real - cols as real);
    assert((2 * row + 1 - rows) as real == 2real * (row as real) + 1real + 0real - rows as real);
}

proof fn lemma_spread(view: real, cell: real, count: real, lacks: real, index: real, at: real)
    requires
        count > 0real,
        (cell + 24real) * count == view - 72real,
        at == 48real + lacks * (cell + 24real) / 2real + index * (cell + 24real) + cell / 2real,
    ensures
        at == view / 2real + ((view - 72real) / count) * (2real * index + 1real + lacks - count)
            / 2real,
{
    let p = cell + 24real;
    assert((view - 72real) / count == p) by (nonlinear_arith)
        requires
            p * count == view - 72real,
            count > 0real,
    ;
    assert(p * (2real * index + 1real + lacks - count) == 2real * (index * p) + p + lacks * p - p
        * count) by (nonlinear_arith);
}

/// Every row is in the middle of the view, however many windows it lacks: what is free before its
/// first window's cell is free behind its last one's.
pub proof fn rows_are_centered<Id, A: Arithmetic>(
    a: &A,
    v: spec_fn(Number) -> real,
    items: Seq<Item<Id>>,
    view: Size,
    cols: int,
    layout: ExposeLayout<Id>,
    first: int,
    last: int,
)
    requires
        is_exact(a, v),
        0 < cols <= items.len(),
        is_arranged(a, items, view, cols, layout),
        0 <= first <= last < layout.windows@.len(),
        first % cols == 0,
        first / cols == last / cols,
        last + 1 == layout.windows@.len() || (last + 1) % cols == 0,
    ensures
        middle_x(v, layout.windows@[first]) == v(view.w) - middle_x(v, layout.windows@[last]),
{
    let n = items.len() as int;
    grid_is_spread_evenly(a, v, items, view, cols, layout, first);
    grid_is_spread_evenly(a, v, items, view, cols, layout, last);
    lemma_row(n, cols, first);
    lemma_row(n, cols, last);
    let row = first / cols;
    let m = row_length(n, cols, row);
    assert((row + 1) * cols == row * cols + cols) by (nonlinear_arith);
    assert(last % cols == m - 1) by {
        if last % cols != cols - 1 {
            vstd::arithmetic::div_mod::lemma_fundamental_div_mod_converse(
                last + 1,
                cols,
                row,
                last % cols + 1,
            );
            assert(last + 1 == n);
        }
    }
    let pitch = (v(view.w) - 72real) / (cols as real);
    let before = (2 * (first % cols) + 1 - m) as real;
    let behind = (2 * (last % cols) + 1 - m) as real;
    assert(before == -behind);
    assert(pitch * before / 2real == -(pitch * behind / 2real)) by (nonlinear_arith)
        requires
            before == -behind,
    ;
}

/// The room of a window along one side, where `count` cells share an extent of the view.
pub open spec fn room_of(view: real, count: int, single: bool) -> real {
    if single {
        view * 3real / 4real
    } else {
        (view - 72real) / (count as real) - 24real
    }
}

/// A window is shown as large as its room allows, but not enlarged and not below the minimum
/// scale. Its room is its cell, or three quarters of the view where it is the only one.
pub proof fn windows_are_scaled_to_their_room<Id, A: Arithmetic>(
    a: &A,
    v: spec_fn(Number) -> real,
    items: Seq<Item<Id>>,
    view: Size,
    cols: int,
    layout: ExposeLayout<Id>,
    i: int,
)
    requires
        is_exact(a, v),
        0 < cols <= items.len(),
        is_arranged(a, items, view, cols, layout),
        0 <= i < layout.windows@.len(),
        0real < v(layout.windows@[i].tile_size.w),
        0real < v(layout.windows@[i].tile_size.h),
    ensures
        ({
            let window = layout.windows@[i];
            let least = v(Number { bits: 0x3fc3_3333_3333_3333 });
            let scale = v(window.target_scale);
            let w = v(window.tile_size.w) * scale;
            let h = v(window.tile_size.h) * scale;
            let room_w = room_of(v(view.w), cols, items.len() == 1);
            let room_h = room_of(v(view.h), layout.rows as int, items.len() == 1);
            &&& least <= scale <= 1real
            &&& scale > least ==> w <= room_w && h <= room_h
            &&& scale < 1real ==> room_w <= w || room_h <= h
        }),
{
    let n = items.len() as int;
    let rows = (n - 1) / cols + 1;
    let r = lemma_arrangement(a, items, view, cols, layout);
    let window = layout.windows@[i];
    let item = r.sorted()[i].item;
    assert(is_in_cell(a, n, cols, rows, r.cell, r.room, i, item, window));
    let tile = window.tile_size;
    lemma_row(n, cols, i);
    lemma_cell_extent(a, v, view.w, cols, r.cell.w);
    lemma_cell_extent(a, v, view.h, rows, r.cell.h);
    lemma_divided(v(r.cell.w) + 24real, cols as real, v(view.w) - 72real);
    lemma_divided(v(r.cell.h) + 24real, rows as real, v(view.h) - 72real);
    if n == 1 {
        assert(is_scaled(a, view, Number { bits: 0x3fe8_0000_0000_0000 }, r.room));
        let (p, q) = (v(view.w), v(view.h));
        assert(p * (3real / 4real) == p * 3real / 4real) by (nonlinear_arith);
        assert(q * (3real / 4real) == q * 3real / 4real) by (nonlinear_arith);
    }
    assert(v(r.room.w) == room_of(v(view.w), cols, n == 1));
    assert(v(r.room.h) == room_of(v(view.h), rows, n == 1));
    let (x, y) = choose|x: Number, y: Number|
        #![trigger is_quotient(a, r.room.w, tile.w, x), is_quotient(a, r.room.h, tile.h, y)]
        is_quotient(a, r.room.w, tile.w, x) && is_quotient(a, r.room.h, tile.h, y)
            && window.target_scale == bounded_scale(x, y);
    let one = Number { bits: 0x3ff0_0000_0000_0000 };
    let least = Number { bits: 0x3fc3_3333_3333_3333 };
    assert(least.le(one));
    let scale = window.target_scale;
    assert(v(scale) > v(least) ==> v(scale) <= v(x) && v(scale) <= v(y));
    assert(v(scale) < 1real ==> v(x) <= v(scale) || v(y) <= v(scale));
    lemma_scaled(v(tile.w), v(x), v(scale), v(r.room.w));
    lemma_scaled(v(tile.h), v(y), v(scale), v(r.room.h));
}

proof fn lemma_divided(p: real, n: real, q: real)
    requires
        p * n == q,
        n > 0real,
    ensures
        q / n == p,
{
    assert(q / n == p) by (nonlinear_arith)
        requires
            p * n == q,
            n > 0real,
    ;
}

proof fn lemma_scaled(side: real, x: real, scale: real, room: real)
    requires
        0real < side,
        x * side == room,
    ensures
        scale <= x ==> side * scale <= room,
        x <= scale ==> room <= side * scale,
{
    if scale <= x {
        assert(side * scale <= room) by (nonlinear_arith)
            requires
                0real < side,
                x * side == room,
                scale <= x,
        ;
    }
    if x <= scale {
        assert(room <= side * scale) by (nonlinear_arith)
            requires
                0real < side,
                x * side == room,
                x <= scale,
        ;
    }
}

/// There are windows to see exactly where padding and gaps leave room for them.
pub proof fn layout_is_empty_without_room<Id, A: Arithmetic>(
    a: &A,
    v: spec_fn(Number) -> real,
    items: Seq<Item<Id>>,
    view: Size,
    cols: int,
    layout: ExposeLayout<Id>,
)
    requires
        is_exact(a, v),
        0 < cols <= items.len() <= usize::MAX,
        is_arranged(a, items, view, cols, layout),
    ensures
        ({
            let rows = (items.len() - 1) / cols + 1;
            layout.windows@.len() == items.len() <==> room_of(v(view.w), cols, false) > 0real
                && room_of(v(view.h), rows, false) > 0real
        }),
        layout.windows@.len() == items.len() || is_empty_layout(layout),
{
    let n = items.len() as int;
    let rows = (n - 1) / cols + 1;
    lemma_row(n, cols, 0);
    let cell = choose|cell: Size| #[trigger]
        is_cell(a, view, cols, rows, cell) && (is_empty_layout(layout) <==> degenerate(cell)) && (
        is_empty_layout(layout) || layout.windows@.len() == n);
    assert(exists|cell: Size| #[trigger]
        is_cell(a, view, cols, rows, cell) && (is_empty_layout(layout) <==> degenerate(cell)) && (
        is_empty_layout(layout) || layout.windows@.len() == n)) by {
        if !is_empty_layout(layout) {
            let r = lemma_arrangement(a, items, view, cols, layout);
            assert(is_cell(a, view, cols, rows, r.cell));
        } else {
            let cell = choose|cell: Size| #[trigger]
                is_cell(a, view, cols, rows, cell) && (degenerate(cell) || layout.cols == cols);
            assert(is_cell(a, view, cols, rows, cell));
        }
    }
    lemma_cell_extent(a, v, view.w, cols, cell.w);
    lemma_cell_extent(a, v, view.h, rows, cell.h);
    lemma_divided(v(cell.w) + 24real, cols as real, v(view.w) - 72real);
    lemma_divided(v(cell.h) + 24real, rows as real, v(view.h) - 72real);
    let zero = Number { bits: 0 };
    assert(cell.w.le(zero) <==> v(cell.w) <= 0real);
    assert(cell.h.le(zero) <==> v(cell.h) <= 0real);
}

/// There are as many columns as it takes for the cells to be about as wide as high: the least
/// number of them whose square, in the proportions of the view, is not below the number of windows,
/// but no more than windows.
pub proof fn columns_match_the_proportions<A: Arithmetic>(
    a: &A,
    v: spec_fn(Number) -> real,
    n: int,
    view: Size,
    cols: int,
)
    requires
        is_exact(a, v),
        has_exact_roots(a, v),
        1 <= n <= i64::MAX,
        0real < v(view.w),
        0real < v(view.h),
        is_column_count(a, n, view, cols),
    ensures
        1 <= cols <= n,
        n == 1 || ((cols - 1) as real) * ((cols - 1) as real) * v(view.h) < (n as real) * v(view.w),
        cols == n || (n as real) * v(view.w) <= (cols as real) * (cols as real) * v(view.h),
{
    if n > 1 {
        let (aspect, count, area, side, top, c) = choose|
            aspect: Number,
            count: Number,
            area: Number,
            side: Number,
            top: Number,
            c: i64,
        |
            #![trigger is_quotient(a, view.w, view.h, aspect), is_number(a, n, count), is_product(a, count, aspect, area), is_root(a, area, side), is_ceiling(a, side, top), is_whole(a, top, c)]
            is_quotient(a, view.w, view.h, aspect) && is_number(a, n, count) && is_product(
                a,
                count,
                aspect,
                area,
            ) && is_root(a, area, side) && is_ceiling(a, side, top) && is_whole(a, top, c) && cols
                == if c < 0 {
                0
            } else if c < n {
                c as int
            } else {
                n
            };
        assert(v(count) == n as real);
        let (q, k) = (v(aspect), n as real);
        lemma_positive(v(view.w), v(view.h), k, q);
        assert(v(area) == k * q);
        lemma_columns(k, q, v(side), v(top));
        assert(is_floor(v(top), c));
        lemma_count(n, v(side), v(top), c, cols);
        lemma_squares(v(view.w), v(view.h), k, q, v(side), (cols - 1) as real);
        lemma_squares(v(view.w), v(view.h), k, q, v(side), cols as real);
    }
}

proof fn lemma_positive(w: real, h: real, k: real, q: real)
    requires
        0real < w,
        0real < h,
        0real < k,
        q * h == w,
    ensures
        0real < q,
        0real < k * q,
{
    assert(0real < q) by (nonlinear_arith)
        requires
            q * h == w,
            0real < w,
            0real < h,
    ;
    assert(0real < k * q) by (nonlinear_arith)
        requires
            0real < k,
            0real < q,
    ;
}

proof fn lemma_columns(k: real, q: real, side: real, top: real)
    requires
        0real < k * q,
        side * side == k * q,
        0real <= side <= top,
        top.floor() as real == top,
    ensures
        0real < side,
        1real <= top,
{
    assert(0real < side) by (nonlinear_arith)
        requires
            0real <= side,
            0real < side * side,
    ;
}

proof fn lemma_count(n: int, side: real, top: real, c: i64, cols: int)
    requires
        1 <= n <= i64::MAX,
        0real < side <= top < side + 1real,
        1real <= top,
        top.floor() as real == top,
        is_floor(top, c),
        cols == if c < 0 {
            0
        } else if c < n {
            c as int
        } else {
            n
        },
    ensures
        1 <= cols <= n,
        side > (cols - 1) as real,
        cols == n || side <= cols as real,
{
    let t = top.floor();
    assert(1 <= t);
    assert(cols == if t < n {
        t
    } else {
        n
    });
}

proof fn lemma_squares(w: real, h: real, k: real, q: real, side: real, m: real)
    requires
        0real < h,
        q * h == w,
        0real < side,
        side * side == k * q,
        0real <= m,
    ensures
        m < side ==> m * m * h < k * w,
        side <= m ==> k * w <= m * m * h,
{
    assert(side * side * h == k * w) by (nonlinear_arith)
        requires
            side * side == k * q,
            q * h == w,
    ;
    if m < side {
        assert(m * m < side * side) by (nonlinear_arith)
            requires
                0real <= m < side,
        ;
        assert(m * m * h < side * side * h) by (nonlinear_arith)
            requires
                m * m < side * side,
                0real < h,
        ;
    }
    if side <= m {
        assert(side * side <= m * m) by (nonlinear_arith)
            requires
                0real < side <= m,
        ;
        assert(side * side * h <= m * m * h) by (nonlinear_arith)
            requires
                side * side <= m * m,
                0real < h,
        ;
    }
}

/// In which of as many equal stripes of the view the middle of a window was.
pub open spec fn stripe<Id>(
    v: spec_fn(Number) -> real,
    window: ExposedWindow<Id>,
    view: Size,
    rows: int,
) -> int {
    ((v(window.original_pos.y) + v(window.tile_size.h) / 2real) * (rows as real) / v(
        view.h,
    )).floor()
}

/// Windows keep their places to each other: with the view cut into as many stripes as the grid has
/// rows, a window whose middle was in a higher stripe comes first, and in a stripe the one whose
/// middle was further left.
pub proof fn windows_keep_their_places<Id, A: Arithmetic>(
    a: &A,
    v: spec_fn(Number) -> real,
    items: Seq<Item<Id>>,
    view: Size,
    cols: int,
    layout: ExposeLayout<Id>,
    i: int,
    j: int,
)
    requires
        is_exact(a, v),
        0 < cols <= items.len(),
        0real < v(view.h),
        forall|k: int|
            0 <= k < items.len() ==> 0real <= v((#[trigger] items[k]).1.y) + v(items[k].2.h)
                / 2real,
        forall|k: int|
            0 <= k < layout.windows@.len() ==> stripe(
                v,
                #[trigger] layout.windows@[k],
                view,
                layout.rows as int,
            ) < i64::MAX,
        is_arranged(a, items, view, cols, layout),
        0 <= i < j < layout.windows@.len(),
    ensures
        ({
            let rows = layout.rows as int;
            let p = layout.windows@[i];
            let q = layout.windows@[j];
            stripe(v, p, view, rows) < stripe(v, q, view, rows) || (stripe(v, p, view, rows)
                == stripe(v, q, view, rows) && v(p.original_pos.x) + v(p.tile_size.w) / 2real
                <= v(q.original_pos.x) + v(q.tile_size.w) / 2real)
        }),
{
    let n = items.len() as int;
    let rows = (n - 1) / cols + 1;
    let r = lemma_arrangement(a, items, view, cols, layout);
    let windows = layout.windows@;
    let sorted = r.sorted();
    assert forall|k: int| 0 <= k < r.placed.len() implies !(#[trigger] r.placed[k]).x.nan() by {
        assert(is_placed_window(a, items[k], r.height, r.placed[k]));
        lemma_middle(a, v, items[k].1.x, items[k].2.w, r.placed[k].x);
    }
    reading_order_is_kept(r.placed, r.order);
    assert(comes_first(r.placed, r.order[i], r.order[j]));
    lemma_row(n, cols, i);
    assert forall|k: int| 0 <= k < windows.len() implies (#[trigger] sorted[k]).row == stripe(
        v,
        windows[k],
        view,
        rows,
    ) && v(sorted[k].x) == v(windows[k].original_pos.x) + v(windows[k].tile_size.w) / 2real
        && !sorted[k].x.nan() by {
        let item = sorted[k].item;
        assert(is_in_cell(a, n, cols, rows, r.cell, r.room, k, item, windows[k]));
        assert(sorted[k] == r.placed[r.order[k]]);
        assert(is_placed_window(a, items[r.order[k]], r.height, r.placed[r.order[k]]));
        lemma_middle(a, v, item.1.x, item.2.w, sorted[k].x);
        let y = choose|y: Number| #[trigger]
            is_middle(a, item.1.y, item.2.h, y) && is_row_of(a, y, r.height, sorted[k].row);
        lemma_middle(a, v, item.1.y, item.2.h, y);
        lemma_stripe(a, v, view, rows, r.height, y, sorted[k].row);
        assert(stripe(v, windows[k], view, rows) == (v(y) * (rows as real) / v(view.h)).floor());
        assert(stripe(v, windows[k], view, layout.rows as int) < i64::MAX);
    }
    assert(sorted[i] == r.placed[r.order[i]]);
    assert(sorted[j] == r.placed[r.order[j]]);
    assert(sorted[i].row == sorted[j].row ==> sorted[i].x.le(sorted[j].x));
}

proof fn lemma_middle<A: Arithmetic>(
    a: &A,
    v: spec_fn(Number) -> real,
    place: Number,
    extent: Number,
    middle: Number,
)
    requires
        is_exact(a, v),
        is_middle(a, place, extent, middle),
    ensures
        !middle.nan(),
        v(middle) == v(place) + v(extent) / 2real,
{
    let two = Number { bits: 0x4000_0000_0000_0000 };
    let half = choose|half: Number| #[trigger]
        is_quotient(a, extent, two, half) && is_sum(a, place, half, middle);
    lemma_quotient(a, v, extent, two, half);
}

proof fn lemma_stripe<A: Arithmetic>(
    a: &A,
    v: spec_fn(Number) -> real,
    view: Size,
    rows: int,
    height: Number,
    y: Number,
    row: i64,
)
    requires
        is_exact(a, v),
        0 < rows <= usize::MAX,
        0real < v(view.h),
        0real <= v(y),
        is_row_height(a, view, rows, height),
        is_row_of(a, y, height, row),
        (v(y) * (rows as real) / v(view.h)).floor() < i64::MAX,
    ensures
        row == (v(y) * (rows as real) / v(view.h)).floor(),
{
    let (h, k, p, t) = (v(view.h), rows as real, v(y), v(height));
    if rows > 1 {
        let count = choose|count: Number| #[trigger]
            is_number(a, rows, count) && is_quotient(a, view.h, count, height);
        assert(v(count) == k);
    } else {
        assert(t * k == h) by (nonlinear_arith)
            requires
                t == h,
                k == 1real,
        ;
    }
    assert(t * k == h);
    assert(t > 0real) by (nonlinear_arith)
        requires
            t * k == h,
            0real < h,
            0real < k,
    ;
    let q = choose|q: Number| #[trigger] is_quotient(a, y, height, q) && is_whole(a, q, row);
    let s = v(q);
    assert(s == p * k / h) by (nonlinear_arith)
        requires
            s * t == p,
            t * k == h,
            0real < h,
    {
        assert(s * h == p * k) by (nonlinear_arith)
            requires
                s * t == p,
                t * k == h,
        ;
    }
    assert(0real <= s) by (nonlinear_arith)
        requires
            s * t == p,
            0real <= p,
            0real < t,
    ;
    assert(is_floor(s, row));
}

/// What a window covers while the expose view is open to a share: on the straight way from where
/// it was, at full size, to where it is shown. The upper and left borders belong to it.
pub open spec fn covers<Id>(
    v: spec_fn(Number) -> real,
    window: ExposedWindow<Id>,
    share: real,
    x: real,
    y: real,
) -> bool {
    let left = (1real - share) * v(window.original_pos.x) + share * v(window.target_pos.x);
    let top = (1real - share) * v(window.original_pos.y) + share * v(window.target_pos.y);
    let scale = (1real - share) + share * v(window.target_scale);
    &&& left <= x < left + v(window.tile_size.w) * scale
    &&& top <= y < top + v(window.tile_size.h) * scale
}

/// Whether a window covers a point is told right.
pub proof fn covering_is_told_right<Id, A: Arithmetic>(
    a: &A,
    v: spec_fn(Number) -> real,
    window: ExposedWindow<Id>,
    progress: Number,
    point: Point,
    told: bool,
)
    requires
        is_exact(a, v),
        !point.x.nan(),
        !point.y.nan(),
        is_covering(a, window, progress, point, told),
    ensures
        told == covers(v, window, v(progress), v(point.x), v(point.y)),
{
    let area = choose|area: Rectangle| #[trigger]
        is_current_area(a, window, progress, area) && is_inside(a, area, point, told);
    let far = choose|far: Point| #[trigger]
        is_far_corner(a, area, far) && told == point.within(area.loc, far);
    let one = Number { bits: 0x3ff0_0000_0000_0000 };
    let scale = choose|scale: Number| #[trigger]
        is_lerp(a, one, window.target_scale, progress, scale) && is_product(
            a,
            window.tile_size.w,
            scale,
            area.size.w,
        ) && is_product(a, window.tile_size.h, scale, area.size.h);
    interpolation_is_linear(a, v, one, window.target_scale, progress, scale);
    interpolation_is_linear(
        a,
        v,
        window.original_pos.x,
        window.target_pos.x,
        progress,
        area.loc.x,
    );
    interpolation_is_linear(
        a,
        v,
        window.original_pos.y,
        window.target_pos.y,
        progress,
        area.loc.y,
    );
    let share = v(progress);
    assert((1real - share) * 1real == 1real - share) by (nonlinear_arith);
    assert(area.loc.x.le(point.x) <==> v(area.loc.x) <= v(point.x));
    assert(area.loc.y.le(point.y) <==> v(area.loc.y) <= v(point.y));
    assert(point.x.lt(far.x) <==> v(point.x) < v(far.x));
    assert(point.y.lt(far.y) <==> v(point.y) < v(far.y));
}

/// Interpolation goes from one end to the other on a straight line.
pub proof fn interpolation_is_linear<A: Arithmetic>(
    a: &A,
    v: spec_fn(Number) -> real,
    from: Number,
    to: Number,
    t: Number,
    r: Number,
)
    requires
        is_exact(a, v),
        is_lerp(a, from, to, t, r),
    ensures
        !r.nan(),
        v(r) == (1real - v(t)) * v(from) + v(t) * v(to),
{
    let (way, part) = choose|way: Number, part: Number|
        #![trigger is_difference(a, to, from, way), is_product(a, way, t, part)]
        is_difference(a, to, from, way) && is_product(a, way, t, part) && is_sum(a, from, part, r);
    let (x, y, s) = (v(from), v(to), v(t));
    assert(v(part) == v(way) * v(t));
    assert(x + (y - x) * s == (1real - s) * x + s * y) by (nonlinear_arith);
}

/// The window that is found covers the point, and none that is drawn over it does.
pub proof fn found_window_covers_the_point<Id, A: Arithmetic>(
    a: &A,
    v: spec_fn(Number) -> real,
    windows: Seq<ExposedWindow<Id>>,
    point: Point,
    progress: Number,
    i: int,
)
    requires
        is_exact(a, v),
        !point.x.nan(),
        !point.y.nan(),
        is_on_top_at(a, windows, point, progress, i),
    ensures
        0 <= i < windows.len(),
        covers(v, windows[i], v(progress), v(point.x), v(point.y)),
        forall|j: int|
            i < j < windows.len() ==> !covers(
                v,
                #[trigger] windows[j],
                v(progress),
                v(point.x),
                v(point.y),
            ),
{
    covering_is_told_right(a, v, windows[i], progress, point, true);
    assert forall|j: int| i < j < windows.len() implies !covers(
        v,
        #[trigger] windows[j],
        v(progress),
        v(point.x),
        v(point.y),
    ) by {
        covering_is_told_right(a, v, windows[j], progress, point, false);
    }
}

/// A point finds the window that covers it, the one that is drawn last where several do, and nothing
/// where none does.
pub proof fn points_find_what_covers_them<Id, A: Arithmetic>(
    a: &A,
    v: spec_fn(Number) -> real,
    windows: Seq<ExposedWindow<Id>>,
    point: Point,
    progress: Number,
    found: Option<Id>,
)
    requires
        is_exact(a, v),
        !point.x.nan(),
        !point.y.nan(),
        is_found_at(a, windows, point, progress, found),
    ensures
        found is None ==> forall|j: int|
            0 <= j < windows.len() ==> !covers(
                v,
                #[trigger] windows[j],
                v(progress),
                v(point.x),
                v(point.y),
            ),
        found matches Some(id) ==> exists|i: int|
            0 <= i < windows.len() && windows[i].id == id && covers(
                v,
                #[trigger] windows[i],
                v(progress),
                v(point.x),
                v(point.y),
            ) && forall|j: int|
                i < j < windows.len() ==> !covers(
                    v,
                    #[trigger] windows[j],
                    v(progress),
                    v(point.x),
                    v(point.y),
                ),
{
    if let Some(id) = found {
        let i = choose|i: int| #[trigger]
            is_on_top_at(a, windows, point, progress, i) && id == windows[i].id;
        found_window_covers_the_point(a, v, windows, point, progress, i);
        assert(covers(v, windows[i], v(progress), v(point.x), v(point.y)));
    } else {
        assert forall|j: int| 0 <= j < windows.len() implies !covers(
            v,
            #[trigger] windows[j],
            v(progress),
            v(point.x),
            v(point.y),
        ) by {
            covering_is_told_right(a, v, windows[j], progress, point, false);
        }
    }
}

/// The expose view of a view with an area shows all windows, or none where padding and gaps leave
/// no room, in a full grid with the columns that the proportions ask for.
pub proof fn all_windows_are_shown_in_a_grid<Id, A: Arithmetic>(
    a: &A,
    v: spec_fn(Number) -> real,
    items: Seq<Item<Id>>,
    view: Size,
    layout: Option<ExposeLayout<Id>>,
)
    requires
        is_exact(a, v),
        has_exact_roots(a, v),
        items.len() <= i64::MAX,
        items.len() <= usize::MAX,
        0real < v(view.w),
        0real < v(view.h),
        is_computed(a, items, view, layout),
    ensures
        layout is Some,
        layout->0.windows@.len() == items.len() || layout->0.windows@.len() == 0,
        ({
            let n = items.len() as int;
            let shown = layout->0;
            let cols = shown.cols as int;
            shown.windows@.len() > 0 ==> {
                &&& is_grid(n, cols, shown.rows as int)
                &&& n == 1 || ((cols - 1) as real) * ((cols - 1) as real) * v(view.h) < (n as real)
                    * v(view.w)
                &&& cols == n || (n as real) * v(view.w) <= (cols as real) * (cols as real) * v(
                    view.h,
                )
                &&& is_arranged(a, items, view, cols, shown)
            }
        }),
{
    let n = items.len() as int;
    if n > 0 {
        let cols = choose|cols: int| #[trigger]
            is_column_count(a, n, view, cols) && match layout {
                Some(layout) => 0 < cols && is_arranged(a, items, view, cols, layout),
                None => cols == 0,
            };
        columns_match_the_proportions(a, v, n, view, cols);
        layout_is_empty_without_room(a, v, items, view, cols, layout->0);
        if layout->0.windows@.len() > 0 {
            grid_is_spread_evenly(a, v, items, view, cols, layout->0, 0);
        }
    }
}

} // verus!
