//! What holds of the expose view.
use crate::expose::{
    bounded_scale, height, is_arranged, is_cell, is_empty_layout, is_filled, is_grid, is_in_cell,
    is_index_of, is_middle, is_navigated, is_placed, is_placed_window, is_reading_order, is_room,
    is_row_height, lemma_cell, neighbour, reading_order, ExposeDirection, ExposeLayout,
    ExposedWindow, Item, MIN_SCALE, Placed, SINGLE_FRACTION,
};
use crate::geometry::Size;
use crate::number::{is_quotient, stays_within, Arithmetic, Number};
use crate::sorting::{is_ordering, is_permutation, is_sorted_from, is_sorting, picked, precedes};
use crate::thumbnail::{degenerate, is_scaled, one};
use vstd::prelude::*;
use vstd::std_specs::cmp::PartialEqSpec;

verus! {

/// The direction back.
pub open spec fn opposite(direction: ExposeDirection) -> ExposeDirection {
    match direction {
        ExposeDirection::Up => ExposeDirection::Down,
        ExposeDirection::Down => ExposeDirection::Up,
        ExposeDirection::Left => ExposeDirection::Right,
        ExposeDirection::Right => ExposeDirection::Left,
    }
}

/// A step round a circle of `n` places, and back.
proof fn lemma_round_trip(i: int, n: int)
    requires
        0 <= i < n,
    ensures
        ((i + 1) % n + n - 1) % n == i,
        ((i + n - 1) % n + 1) % n == i,
        0 <= (i + 1) % n < n,
        0 <= (i + n - 1) % n < n,
{
    if i + 1 < n {
        vstd::arithmetic::div_mod::lemma_small_mod((i + 1) as nat, n as nat);
        vstd::arithmetic::div_mod::lemma_mod_add_multiples_vanish(i, n);
    } else {
        vstd::arithmetic::div_mod::lemma_mod_self_0(n);
        vstd::arithmetic::div_mod::lemma_small_mod((n - 1) as nat, n as nat);
    }
    vstd::arithmetic::div_mod::lemma_small_mod(i as nat, n as nat);
    if i > 0 {
        vstd::arithmetic::div_mod::lemma_mod_add_multiples_vanish(i - 1, n);
        vstd::arithmetic::div_mod::lemma_small_mod((i - 1) as nat, n as nat);
    } else {
        vstd::arithmetic::div_mod::lemma_small_mod((n - 1) as nat, n as nat);
        vstd::arithmetic::div_mod::lemma_mod_self_0(n);
    }
}

/// A step leads to a window, and the opposite step leads back.
pub proof fn steps_are_undone(
    n: int,
    cols: int,
    rows: int,
    selected: int,
    direction: ExposeDirection,
)
    requires
        is_grid(n, cols, rows),
        0 <= selected < n,
    ensures
        0 <= neighbour(n, cols, rows, selected, direction) < n,
        neighbour(
            n,
            cols,
            rows,
            neighbour(n, cols, rows, selected, direction),
            opposite(direction),
        ) == selected,
{
    lemma_cell(n, cols, rows, selected);
    let row = selected / cols;
    let col = selected % cols;
    let h = height(n, cols, rows, col);
    lemma_round_trip(selected, n);
    lemma_round_trip(row, h);
    let next = neighbour(n, cols, rows, selected, direction);
    match direction {
        ExposeDirection::Up => {
            let t = (row + h - 1) % h;
            assert(0 <= t * cols);
            vstd::arithmetic::div_mod::lemma_fundamental_div_mod_converse(next, cols, t, col);
        },
        ExposeDirection::Down => {
            let t = (row + 1) % h;
            assert(0 <= t * cols);
            vstd::arithmetic::div_mod::lemma_fundamental_div_mod_converse(next, cols, t, col);
        },
        _ => {},
    }
}

/// Up and down keep the column.
pub proof fn vertical_steps_keep_the_column(n: int, cols: int, rows: int, selected: int)
    requires
        is_grid(n, cols, rows),
        0 <= selected < n,
    ensures
        neighbour(n, cols, rows, selected, ExposeDirection::Up) % cols == selected % cols,
        neighbour(n, cols, rows, selected, ExposeDirection::Down) % cols == selected % cols,
{
    lemma_cell(n, cols, rows, selected);
    let row = selected / cols;
    let col = selected % cols;
    let h = height(n, cols, rows, col);
    lemma_round_trip(row, h);
    let up = (row + h - 1) % h;
    let down = (row + 1) % h;
    assert(0 <= up * cols);
    assert(0 <= down * cols);
    vstd::arithmetic::div_mod::lemma_fundamental_div_mod_converse(
        up * cols + col,
        cols,
        up,
        col,
    );
    vstd::arithmetic::div_mod::lemma_fundamental_div_mod_converse(
        down * cols + col,
        cols,
        down,
        col,
    );
}

/// Away from the edges a step goes to the cell beside, above or below.
pub proof fn inner_steps_are_adjacent(n: int, cols: int, rows: int, selected: int)
    requires
        is_grid(n, cols, rows),
        0 <= selected < n,
    ensures
        selected > 0 ==> neighbour(n, cols, rows, selected, ExposeDirection::Left) == selected - 1,
        selected + 1 < n ==> neighbour(n, cols, rows, selected, ExposeDirection::Right) == selected
            + 1,
        selected >= cols ==> neighbour(n, cols, rows, selected, ExposeDirection::Up) == selected
            - cols,
        selected + cols < n ==> neighbour(n, cols, rows, selected, ExposeDirection::Down)
            == selected + cols,
{
    lemma_cell(n, cols, rows, selected);
    let row = selected / cols;
    let col = selected % cols;
    let h = height(n, cols, rows, col);
    lemma_round_trip(selected, n);
    if selected > 0 {
        vstd::arithmetic::div_mod::lemma_mod_add_multiples_vanish(selected - 1, n);
        vstd::arithmetic::div_mod::lemma_small_mod((selected - 1) as nat, n as nat);
    }
    if selected + 1 < n {
        vstd::arithmetic::div_mod::lemma_small_mod((selected + 1) as nat, n as nat);
    }
    if selected >= cols {
        assert(row > 0) by (nonlinear_arith)
            requires
                row * cols + col >= cols,
                0 <= col < cols,
        ;
        vstd::arithmetic::div_mod::lemma_mod_add_multiples_vanish(row - 1, h);
        vstd::arithmetic::div_mod::lemma_small_mod((row - 1) as nat, h as nat);
        assert((row - 1) * cols == row * cols - cols) by (nonlinear_arith);
    }
    if selected + cols < n {
        lemma_cell(n, cols, rows, selected + cols);
        assert((row + 1) * cols == row * cols + cols) by (nonlinear_arith);
        vstd::arithmetic::div_mod::lemma_fundamental_div_mod_converse(
            selected + cols,
            cols,
            row + 1,
            col,
        );
        vstd::arithmetic::div_mod::lemma_small_mod((row + 1) as nat, h as nat);
    }
}

/// A thumbnail is never enlarged and never smaller than the minimum.
pub proof fn scale_is_bounded(x: Number, y: Number)
    ensures
        (Number { bits: MIN_SCALE }).le(bounded_scale(x, y)),
        bounded_scale(x, y).le(one()),
{
}

/// What an arrangement was made from.
pub ghost struct Arrangement<Id> {
    /// The size of a cell.
    pub cell: Size,
    /// The room that a window is scaled to.
    pub room: Size,
    /// The height of a row that windows are sorted into.
    pub height: Number,
    /// The places of the windows.
    pub placed: Seq<Placed<Id>>,
    /// The order in which the windows fill the grid.
    pub order: Seq<int>,
}

impl<Id> Arrangement<Id> {
    /// The places in the order in which they fill the grid.
    pub open spec fn sorted(self) -> Seq<Placed<Id>> {
        picked(self.placed, self.order)
    }
}

/// What a layout that is not empty was made from.
pub(crate) proof fn lemma_arrangement<Id, A: Arithmetic>(
    a: &A,
    items: Seq<Item<Id>>,
    view: Size,
    cols: int,
    layout: ExposeLayout<Id>,
) -> (r: Arrangement<Id>)
    requires
        is_arranged(a, items, view, cols, layout),
        !is_empty_layout(layout),
    ensures
        is_cell(a, view, cols, (items.len() - 1) / cols + 1, r.cell),
        !degenerate(r.cell),
        is_room(a, items.len() as int, view, r.cell, r.room),
        is_row_height(a, view, (items.len() - 1) / cols + 1, r.height),
        is_placed(a, items, r.height, r.placed),
        is_sorting(r.placed, reading_order::<Id>(), r.order),
        is_filled(
            a,
            items.len() as int,
            cols,
            (items.len() - 1) / cols + 1,
            r.cell,
            r.room,
            r.sorted(),
            layout.windows@,
        ),
{
    let n = items.len() as int;
    let rows = (n - 1) / cols + 1;
    let cell = choose|cell: Size| #[trigger]
        is_cell(a, view, cols, rows, cell) && !degenerate(cell) && exists|
            sorted: Seq<Placed<Id>>,
            room: Size,
        |
            #![trigger is_reading_order(a, items, view, rows, sorted), is_room(a, n, view, cell, room)]
            is_reading_order(a, items, view, rows, sorted) && is_room(a, n, view, cell, room)
                && is_filled(a, n, cols, rows, cell, room, sorted, layout.windows@);
    let (sorted, room) = choose|sorted: Seq<Placed<Id>>, room: Size|
        #![trigger is_reading_order(a, items, view, rows, sorted), is_room(a, n, view, cell, room)]
        is_reading_order(a, items, view, rows, sorted) && is_room(a, n, view, cell, room)
            && is_filled(a, n, cols, rows, cell, room, sorted, layout.windows@);
    let (height, placed) = choose|height: Number, placed: Seq<Placed<Id>>|
        #![trigger is_row_height(a, view, rows, height), is_placed(a, items, height, placed)]
        is_row_height(a, view, rows, height) && is_placed(a, items, height, placed)
            && is_sorted_from(placed, reading_order::<Id>(), sorted);
    let order = choose|order: Seq<int>| #[trigger]
        is_sorting(placed, reading_order::<Id>(), order) && sorted == picked(placed, order);
    Arrangement { cell, room, height, placed, order }
}

/// Every window is shown once: the layout, unless it is empty, holds the windows that came in,
/// rearranged.
pub proof fn every_window_is_shown_once<Id, A: Arithmetic>(
    a: &A,
    items: Seq<Item<Id>>,
    view: Size,
    cols: int,
    layout: ExposeLayout<Id>,
)
    requires
        is_arranged(a, items, view, cols, layout),
    ensures
        is_empty_layout(layout) || exists|order: Seq<int>| #[trigger]
            is_permutation(order, items.len()) && is_rearranged(items, order, layout.windows@),
{
    if !is_empty_layout(layout) {
        let n = items.len() as int;
        let rows = (n - 1) / cols + 1;
        let r = lemma_arrangement(a, items, view, cols, layout);
        let windows = layout.windows@;
        assert(is_permutation(r.order, items.len()));
        assert forall|i: int| 0 <= i < r.order.len() implies holds_item(
            items[#[trigger] r.order[i]],
            windows[i],
        ) by {
            assert(r.sorted()[i] == r.placed[r.order[i]]);
            assert(is_in_cell(
                a,
                n,
                cols,
                rows,
                r.cell,
                r.room,
                i,
                r.sorted()[i].item,
                windows[i],
            ));
        }
        assert(is_rearranged(items, r.order, windows));
    }
}

/// The exposed window is the item.
pub open spec fn holds_item<Id>(item: Item<Id>, exposed: ExposedWindow<Id>) -> bool {
    exposed.id == item.0 && exposed.original_pos == item.1 && exposed.tile_size == item.2
}

/// The windows are the items in the given order.
pub open spec fn is_rearranged<Id>(
    items: Seq<Item<Id>>,
    order: Seq<int>,
    windows: Seq<ExposedWindow<Id>>,
) -> bool {
    &&& windows.len() == order.len()
    &&& forall|i: int|
        0 <= i < order.len() ==> holds_item(items[#[trigger] order[i]], windows[i])
}

/// Where all centers are numbers, windows fill the grid by rows, and within a row from left to
/// right; of two at the same place the one that came first goes first.
pub proof fn reading_order_is_kept<Id>(placed: Seq<Placed<Id>>, order: Seq<int>)
    requires
        forall|i: int| 0 <= i < placed.len() ==> !(#[trigger] placed[i]).x.nan(),
        is_sorting(placed, reading_order::<Id>(), order),
    ensures
        is_ordering(placed, reading_order::<Id>()),
        forall|i: int, j: int|
            0 <= i < j < order.len() ==> comes_first(
                placed,
                #[trigger] order[i],
                #[trigger] order[j],
            ),
{
    assert(is_ordering(placed, reading_order::<Id>()));
    assert forall|i: int, j: int| 0 <= i < j < order.len() implies comes_first(
        placed,
        #[trigger] order[i],
        #[trigger] order[j],
    ) by {
        assert(precedes(placed, reading_order::<Id>(), order[i], order[j]));
    }
}

/// The window at `i` goes before the one at `j`: its center is in a higher row, or further left in
/// the same row, or at the same place and it came first.
pub open spec fn comes_first<Id>(placed: Seq<Placed<Id>>, i: int, j: int) -> bool {
    let p = placed[i];
    let q = placed[j];
    ||| p.row < q.row
    ||| p.row == q.row && p.x.lt(q.x)
    ||| p.row == q.row && p.x.same(q.x) && i < j
}

/// `placed` are the shown windows with the rows and the horizontal positions that their centers had.
pub open spec fn are_original_places<Id, A: Arithmetic>(
    a: &A,
    view: Size,
    rows: int,
    windows: Seq<ExposedWindow<Id>>,
    placed: Seq<Placed<Id>>,
) -> bool {
    exists|height: Number| #[trigger]
        is_row_height(a, view, rows, height) && placed.len() == windows.len() && forall|i: int|
            0 <= i < windows.len() ==> is_placed_window(
                a,
                (windows[i].id, windows[i].original_pos, windows[i].tile_size),
                height,
                #[trigger] placed[i],
            )
}

/// The windows are by rows, and from left to right within a row.
pub open spec fn is_left_to_right<Id>(placed: Seq<Placed<Id>>) -> bool {
    forall|i: int, j: int|
        0 <= i < j < placed.len() ==> (#[trigger] placed[i]).row < (#[trigger] placed[j]).row || (
        placed[i].row == placed[j].row && placed[i].x.le(placed[j].x))
}

/// The grid preserves spatial relationships: where all centers are numbers, windows are shown in
/// the order of the rows that their centers were in, and from left to right within a row.
pub proof fn spatial_order_is_kept<Id, A: Arithmetic>(
    a: &A,
    items: Seq<Item<Id>>,
    view: Size,
    cols: int,
    layout: ExposeLayout<Id>,
)
    requires
        forall|i: int, x: Number|
            0 <= i < items.len() && #[trigger] is_middle(a, items[i].1.x, items[i].2.w, x)
                ==> !x.nan(),
        is_arranged(a, items, view, cols, layout),
    ensures
        is_empty_layout(layout) || exists|placed: Seq<Placed<Id>>| #[trigger]
            are_original_places(
                a,
                view,
                (items.len() - 1) / cols + 1,
                layout.windows@,
                placed,
            ) && is_left_to_right(placed),
{
    if !is_empty_layout(layout) {
        let n = items.len() as int;
        let rows = (n - 1) / cols + 1;
        let r = lemma_arrangement(a, items, view, cols, layout);
        let placed = r.placed;
        let sorted = r.sorted();
        let windows = layout.windows@;
        assert forall|i: int| 0 <= i < placed.len() implies !(#[trigger] placed[i]).x.nan() by {
            assert(is_placed_window(a, items[i], r.height, placed[i]));
            assert(is_middle(a, items[i].1.x, items[i].2.w, placed[i].x));
        }
        reading_order_is_kept(placed, r.order);
        assert forall|i: int| 0 <= i < windows.len() implies is_placed_window(
            a,
            (windows[i].id, windows[i].original_pos, windows[i].tile_size),
            r.height,
            #[trigger] sorted[i],
        ) by {
            assert(is_in_cell(a, n, cols, rows, r.cell, r.room, i, sorted[i].item, windows[i]));
            assert(sorted[i] == placed[r.order[i]]);
            assert(is_placed_window(a, items[r.order[i]], r.height, placed[r.order[i]]));
        }
        assert(are_original_places(a, view, rows, windows, sorted));
        assert forall|i: int, j: int| 0 <= i < j < sorted.len() implies (#[trigger] sorted[i]).row < (
        #[trigger] sorted[j]).row || (sorted[i].row == sorted[j].row && sorted[i].x.le(
            sorted[j].x,
        )) by {
            assert(sorted[i] == placed[r.order[i]]);
            assert(sorted[j] == placed[r.order[j]]);
            assert(comes_first(placed, r.order[i], r.order[j]));
        }
    }
}

/// A single window takes three quarters of the view along the limiting side, unless that would
/// enlarge it or make it smaller than the minimum: the scale is the smaller of what three quarters
/// of the width and of the height allow.
pub proof fn single_window_takes_its_share<Id, A: Arithmetic>(
    a: &A,
    item: Item<Id>,
    view: Size,
    layout: ExposeLayout<Id>,
)
    requires
        is_arranged(a, seq![item], view, 1, layout),
    ensures
        is_empty_layout(layout) || (layout.windows@.len() == 1 && exists|room: Size|
            #![trigger is_scaled(a, view, Number { bits: SINGLE_FRACTION }, room)]
            is_scaled(a, view, Number { bits: SINGLE_FRACTION }, room) && exists|
                x: Number,
                y: Number,
            |
                #![trigger is_quotient(a, room.w, item.2.w, x), is_quotient(a, room.h, item.2.h, y)]
                is_quotient(a, room.w, item.2.w, x) && is_quotient(a, room.h, item.2.h, y)
                    && layout.windows@[0].target_scale == bounded_scale(x, y)),
{
    if !is_empty_layout(layout) {
        let items = seq![item];
        let r = lemma_arrangement(a, items, view, 1, layout);
        let shown = layout.windows@[0];
        assert(r.sorted()[0] == r.placed[r.order[0]]);
        assert(is_placed_window(a, items[0], r.height, r.placed[0]));
        assert(is_in_cell(a, 1, 1, 1, r.cell, r.room, 0, r.sorted()[0].item, shown));
        assert(is_scaled(a, view, Number { bits: SINGLE_FRACTION }, r.room));
    }
}

/// The minimum scale does not apply to a tile in the room, and no rounding gets in the way of
/// fitting it.
pub open spec fn is_shrinkable<A: Arithmetic>(a: &A, tile: Size, room: Size) -> bool {
    let least = Number { bits: MIN_SCALE };
    &&& forall|k: Number| #[trigger] is_quotient(a, room.w, tile.w, k) ==> least.le(k)
    &&& forall|k: Number| #[trigger] is_quotient(a, room.h, tile.h, k) ==> least.le(k)
    &&& stays_within(a, tile.w, room.w)
    &&& stays_within(a, tile.h, room.h)
}

/// The tile at its scale is no larger than the room, along both sides.
pub open spec fn fits<Id, A: Arithmetic>(a: &A, window: ExposedWindow<Id>, room: Size) -> bool {
    forall|shown: Size| #[trigger]
        is_scaled(a, window.tile_size, window.target_scale, shown) ==> shown.w.le(room.w)
            && shown.h.le(room.h)
}

/// Every window fits into its cell, unless the minimum scale applies to it. A single window fits
/// into three quarters of the view.
pub proof fn windows_fit_their_cells<Id, A: Arithmetic>(
    a: &A,
    items: Seq<Item<Id>>,
    view: Size,
    cols: int,
    layout: ExposeLayout<Id>,
)
    requires
        is_arranged(a, items, view, cols, layout),
    ensures
        is_empty_layout(layout) || exists|cell: Size, room: Size|
            #![trigger is_cell(a, view, cols, (items.len() - 1) / cols + 1, cell), is_room(a, items.len() as int, view, cell, room)]
            is_cell(a, view, cols, (items.len() - 1) / cols + 1, cell) && is_room(
                a,
                items.len() as int,
                view,
                cell,
                room,
            ) && forall|i: int|
                0 <= i < layout.windows@.len() && is_shrinkable(
                    a,
                    (#[trigger] layout.windows@[i]).tile_size,
                    room,
                ) ==> fits(a, layout.windows@[i], room),
{
    if !is_empty_layout(layout) {
        let n = items.len() as int;
        let rows = (n - 1) / cols + 1;
        let r = lemma_arrangement(a, items, view, cols, layout);
        let windows = layout.windows@;
        assert forall|i: int|
            0 <= i < windows.len() && is_shrinkable(
                a,
                (#[trigger] windows[i]).tile_size,
                r.room,
            ) implies fits(a, windows[i], r.room) by {
            let tile = windows[i].tile_size;
            assert(is_in_cell(a, n, cols, rows, r.cell, r.room, i, r.sorted()[i].item, windows[i]));
            let (x, y) = choose|x: Number, y: Number|
                #![trigger is_quotient(a, r.room.w, tile.w, x), is_quotient(a, r.room.h, tile.h, y)]
                is_quotient(a, r.room.w, tile.w, x) && is_quotient(a, r.room.h, tile.h, y)
                    && windows[i].target_scale == bounded_scale(x, y);
            assert(windows[i].target_scale.le(x) && windows[i].target_scale.le(y));
        }
    }
}

/// The selected window is the one that was asked for, where there is one.
pub proof fn selection_is_found<Id: PartialEq>(
    windows: Seq<ExposedWindow<Id>>,
    id: Id,
    index: int,
    k: int,
)
    requires
        is_index_of(windows, id, index),
        0 <= k < windows.len(),
        windows[k].id.eq_spec(&id),
    ensures
        0 <= index <= k,
        windows[index].id.eq_spec(&id),
{
}

/// Where no window has the identifier, the first one is selected.
pub proof fn unknown_window_selects_the_first<Id: PartialEq>(
    windows: Seq<ExposedWindow<Id>>,
    id: Id,
    index: int,
)
    requires
        is_index_of(windows, id, index),
        forall|k: int| 0 <= k < windows.len() ==> !(#[trigger] windows[k]).id.eq_spec(&id),
    ensures
        index == 0,
{
}

/// The expose view opens with the first window selected.
pub proof fn first_window_is_selected<Id, A: Arithmetic>(
    a: &A,
    items: Seq<Item<Id>>,
    view: Size,
    cols: int,
    layout: ExposeLayout<Id>,
)
    requires
        is_arranged(a, items, view, cols, layout),
    ensures
        layout.selected_idx == 0,
{
}

/// From the first cell of a column a step up leads to the last one, and from there a step down leads
/// back; from the first window a step left leads to the last one, and back.
pub proof fn steps_wrap_around(n: int, cols: int, rows: int, col: int, last: int)
    requires
        is_grid(n, cols, rows),
        0 <= col < cols,
        col < n,
        col <= last < n,
        (last - col) % cols == 0,
        last + cols >= n,
    ensures
        neighbour(n, cols, rows, col, ExposeDirection::Up) == last,
        neighbour(n, cols, rows, last, ExposeDirection::Down) == col,
        neighbour(n, cols, rows, 0, ExposeDirection::Left) == n - 1,
        neighbour(n, cols, rows, n - 1, ExposeDirection::Right) == 0,
{
    lemma_cell(n, cols, rows, col);
    lemma_cell(n, cols, rows, last);
    let k = (last - col) / cols;
    vstd::arithmetic::div_mod::lemma_fundamental_div_mod(last - col, cols);
    assert(cols * k == k * cols) by (nonlinear_arith);
    assert(k >= 0) by (nonlinear_arith)
        requires
            k * cols >= 0,
            cols > 0,
    ;
    vstd::arithmetic::div_mod::lemma_fundamental_div_mod_converse(last, cols, k, col);
    vstd::arithmetic::div_mod::lemma_fundamental_div_mod_converse(col, cols, 0, col);
    let h = height(n, cols, rows, col);
    assert(k == h - 1) by {
        if k < h - 1 {
            assert((k + 1) * cols == k * cols + cols) by (nonlinear_arith);
            assert(0 <= (k + 1) * cols);
        }
    }
    vstd::arithmetic::div_mod::lemma_small_mod((h - 1) as nat, h as nat);
    vstd::arithmetic::div_mod::lemma_mod_self_0(h);
    vstd::arithmetic::div_mod::lemma_small_mod((n - 1) as nat, n as nat);
    vstd::arithmetic::div_mod::lemma_mod_self_0(n);
}

/// A step selects another window and changes nothing else: left and right the one before and
/// behind, up and down the one a row away, round the edges where there is none; and the opposite
/// step leads back.
pub proof fn navigation_steps_through_the_grid<Id>(
    before: ExposeLayout<Id>,
    direction: ExposeDirection,
    middle: ExposeLayout<Id>,
    after: ExposeLayout<Id>,
)
    requires
        before.wf(),
        is_navigated(before, direction, middle),
        is_navigated(middle, opposite(direction), after),
    ensures
        middle.windows@ == before.windows@,
        middle.cols == before.cols,
        middle.rows == before.rows,
        after.selected_idx == before.selected_idx,
        before.windows@.len() > 0 ==> {
            let n = before.windows@.len() as int;
            let (from, to) = (before.selected_idx as int, middle.selected_idx as int);
            &&& 0 <= to < n
            &&& direction is Right ==> to == if from + 1 < n {
                from + 1
            } else {
                0
            }
            &&& direction is Left ==> to == if from > 0 {
                from - 1
            } else {
                n - 1
            }
            &&& direction is Down && from + before.cols < n ==> to == from + before.cols
            &&& direction is Up && from >= before.cols ==> to == from - before.cols
            &&& direction is Up || direction is Down ==> to % (before.cols as int) == from % (
            before.cols as int)
        },
{
    if before.windows@.len() > 0 {
        let n = before.windows@.len() as int;
        let (cols, rows) = (before.cols as int, before.rows as int);
        let from = before.selected_idx as int;
        steps_are_undone(n, cols, rows, from, direction);
        inner_steps_are_adjacent(n, cols, rows, from);
        vertical_steps_keep_the_column(n, cols, rows, from);
        vstd::arithmetic::div_mod::lemma_small_mod((n - 1) as nat, n as nat);
        vstd::arithmetic::div_mod::lemma_mod_self_0(n);
    }
}

} // verus!
