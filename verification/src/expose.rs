//! The expose view: a grid that shows all windows of a workspace as scaled thumbnails.
use crate::geometry::{is_inside, Point, Rectangle, Size};
use crate::number::{
    is_ceiling, is_difference, is_number, is_product, is_quotient, is_root, is_sum, is_whole,
    Arithmetic, Number, ONE, TWO,
};
use crate::sorting::{is_sorted_from, stable_sort};
use crate::thumbnail::{degenerate, is_scaled, one, upscale, zero};
use vstd::prelude::*;
use vstd::std_specs::cmp::PartialEqSpec;

verus! {

/// Outer padding around the grid in logical pixels: `48`.
pub const PADDING: u64 = 0x4048_0000_0000_0000;

/// The padding on both sides: `96`.
pub const BOTH_PADDINGS: u64 = 0x4058_0000_0000_0000;

/// Gap between grid cells in logical pixels: `24`.
pub const GAP: u64 = 0x4038_0000_0000_0000;

/// Minimum scale factor for a window thumbnail: `0.15`.
pub const MIN_SCALE: u64 = 0x3fc3_3333_3333_3333;

/// Share of the view that a single window takes along the limiting side: `0.75`.
pub const SINGLE_FRACTION: u64 = 0x3fe8_0000_0000_0000;

/// The place and scale of one window in the expose view.
#[derive(Debug, Clone)]
pub struct ExposedWindow<Id> {
    /// Window identifier.
    pub id: Id,
    /// Top-left position in coordinates of the output.
    pub target_pos: Point,
    /// Scale factor of the window.
    pub target_scale: Number,
    /// Position outside the expose view, where the window comes from.
    pub original_pos: Point,
    /// Size of the window at scale `1`.
    pub tile_size: Size,
}

/// Direction for keyboard navigation in the grid.
#[derive(Debug, Clone, Copy)]
pub enum ExposeDirection {
    /// To the row above.
    Up,
    /// To the row below.
    Down,
    /// To the window before.
    Left,
    /// To the window after.
    Right,
}

/// The expose view of one workspace.
#[derive(Debug, Clone)]
pub struct ExposeLayout<Id> {
    /// The windows, row by row.
    pub windows: Vec<ExposedWindow<Id>>,
    /// Number of columns in the grid.
    pub cols: usize,
    /// Number of rows in the grid.
    pub rows: usize,
    /// Index of the window selected for keyboard navigation.
    pub selected_idx: usize,
}

/// A grid of `n` cells has this many rows and columns: all rows but the last one are full, and the
/// last one is not empty.
pub open spec fn is_grid(n: int, cols: int, rows: int) -> bool {
    0 < cols && 0 < rows && (rows - 1) * cols < n <= rows * cols
}

/// The number of rows that have a cell in the column.
pub open spec fn height(n: int, cols: int, rows: int, col: int) -> int {
    if (rows - 1) * cols + col < n {
        rows
    } else {
        rows - 1
    }
}

/// The cell one step away. Left and right go through all cells, up and down through the cells of a
/// column; both wrap around.
pub open spec fn neighbour(
    n: int,
    cols: int,
    rows: int,
    selected: int,
    direction: ExposeDirection,
) -> int {
    let row = selected / cols;
    let col = selected % cols;
    let height = height(n, cols, rows, col);
    match direction {
        ExposeDirection::Left => (selected + n - 1) % n,
        ExposeDirection::Right => (selected + 1) % n,
        ExposeDirection::Up => ((row + height - 1) % height) * cols + col,
        ExposeDirection::Down => ((row + 1) % height) * cols + col,
    }
}

/// `index` is that of the first window with the identifier, or `0`.
pub open spec fn is_index_of<Id: PartialEq>(
    windows: Seq<ExposedWindow<Id>>,
    id: Id,
    index: int,
) -> bool {
    if exists|i: int| 0 <= i < windows.len() && (#[trigger] windows[i]).id.eq_spec(&id) {
        0 <= index < windows.len() && windows[index].id.eq_spec(&id) && forall|j: int|
            0 <= j < index ==> !(#[trigger] windows[j]).id.eq_spec(&id)
    } else {
        index == 0
    }
}

/// What is known of a cell in a grid.
pub(crate) proof fn lemma_cell(n: int, cols: int, rows: int, selected: int)
    requires
        is_grid(n, cols, rows),
        0 <= selected < n,
    ensures
        ({
            let row = selected / cols;
            let col = selected % cols;
            &&& selected == row * cols + col
            &&& 0 <= col < cols
            &&& 0 <= row < height(n, cols, rows, col) <= rows
        }),
        forall|t: int|
            0 <= t < height(n, cols, rows, selected % cols) ==> 0 <= #[trigger] (t * cols)
                && t * cols + selected % cols < n,
{
    let row = selected / cols;
    let col = selected % cols;
    vstd::arithmetic::div_mod::lemma_fundamental_div_mod(selected, cols);
    vstd::arithmetic::div_mod::lemma_mod_bound(selected, cols);
    assert(cols * row == row * cols) by (nonlinear_arith);
    assert(row >= 0) by (nonlinear_arith)
        requires
            row * cols + col >= 0,
            col < cols,
            cols > 0,
    ;
    assert(row < rows) by (nonlinear_arith)
        requires
            row * cols + col < n,
            n <= rows * cols,
            col >= 0,
            cols > 0,
    ;
    if (rows - 1) * cols + col >= n {
        assert(row < rows - 1) by (nonlinear_arith)
            requires
                row * cols + col < n,
                (rows - 1) * cols + col >= n,
                row < rows,
        ;
    }
    let h = height(n, cols, rows, col);
    assert forall|t: int| 0 <= t < h implies 0 <= #[trigger] (t * cols) && t * cols + col < n by {
        assert(0 <= t * cols) by (nonlinear_arith)
            requires
                0 <= t,
                cols > 0,
        ;
        if t < rows - 1 {
            assert(t * cols + cols <= (rows - 1) * cols) by (nonlinear_arith)
                requires
                    t < rows - 1,
                    cols > 0,
            ;
        }
    }
}

/// `after` is the layout with the window one step away selected.
pub open spec fn is_navigated<Id>(
    before: ExposeLayout<Id>,
    direction: ExposeDirection,
    after: ExposeLayout<Id>,
) -> bool {
    &&& after.windows@ == before.windows@
    &&& after.cols == before.cols
    &&& after.rows == before.rows
    &&& after.selected_idx == (if before.windows@.len() == 0 {
        before.selected_idx as int
    } else {
        neighbour(
            before.windows@.len() as int,
            before.cols as int,
            before.rows as int,
            before.selected_idx as int,
            direction,
        )
    })
}

impl<Id> ExposeLayout<Id> {
    /// The grid has room for the windows, and one of them is selected if there is any.
    pub open spec fn wf(self) -> bool {
        self.windows@.len() > 0 ==> is_grid(
            self.windows@.len() as int,
            self.cols as int,
            self.rows as int,
        ) && self.selected_idx < self.windows@.len()
    }

    /// Selects the window one step away, wrapping around edges.
    pub fn navigate(&mut self, direction: ExposeDirection)
        requires
            old(self).wf(),
        ensures
            final(self).wf(),
            is_navigated(*old(self), direction, *final(self)),
    {
        let n: usize = self.windows.len();
        if n == 0 {
            return ;
        }
        let cols: usize = self.cols;
        let selected: usize = self.selected_idx;
        proof {
            lemma_cell(n as int, cols as int, self.rows as int, selected as int);
        }
        let row: usize = selected / cols;
        let col: usize = selected % cols;

        let new_idx: usize = match direction {
            ExposeDirection::Left => {
                proof {
                    if selected > 0 {
                        vstd::arithmetic::div_mod::lemma_mod_add_multiples_vanish(
                            selected - 1,
                            n as int,
                        );
                    }
                    vstd::arithmetic::div_mod::lemma_small_mod((n - 1) as nat, n as nat);
                    if selected > 0 {
                        vstd::arithmetic::div_mod::lemma_small_mod((selected - 1) as nat, n as nat);
                    }
                }
                if selected == 0 {
                    n - 1
                } else {
                    selected - 1
                }
            },
            ExposeDirection::Right => {
                proof {
                    if selected + 1 < n {
                        vstd::arithmetic::div_mod::lemma_small_mod((selected + 1) as nat, n as nat);
                    } else {
                        vstd::arithmetic::div_mod::lemma_mod_self_0(n as int);
                    }
                }
                if selected == n - 1 {
                    0
                } else {
                    selected + 1
                }
            },
            ExposeDirection::Up => {
                let height = self.column_height(col);
                proof {
                    if row > 0 {
                        vstd::arithmetic::div_mod::lemma_mod_add_multiples_vanish(
                            row - 1,
                            height as int,
                        );
                        vstd::arithmetic::div_mod::lemma_small_mod(
                            (row - 1) as nat,
                            height as nat,
                        );
                    } else {
                        vstd::arithmetic::div_mod::lemma_small_mod(
                            (height - 1) as nat,
                            height as nat,
                        );
                    }
                }
                // Go to the same column in the previous row, wrapping to the bottom.
                let target_row: usize = if row == 0 {
                    height - 1
                } else {
                    row - 1
                };
                assert(0 <= target_row * cols);
                target_row * cols + col
            },
            ExposeDirection::Down => {
                let height = self.column_height(col);
                proof {
                    if row + 1 < height {
                        vstd::arithmetic::div_mod::lemma_small_mod(
                            (row + 1) as nat,
                            height as nat,
                        );
                    } else {
                        vstd::arithmetic::div_mod::lemma_mod_self_0(height as int);
                    }
                }
                // Go to the same column in the next row, wrapping to the top.
                let target_row: usize = if row == height - 1 {
                    0
                } else {
                    row + 1
                };
                assert(0 <= target_row * cols);
                target_row * cols + col
            },
        };

        self.selected_idx = new_idx;
    }

    /// The number of rows that have a cell in the column.
    fn column_height(&self, col: usize) -> (result: usize)
        requires
            self.wf(),
            self.windows@.len() > 0,
        ensures
            result == height(
                self.windows@.len() as int,
                self.cols as int,
                self.rows as int,
                col as int,
            ),
    {
        let full: usize = self.rows - 1;
        assert(0 <= full * self.cols) by (nonlinear_arith)
            requires
                0 <= full,
                0 <= self.cols,
        ;
        if col < self.windows.len() - full * self.cols {
            self.rows
        } else {
            full
        }
    }

    /// The identifier of the selected window.
    pub fn selected_id(&self) -> (id: Option<&Id>)
        ensures
            match id {
                Some(id) => self.selected_idx < self.windows@.len() && *id
                    == self.windows@[self.selected_idx as int].id,
                None => self.selected_idx >= self.windows@.len(),
            },
    {
        if self.selected_idx < self.windows.len() {
            Some(&self.windows[self.selected_idx].id)
        } else {
            None
        }
    }
}

impl<Id: Clone + PartialEq> ExposeLayout<Id> {
    /// Selects the window with the identifier, or the first one where there is none.
    pub fn select_by_id(&mut self, id: &Id)
        ensures
            final(self).windows@ == old(self).windows@,
            final(self).cols == old(self).cols,
            final(self).rows == old(self).rows,
            Id::obeys_eq_spec() ==> is_index_of(
                old(self).windows@,
                *id,
                final(self).selected_idx as int,
            ),
            old(self).wf() ==> final(self).wf(),
    {
        let mut i: usize = 0;
        while i < self.windows.len()
            invariant
                i <= self.windows.len(),
                *self == *old(self),
                Id::obeys_eq_spec() ==> forall|j: int|
                    0 <= j < i ==> !(#[trigger] self.windows@[j]).id.eq_spec(id),
            decreases self.windows.len() - i,
        {
            if self.windows[i].id == *id {
                self.selected_idx = i;
                return ;
            }
            i += 1;
        }
        self.selected_idx = 0;
    }
}

/// A window before it is arranged: its identifier, its position and its size.
pub type Item<Id> = (Id, Point, Size);

/// `cols` is the number of columns of a grid for `n` windows: about as many more than rows as the
/// view is wider than high, but no more than windows.
pub open spec fn is_column_count<A: Arithmetic>(a: &A, n: int, view: Size, cols: int) -> bool {
    if n == 1 {
        cols == 1
    } else {
        exists|aspect: Number, count: Number, area: Number, side: Number, top: Number, c: i64|
            #![trigger is_quotient(a, view.w, view.h, aspect), is_number(a, n, count), is_product(a, count, aspect, area), is_root(a, area, side), is_ceiling(a, side, top), is_whole(a, top, c)]
            is_quotient(a, view.w, view.h, aspect) && is_number(a, n, count) && is_product(
                a,
                count,
                aspect,
                area,
            ) && is_root(a, area, side) && is_ceiling(a, side, top) && is_whole(a, top, c) && cols
                == if c < 0 {
                0
            } else if c < n {
                c as int
            } else {
                n
            }
    }
}

/// `cell` is the extent of a cell where `count` of them share an extent of the view with padding
/// and gaps.
pub open spec fn is_cell_extent<A: Arithmetic>(
    a: &A,
    view: Number,
    count: int,
    cell: Number,
) -> bool {
    exists|available: Number, k: Number, less: Number, gaps: Number, rest: Number|
        #![trigger is_difference(a, view, Number { bits: BOTH_PADDINGS }, available), is_number(a, count, k), is_difference(a, k, one(), less), is_product(a, less, Number { bits: GAP }, gaps), is_difference(a, available, gaps, rest)]
        is_difference(a, view, Number { bits: BOTH_PADDINGS }, available) && is_number(a, count, k)
            && is_difference(a, k, one(), less) && is_product(a, less, Number { bits: GAP }, gaps)
            && is_difference(a, available, gaps, rest) && is_quotient(a, rest, k, cell)
}

/// `offset` is by how much a row is shifted that lacks this many windows: half their cells and
/// gaps.
pub open spec fn is_row_offset<A: Arithmetic>(
    a: &A,
    cell: Number,
    missing: int,
    offset: Number,
) -> bool {
    if missing > 0 {
        exists|k: Number, stride: Number, width: Number|
            #![trigger is_number(a, missing, k), is_sum(a, cell, Number { bits: GAP }, stride), is_product(a, k, stride, width)]
            is_number(a, missing, k) && is_sum(a, cell, Number { bits: GAP }, stride) && is_product(
                a,
                k,
                stride,
                width,
            ) && is_quotient(a, width, Number { bits: TWO }, offset)
    } else {
        offset == zero()
    }
}

/// `at` is the center of the cell with the index, counted from `base`.
pub open spec fn is_slot_center<A: Arithmetic>(
    a: &A,
    cell: Number,
    base: Number,
    index: int,
    at: Number,
) -> bool {
    exists|k: Number, stride: Number, shift: Number, start: Number, half: Number|
        #![trigger is_number(a, index, k), is_sum(a, cell, Number { bits: GAP }, stride), is_product(a, k, stride, shift), is_sum(a, base, shift, start), is_quotient(a, cell, Number { bits: TWO }, half)]
        is_number(a, index, k) && is_sum(a, cell, Number { bits: GAP }, stride) && is_product(
            a,
            k,
            stride,
            shift,
        ) && is_sum(a, base, shift, start) && is_quotient(a, cell, Number { bits: TWO }, half)
            && is_sum(a, start, half, at)
}

/// The number of windows that a row lacks: only the last one can be short.
pub open spec fn missing(n: int, cols: int, rows: int, row: int) -> int {
    if row == rows - 1 {
        rows * cols - n
    } else {
        0
    }
}

/// `slot` is the center of a cell. A last row with fewer windows is centered.
pub open spec fn is_slot<A: Arithmetic>(
    a: &A,
    n: int,
    cols: int,
    rows: int,
    cell: Size,
    row: int,
    col: int,
    slot: Point,
) -> bool {
    &&& exists|offset: Number, base: Number|
        #![trigger is_row_offset(a, cell.w, missing(n, cols, rows, row), offset), is_sum(a, Number { bits: PADDING }, offset, base)]
        is_row_offset(a, cell.w, missing(n, cols, rows, row), offset) && is_sum(
            a,
            Number { bits: PADDING },
            offset,
            base,
        ) && is_slot_center(a, cell.w, base, col, slot.x)
    &&& is_slot_center(a, cell.h, Number { bits: PADDING }, row, slot.y)
}

/// `room` is what a window is scaled to fit into: its cell, or a share of the view where it is the
/// only one.
pub open spec fn is_room<A: Arithmetic>(
    a: &A,
    n: int,
    view: Size,
    cell: Size,
    room: Size,
) -> bool {
    if n == 1 {
        is_scaled(a, view, Number { bits: SINGLE_FRACTION }, room)
    } else {
        room == cell
    }
}

/// The scale of a window in its room: it fits, is not enlarged, and is not below the minimum.
pub open spec fn bounded_scale(x: Number, y: Number) -> Number {
    x.lesser(y).lesser(one()).greater(Number { bits: MIN_SCALE })
}

/// `place` is where an extent begins whose center is at `center`.
pub open spec fn is_centered<A: Arithmetic>(
    a: &A,
    center: Number,
    extent: Number,
    place: Number,
) -> bool {
    exists|half: Number| #[trigger]
        is_quotient(a, extent, Number { bits: TWO }, half) && is_difference(a, center, half, place)
}

/// `exposed` is the window scaled to fit into a room and centered in its slot.
pub open spec fn is_exposed<Id, A: Arithmetic>(
    a: &A,
    room: Size,
    slot: Point,
    item: Item<Id>,
    exposed: ExposedWindow<Id>,
) -> bool {
    &&& exposed.id == item.0
    &&& exposed.original_pos == item.1
    &&& exposed.tile_size == item.2
    &&& exists|x: Number, y: Number, w: Number, h: Number|
        #![trigger is_quotient(a, room.w, item.2.w, x), is_quotient(a, room.h, item.2.h, y), is_product(a, item.2.w, exposed.target_scale, w), is_product(a, item.2.h, exposed.target_scale, h)]
        is_quotient(a, room.w, item.2.w, x) && is_quotient(a, room.h, item.2.h, y)
            && exposed.target_scale == bounded_scale(x, y) && is_product(
            a,
            item.2.w,
            exposed.target_scale,
            w,
        ) && is_product(a, item.2.h, exposed.target_scale, h) && is_centered(
            a,
            slot.x,
            w,
            exposed.target_pos.x,
        ) && is_centered(a, slot.y, h, exposed.target_pos.y)
}

/// `height` is that of the rows by which windows are sorted: the view is cut into as many as the
/// grid has.
pub open spec fn is_row_height<A: Arithmetic>(
    a: &A,
    view: Size,
    rows: int,
    height: Number,
) -> bool {
    if rows > 1 {
        exists|k: Number| #[trigger]
            is_number(a, rows, k) && is_quotient(a, view.h, k, height)
    } else {
        height == view.h
    }
}

/// `row` is the one that a height is in.
pub open spec fn is_row_of<A: Arithmetic>(a: &A, y: Number, height: Number, row: i64) -> bool {
    exists|q: Number| #[trigger] is_quotient(a, y, height, q) && is_whole(a, q, row)
}

/// `middle` is the center of an extent that begins at a place.
pub open spec fn is_middle<A: Arithmetic>(
    a: &A,
    place: Number,
    extent: Number,
    middle: Number,
) -> bool {
    exists|half: Number| #[trigger]
        is_quotient(a, extent, Number { bits: TWO }, half) && is_sum(a, place, half, middle)
}

/// A window with the row that its center is in.
pub struct Placed<Id> {
    /// The row.
    pub row: i64,
    /// The horizontal position of the center.
    pub x: Number,
    /// The window.
    pub item: Item<Id>,
}

/// The order in which windows fill the grid: by the rows that their centers are in, and by the
/// horizontal position of the centers in a row.
pub open spec fn reading_order<Id>() -> spec_fn(Placed<Id>, Placed<Id>) -> bool {
    |p: Placed<Id>, q: Placed<Id>|
        p.row < q.row || (p.row == q.row && p.x.lt(q.x))
}

/// `p` is a window with the row and the horizontal position of its center.
pub open spec fn is_placed_window<Id, A: Arithmetic>(
    a: &A,
    item: Item<Id>,
    height: Number,
    p: Placed<Id>,
) -> bool {
    &&& p.item == item
    &&& is_middle(a, item.1.x, item.2.w, p.x)
    &&& exists|y: Number| #[trigger]
        is_middle(a, item.1.y, item.2.h, y) && is_row_of(a, y, height, p.row)
}

/// `placed` are the windows with their rows.
pub open spec fn is_placed<Id, A: Arithmetic>(
    a: &A,
    items: Seq<Item<Id>>,
    height: Number,
    placed: Seq<Placed<Id>>,
) -> bool {
    &&& placed.len() == items.len()
    &&& forall|i: int|
        0 <= i < items.len() ==> is_placed_window(a, items[i], height, #[trigger] placed[i])
}

/// `sorted` are the windows in the order in which they fill the grid.
pub open spec fn is_reading_order<Id, A: Arithmetic>(
    a: &A,
    items: Seq<Item<Id>>,
    view: Size,
    rows: int,
    sorted: Seq<Placed<Id>>,
) -> bool {
    exists|height: Number, placed: Seq<Placed<Id>>|
        #![trigger is_row_height(a, view, rows, height), is_placed(a, items, height, placed)]
        is_row_height(a, view, rows, height) && is_placed(a, items, height, placed)
            && is_sorted_from(placed, reading_order::<Id>(), sorted)
}

/// A cell of a grid.
pub open spec fn is_cell<A: Arithmetic>(
    a: &A,
    view: Size,
    cols: int,
    rows: int,
    cell: Size,
) -> bool {
    is_cell_extent(a, view.w, cols, cell.w) && is_cell_extent(a, view.h, rows, cell.h)
}

/// `windows` are the sorted windows in their cells, row by row.
pub open spec fn is_filled<Id, A: Arithmetic>(
    a: &A,
    n: int,
    cols: int,
    rows: int,
    cell: Size,
    room: Size,
    sorted: Seq<Placed<Id>>,
    windows: Seq<ExposedWindow<Id>>,
) -> bool {
    &&& windows.len() == sorted.len()
    &&& forall|i: int|
        0 <= i < windows.len() ==> is_in_cell(
            a,
            n,
            cols,
            rows,
            cell,
            room,
            i,
            sorted[i].item,
            #[trigger] windows[i],
        )
}

/// `exposed` is the window in the cell with an index.
pub open spec fn is_in_cell<Id, A: Arithmetic>(
    a: &A,
    n: int,
    cols: int,
    rows: int,
    cell: Size,
    room: Size,
    i: int,
    item: Item<Id>,
    exposed: ExposedWindow<Id>,
) -> bool {
    exists|slot: Point| #[trigger]
        is_slot(a, n, cols, rows, cell, i / cols, i % cols, slot) && is_exposed(
            a,
            room,
            slot,
            item,
            exposed,
        )
}

/// The layout without windows.
pub open spec fn is_empty_layout<Id>(layout: ExposeLayout<Id>) -> bool {
    layout.windows@.len() == 0 && layout.cols == 0 && layout.rows == 0 && layout.selected_idx == 0
}

/// `layout` shows the windows in a grid with this many columns. It is empty where the view is too
/// small for the padding and gaps.
pub open spec fn is_arranged<Id, A: Arithmetic>(
    a: &A,
    items: Seq<Item<Id>>,
    view: Size,
    cols: int,
    layout: ExposeLayout<Id>,
) -> bool {
    let n = items.len() as int;
    let rows = (n - 1) / cols + 1;
    exists|cell: Size| #[trigger]
        is_cell(a, view, cols, rows, cell) && if degenerate(cell) {
            is_empty_layout(layout)
        } else {
            &&& layout.cols == cols
            &&& layout.rows == rows
            &&& layout.selected_idx == 0
            &&& exists|sorted: Seq<Placed<Id>>, room: Size|
                #![trigger is_reading_order(a, items, view, rows, sorted), is_room(a, n, view, cell, room)]
                is_reading_order(a, items, view, rows, sorted) && is_room(a, n, view, cell, room)
                    && is_filled(
                    a,
                    n,
                    cols,
                    rows,
                    cell,
                    room,
                    sorted,
                    layout.windows@,
                )
        }
}

fn cell_extent<A: Arithmetic>(a: &A, view: Number, count: usize) -> (cell: Number)
    ensures
        is_cell_extent(a, view, count as int, cell),
{
    let available = a.difference(view, Number::new(BOTH_PADDINGS));
    let k = a.number(count as i128);
    let less = a.difference(k, Number::new(ONE));
    let gaps = a.product(less, Number::new(GAP));
    let rest = a.difference(available, gaps);
    a.quotient(rest, k)
}

fn row_offset<A: Arithmetic>(a: &A, cell: Number, missing: usize) -> (offset: Number)
    ensures
        is_row_offset(a, cell, missing as int, offset),
{
    if missing > 0 {
        let k = a.number(missing as i128);
        let stride = a.sum(cell, Number::new(GAP));
        a.quotient(a.product(k, stride), Number::new(TWO))
    } else {
        Number::zero()
    }
}

fn slot_center<A: Arithmetic>(a: &A, cell: Number, base: Number, index: usize) -> (at: Number)
    ensures
        is_slot_center(a, cell, base, index as int, at),
{
    let k = a.number(index as i128);
    let stride = a.sum(cell, Number::new(GAP));
    let start = a.sum(base, a.product(k, stride));
    let half = a.quotient(cell, Number::new(TWO));
    a.sum(start, half)
}

fn centered<A: Arithmetic>(a: &A, center: Number, extent: Number) -> (place: Number)
    ensures
        is_centered(a, center, extent, place),
{
    let half = a.quotient(extent, Number::new(TWO));
    a.difference(center, half)
}

fn room<A: Arithmetic>(a: &A, n: usize, view: Size, cell: Size) -> (room: Size)
    ensures
        is_room(a, n as int, view, cell, room),
{
    if n == 1 {
        upscale(a, view, Number::new(SINGLE_FRACTION))
    } else {
        cell
    }
}

fn expose_window<Id, A: Arithmetic>(a: &A, room: Size, slot: Point, item: Item<Id>) -> (exposed:
    ExposedWindow<Id>)
    ensures
        is_exposed(a, room, slot, item, exposed),
{
    let (id, original_pos, tile_size) = item;
    let scale_x = a.quotient(room.w, tile_size.w);
    let scale_y = a.quotient(room.h, tile_size.h);
    let scale = scale_x.min(scale_y).min(Number::new(ONE)).max(Number::new(MIN_SCALE));

    let scaled_w = a.product(tile_size.w, scale);
    let scaled_h = a.product(tile_size.h, scale);
    let target_pos = Point::new(centered(a, slot.x, scaled_w), centered(a, slot.y, scaled_h));

    ExposedWindow { id, target_pos, target_scale: scale, original_pos, tile_size }
}

fn row_height<A: Arithmetic>(a: &A, view: Size, rows: usize) -> (height: Number)
    ensures
        is_row_height(a, view, rows as int, height),
{
    if rows > 1 {
        let k = a.number(rows as i128);
        a.quotient(view.h, k)
    } else {
        view.h
    }
}

fn row_of<A: Arithmetic>(a: &A, y: Number, height: Number) -> (row: i64)
    ensures
        is_row_of(a, y, height, row),
{
    let q = a.quotient(y, height);
    a.whole(q)
}

fn middle<A: Arithmetic>(a: &A, place: Number, extent: Number) -> (result: Number)
    ensures
        is_middle(a, place, extent, result),
{
    let half = a.quotient(extent, Number::new(TWO));
    a.sum(place, half)
}

fn place<Id, A: Arithmetic>(a: &A, items: Vec<Item<Id>>, height: Number) -> (placed: Vec<Placed<Id>>)
    ensures
        is_placed(a, items@, height, placed@),
{
    let ghost all = items@;
    let mut placed: Vec<Placed<Id>> = Vec::new();
    for item in it: items.into_iter()
        invariant
            it.seq() == all,
            placed@.len() == it.index(),
            forall|i: int|
                0 <= i < placed@.len() ==> is_placed_window(
                    a,
                    all[i],
                    height,
                    #[trigger] placed@[i],
                ),
    {
        let x = middle(a, item.1.x, item.2.w);
        let row = row_of(a, middle(a, item.1.y, item.2.h), height);
        placed.push(Placed { row, x, item });
    }
    placed
}

impl<Id> ExposeLayout<Id> {
    fn empty() -> (layout: ExposeLayout<Id>)
        ensures
            is_empty_layout(layout),
    {
        ExposeLayout { windows: Vec::new(), cols: 0, rows: 0, selected_idx: 0 }
    }

    /// The number of columns for this many windows. It is zero where the view has no proportions,
    /// such as one without width.
    pub fn column_count<A: Arithmetic>(a: &A, n: usize, view_size: Size) -> (cols: usize)
        requires
            n > 0,
        ensures
            is_column_count(a, n as int, view_size, cols as int),
            cols <= n,
    {
        if n == 1 {
            return 1;
        }
        let aspect = a.quotient(view_size.w, view_size.h);
        let count = a.number(n as i128);
        let area = a.product(count, aspect);
        let side = a.root(area);
        let top = a.ceiling(side);
        let c: i64 = a.whole(top);
        if c < 0 {
            0
        } else if (c as u128) < n as u128 {
            c as usize
        } else {
            n
        }
    }

    /// Arranges windows in a grid with this many columns.
    pub fn arrange<A: Arithmetic>(
        a: &A,
        items: Vec<Item<Id>>,
        view_size: Size,
        cols: usize,
    ) -> (layout: ExposeLayout<Id>)
        requires
            0 < cols <= items@.len(),
        ensures
            is_arranged(a, items@, view_size, cols as int, layout),
            layout.wf(),
    {
        let n: usize = items.len();
        let ghost all = items@;
        let rows: usize = (n - 1) / cols + 1;
        proof {
            vstd::arithmetic::div_mod::lemma_fundamental_div_mod(n - 1, cols as int);
            vstd::arithmetic::div_mod::lemma_mod_bound(n - 1, cols as int);
            let full = (n - 1) / (cols as int);
            assert((rows - 1) * cols < n <= rows * cols) by (nonlinear_arith)
                requires
                    rows == full + 1,
                    n - 1 == cols * full + (n - 1) % (cols as int),
                    0 <= (n - 1) % (cols as int) < cols,
            ;
            assert(is_grid(n as int, cols as int, rows as int));
        }

        let cell = Size::new(cell_extent(a, view_size.w, cols), cell_extent(a, view_size.h, rows));
        assert(is_cell(a, view_size, cols as int, rows as int, cell));
        let zero = Number::zero();
        if cell.w.is_le(zero) || cell.h.is_le(zero) {
            // The view is too small for the padding.
            return Self::empty();
        }

        let height = row_height(a, view_size, rows);
        let placed = place(a, items, height);
        let less = |p: &Placed<Id>, q: &Placed<Id>| -> (r: bool)
            ensures
                r == reading_order::<Id>()(*p, *q),
            { p.row < q.row || (p.row == q.row && p.x.is_lt(q.x)) };
        let sorted = stable_sort(placed, less, Ghost(reading_order::<Id>()));
        let ghost order = sorted@;
        proof {
            assert(is_reading_order(a, all, view_size, rows as int, order));
        }

        let room = room(a, n, view_size, cell);
        let mut windows: Vec<ExposedWindow<Id>> = Vec::new();
        let mut row: usize = 0;
        let mut col: usize = 0;
        let last: usize = n - (rows - 1) * cols;
        assert(rows * cols == (rows - 1) * cols + cols) by (nonlinear_arith);
        for entry in it: sorted.into_iter()
            invariant
                it.seq() == order,
                order.len() == n,
                windows@.len() == it.index(),
                is_grid(n as int, cols as int, rows as int),
                last == n - (rows - 1) * cols,
                last <= cols,
                row * cols + col == it.index(),
                0 <= col < cols,
                forall|i: int|
                    0 <= i < windows@.len() ==> is_in_cell(
                        a,
                        n as int,
                        cols as int,
                        rows as int,
                        cell,
                        room,
                        i,
                        order[i].item,
                        #[trigger] windows@[i],
                    ),
        {
            let ghost i = it.index();
            proof {
                lemma_cell(n as int, cols as int, rows as int, i);
                vstd::arithmetic::div_mod::lemma_fundamental_div_mod_converse(
                    i,
                    cols as int,
                    row as int,
                    col as int,
                );
            }
            // Center the last row if it has fewer windows.
            let in_row: usize = if row == rows - 1 {
                last
            } else {
                cols
            };
            assert(rows * cols == (rows - 1) * cols + cols) by (nonlinear_arith);
            let offset = row_offset(a, cell.w, cols - in_row);
            assert(cols - in_row == missing(n as int, cols as int, rows as int, row as int));
            let base = a.sum(Number::new(PADDING), offset);
            let slot = Point::new(
                slot_center(a, cell.w, base, col),
                slot_center(a, cell.h, Number::new(PADDING), row),
            );
            assert(is_slot(
                a,
                n as int,
                cols as int,
                rows as int,
                cell,
                i / (cols as int),
                i % (cols as int),
                slot,
            ));
            windows.push(expose_window(a, room, slot, entry.item));
            col += 1;
            if col == cols {
                assert((row + 1) * cols == row * cols + cols) by (nonlinear_arith);
                col = 0;
                row += 1;
            }
        }
        ExposeLayout { windows, cols, rows, selected_idx: 0 }
    }

    /// Arranges windows in a grid, so that those whose centers are further up and further left come
    /// first. A single window takes three quarters of the view along the limiting side.
    ///
    /// `windows` are identifiers, positions and sizes, and `view_size` the size of the output.
    /// There is no layout where the view has no proportions.
    pub fn compute<A: Arithmetic>(a: &A, windows: Vec<Item<Id>>, view_size: Size) -> (layout: Option<
        ExposeLayout<Id>,
    >)
        ensures
            is_computed(a, windows@, view_size, layout),
            layout matches Some(layout) ==> layout.wf(),
    {
        let n: usize = windows.len();
        if n == 0 {
            return Some(Self::empty());
        }
        let cols = Self::column_count(a, n, view_size);
        if cols == 0 {
            return None;
        }
        Some(Self::arrange(a, windows, view_size, cols))
    }
}

/// `layout` shows the windows in a grid whose number of columns goes with the view. There is none
/// where the view has no proportions.
pub open spec fn is_computed<Id, A: Arithmetic>(
    a: &A,
    items: Seq<Item<Id>>,
    view: Size,
    layout: Option<ExposeLayout<Id>>,
) -> bool {
    &&& items.len() == 0 ==> layout is Some && is_empty_layout(layout->0)
    &&& items.len() > 0 ==> exists|cols: int| #[trigger]
        is_column_count(a, items.len() as int, view, cols) && match layout {
            Some(layout) => 0 < cols && is_arranged(a, items, view, cols, layout),
            None => cols == 0,
        }
}

/// `r` lies between `from` and `to`, at the share `t` of the way.
pub open spec fn is_lerp<A: Arithmetic>(
    a: &A,
    from: Number,
    to: Number,
    t: Number,
    r: Number,
) -> bool {
    exists|way: Number, part: Number|
        #![trigger is_difference(a, to, from, way), is_product(a, way, t, part)]
        is_difference(a, to, from, way) && is_product(a, way, t, part) && is_sum(a, from, part, r)
}

/// `r` lies between two points, at the share `t` of the way.
pub open spec fn is_lerp_point<A: Arithmetic>(
    a: &A,
    from: Point,
    to: Point,
    t: Number,
    r: Point,
) -> bool {
    is_lerp(a, from.x, to.x, t, r.x) && is_lerp(a, from.y, to.y, t, r.y)
}

/// Linear interpolation between two numbers.
pub fn lerp<A: Arithmetic>(a: &A, from: Number, to: Number, t: Number) -> (r: Number)
    ensures
        is_lerp(a, from, to, t, r),
{
    let way = a.difference(to, from);
    let part = a.product(way, t);
    a.sum(from, part)
}

/// Linear interpolation between two points.
pub fn lerp_point<A: Arithmetic>(a: &A, from: Point, to: Point, t: Number) -> (r: Point)
    ensures
        is_lerp_point(a, from, to, t, r),
{
    Point::new(lerp(a, from.x, to.x, t), lerp(a, from.y, to.y, t))
}

/// `area` is where a window is on its way into the expose view.
pub open spec fn is_current_area<Id, A: Arithmetic>(
    a: &A,
    exposed: ExposedWindow<Id>,
    progress: Number,
    area: Rectangle,
) -> bool {
    &&& is_lerp_point(a, exposed.original_pos, exposed.target_pos, progress, area.loc)
    &&& exists|scale: Number| #[trigger]
        is_lerp(a, one(), exposed.target_scale, progress, scale) && is_product(
            a,
            exposed.tile_size.w,
            scale,
            area.size.w,
        ) && is_product(a, exposed.tile_size.h, scale, area.size.h)
}

/// `covers` tells whether the window covers the point.
pub open spec fn is_covering<Id, A: Arithmetic>(
    a: &A,
    exposed: ExposedWindow<Id>,
    progress: Number,
    point: Point,
    covers: bool,
) -> bool {
    exists|area: Rectangle| #[trigger]
        is_current_area(a, exposed, progress, area) && is_inside(a, area, point, covers)
}

/// The window at `i` covers the point and none above it does.
pub open spec fn is_on_top_at<Id, A: Arithmetic>(
    a: &A,
    windows: Seq<ExposedWindow<Id>>,
    point: Point,
    progress: Number,
    i: int,
) -> bool {
    &&& 0 <= i < windows.len()
    &&& is_covering(a, windows[i], progress, point, true)
    &&& forall|j: int|
        i < j < windows.len() ==> is_covering(a, #[trigger] windows[j], progress, point, false)
}

/// `found` is the window that covers the point, the last one where several do.
pub open spec fn is_found_at<Id, A: Arithmetic>(
    a: &A,
    windows: Seq<ExposedWindow<Id>>,
    point: Point,
    progress: Number,
    found: Option<Id>,
) -> bool {
    match found {
        Some(id) => exists|i: int| #[trigger]
            is_on_top_at(a, windows, point, progress, i) && id == windows[i].id,
        None => forall|j: int|
            0 <= j < windows.len() ==> is_covering(a, #[trigger] windows[j], progress, point, false),
    }
}

impl<Id> ExposeLayout<Id> {
    /// The window that covers a point while the expose view is open to the share `progress`. The
    /// last one wins where several do.
    pub fn window_at<A: Arithmetic>(&self, a: &A, point: Point, progress: Number) -> (found: Option<
        &Id,
    >)
        ensures
            is_found_at(
                a,
                self.windows@,
                point,
                progress,
                match found {
                    Some(id) => Some(*id),
                    None => None,
                },
            ),
    {
        let mut i: usize = self.windows.len();
        while i > 0
            invariant
                i <= self.windows.len(),
                forall|j: int|
                    i <= j < self.windows@.len() ==> is_covering(
                        a,
                        #[trigger] self.windows@[j],
                        progress,
                        point,
                        false,
                    ),
            decreases i,
        {
            i -= 1;
            let exposed = &self.windows[i];
            let pos = lerp_point(a, exposed.original_pos, exposed.target_pos, progress);
            let scale = lerp(a, Number::new(ONE), exposed.target_scale, progress);
            let w = a.product(exposed.tile_size.w, scale);
            let h = a.product(exposed.tile_size.h, scale);
            let area = Rectangle::new(pos, Size::new(w, h));
            assert(is_lerp(a, one(), exposed.target_scale, progress, scale));
            assert(is_current_area(a, *exposed, progress, area));
            if area.contains(a, point) {
                assert(is_on_top_at(a, self.windows@, point, progress, i as int));
                return Some(&exposed.id);
            }
        }
        None
    }
}

} // verus!
