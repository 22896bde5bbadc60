//! The geometry of the grid in which the items of a page are laid out.

use vstd::prelude::*;
use crate::Rect;
use crate::label::LABEL_COUNT;

verus! {

/// The cells that the code takes beside an item's text: two brackets and two
/// letters.
pub const DECORATION: usize = 4;

/// The width of an item on the screen: its code in brackets, then its text.
pub open spec fn rendered_width_of(text_len: nat) -> nat {
    text_len + 4
}

/// The width of a cell that holds items up to `item_width`: one column more,
/// to part it from the next cell.
pub open spec fn cell_width_of(item_width: nat) -> nat {
    item_width + 1
}

/// A width as a machine number holds it: itself, or the largest number there
/// is where it is larger still.
pub open spec fn held(width: nat) -> nat {
    if width <= usize::MAX {
        width
    } else {
        usize::MAX as nat
    }
}

/// The cells of a rectangle at full height, each as wide as `item_width`; a
/// width of zero counts as one.
pub open spec fn capacity_of(bounds: Rect, item_width: nat) -> nat {
    (bounds.width as nat / (if item_width == 0 {
        1
    } else {
        item_width
    })) * bounds.height as nat
}

/// The items that go on one page: the capacity, but never more than there are
/// codes.
pub open spec fn page_capacity_of(bounds: Rect, item_width: nat) -> nat {
    if capacity_of(bounds, item_width) > 676 {
        676
    } else {
        capacity_of(bounds, item_width)
    }
}

/// `count` divided by `size`, rounded up; zero where `size` is zero.
pub open spec fn ceil_div(count: nat, size: nat) -> nat {
    if size == 0 {
        0
    } else if count % size == 0 {
        count / size
    } else {
        count / size + 1
    }
}

/// The columns that `item_count` items fill with `rows` items in each.
pub open spec fn columns_needed(item_count: nat, rows: nat) -> nat {
    ceil_div(item_count, rows)
}

/// Whether the items fit into the width when each column holds `rows` of them.
pub open spec fn fits(bounds: Rect, item_count: nat, cell_width: nat, rows: nat) -> bool {
    rows > 0 && columns_needed(item_count, rows) * cell_width <= bounds.width
}

/// Whether `rows` is the number of rows to lay the items out with: the least
/// number from half the height to the height with which they fit, or the
/// height where they fit with none.
pub open spec fn is_rows_per_column(
    bounds: Rect,
    item_count: nat,
    cell_width: nat,
    rows: nat,
) -> bool {
    let low = bounds.height as nat / 2;
    let high = bounds.height as nat;
    if exists|r: nat| low <= r <= high && fits(bounds, item_count, cell_width, r) {
        &&& low <= rows <= high
        &&& fits(bounds, item_count, cell_width, rows)
        &&& forall|r: nat| low <= r < rows ==> !fits(bounds, item_count, cell_width, r)
    } else {
        rows == high
    }
}

/// The least number of rows from `from` to the height with which the items
/// fit, or the height where they fit with none of them.
pub open spec fn first_fit(bounds: Rect, item_count: nat, cell_width: nat, from: nat) -> nat
    decreases bounds.height + 1 - from,
{
    if from > bounds.height {
        bounds.height as nat
    } else if fits(bounds, item_count, cell_width, from) {
        from
    } else {
        first_fit(bounds, item_count, cell_width, from + 1)
    }
}

/// The number of rows in each column: the search starts at half the height.
pub open spec fn rows_per_column_of(bounds: Rect, item_count: nat, cell_width: nat) -> nat {
    first_fit(bounds, item_count, cell_width, bounds.height as nat / 2)
}

/// The shape of the grid for one draw.
#[derive(Debug, Clone, Copy, PartialEq, Eq, Structural)]
pub struct Grid {
    pub columns: usize,
    pub rows_per_column: u16,
    pub cell_width: usize,
}

/// The grid for `item_count` items, the widest of them `item_width` wide.
pub open spec fn grid_of(bounds: Rect, item_count: nat, item_width: nat) -> Grid {
    let width = held(cell_width_of(item_width));
    let rows = rows_per_column_of(bounds, item_count, width);
    Grid {
        columns: columns_needed(item_count, rows) as usize,
        rows_per_column: rows as u16,
        cell_width: width as usize,
    }
}

/// Where the item at `index` goes: column `index / rows`, row `index % rows`,
/// counted from the rectangle's corner and below a header. Nothing where the
/// grid has no rows or the place is beyond what a screen can address.
pub open spec fn position_of(bounds: Rect, header_height: u16, grid: Grid, index: nat) -> Option<
    (u16, u16),
> {
    if grid.rows_per_column == 0 {
        None
    } else {
        let x = bounds.x + (index / grid.rows_per_column as nat) * grid.cell_width;
        let y = bounds.y + header_height + index % grid.rows_per_column as nat;
        if x <= u16::MAX && y <= u16::MAX {
            Some((x as u16, y as u16))
        } else {
            None
        }
    }
}

/// The width of an item whose text has `text_len` characters.
pub fn rendered_width(text_len: usize) -> (w: usize)
    ensures
        w == held(rendered_width_of(text_len as nat)),
{
    text_len.saturating_add(DECORATION)
}

/// The width of the cells for items up to `item_width`.
pub fn cell_width(item_width: usize) -> (w: usize)
    ensures
        w == held(cell_width_of(item_width as nat)),
{
    item_width.saturating_add(1)
}

/// How many cells a rectangle has at full height.
pub fn capacity(bounds: Rect, item_width: usize) -> (c: usize)
    ensures
        c == capacity_of(bounds, item_width as nat),
{
    let width: usize = if item_width == 0 {
        1
    } else {
        item_width
    };
    let per_row: usize = bounds.width as usize / width;
    assert(per_row <= 65535) by (nonlinear_arith)
        requires
            per_row == bounds.width as usize / width,
            width >= 1,
            bounds.width <= 65535,
    ;
    assert(per_row * bounds.height <= 65535 * 65535) by (nonlinear_arith)
        requires
            per_row <= 65535,
            bounds.height <= 65535,
    ;
    per_row * (bounds.height as usize)
}

/// How many items go on one page.
pub fn page_capacity(bounds: Rect, item_width: usize) -> (c: usize)
    ensures
        c == page_capacity_of(bounds, item_width as nat),
        c <= 676,
{
    let c = capacity(bounds, item_width);
    if c > LABEL_COUNT {
        LABEL_COUNT
    } else {
        c
    }
}

/// How many columns the items fill.
pub fn columns(item_count: usize, rows: u16) -> (c: usize)
    ensures
        c == columns_needed(item_count as nat, rows as nat),
{
    if rows == 0 {
        0
    } else if item_count % (rows as usize) == 0 {
        item_count / (rows as usize)
    } else {
        assert(rows >= 2);
        assert(item_count as int / rows as int <= item_count as int / 2) by (nonlinear_arith)
            requires
                rows >= 2,
                item_count >= 0,
        ;
        item_count / (rows as usize) + 1
    }
}

/// Whether the items fit with `rows` in each column.
pub fn fits_in(bounds: Rect, item_count: usize, cell_width: usize, rows: u16) -> (r: bool)
    ensures
        r == fits(bounds, item_count as nat, cell_width as nat, rows as nat),
{
    if rows == 0 {
        return false;
    }
    match columns(item_count, rows).checked_mul(cell_width) {
        Some(total) => total <= bounds.width as usize,
        None => false,
    }
}

/// The search for the number of rows ends within the height.
pub proof fn lemma_first_fit_bounds(bounds: Rect, item_count: nat, cell_width: nat, from: nat)
    requires
        from <= bounds.height,
    ensures
        from <= first_fit(bounds, item_count, cell_width, from) <= bounds.height,
    decreases bounds.height + 1 - from,
{
    if from < bounds.height && !fits(bounds, item_count, cell_width, from) {
        lemma_first_fit_bounds(bounds, item_count, cell_width, from + 1);
    } else if from == bounds.height {
        assert(first_fit(bounds, item_count, cell_width, from + 1) == bounds.height);
    }
}

/// What the search finds: the items fit with the number of rows it gives and
/// with no smaller number from `from` on, or they fit with none and it gives
/// the height.
pub proof fn lemma_first_fit_is_least(bounds: Rect, item_count: nat, cell_width: nat, from: nat)
    requires
        from <= bounds.height,
    ensures
        ({
            let rows = first_fit(bounds, item_count, cell_width, from);
            if exists|r: nat| from <= r <= bounds.height && fits(bounds, item_count, cell_width, r) {
                &&& from <= rows <= bounds.height
                &&& fits(bounds, item_count, cell_width, rows)
                &&& forall|r: nat| from <= r < rows ==> !fits(bounds, item_count, cell_width, r)
            } else {
                rows == bounds.height
            }
        }),
    decreases bounds.height + 1 - from,
{
    if fits(bounds, item_count, cell_width, from) {
    } else if from < bounds.height {
        lemma_first_fit_is_least(bounds, item_count, cell_width, from + 1);
        let rows = first_fit(bounds, item_count, cell_width, from + 1);
        if exists|r: nat| from <= r <= bounds.height && fits(bounds, item_count, cell_width, r) {
            let r = choose|r: nat|
                from <= r <= bounds.height && fits(bounds, item_count, cell_width, r);
            assert(from + 1 <= r <= bounds.height && fits(bounds, item_count, cell_width, r));
        }
    } else {
        assert(first_fit(bounds, item_count, cell_width, from + 1) == bounds.height);
    }
}

/// The number of rows in each column is the least from half the height to
/// the height with which the items fit, or the height.
pub proof fn lemma_rows_per_column(bounds: Rect, item_count: nat, cell_width: nat)
    ensures
        is_rows_per_column(
            bounds,
            item_count,
            cell_width,
            rows_per_column_of(bounds, item_count, cell_width),
        ),
{
    lemma_first_fit_is_least(bounds, item_count, cell_width, bounds.height as nat / 2);
}

/// Where the items fit, each cell lies within the width and the rows within
/// the number of rows: item `index` stands in a column that ends at or
/// before the right edge.
pub proof fn lemma_cells_inside(
    bounds: Rect,
    item_count: nat,
    cell_width: nat,
    rows: nat,
    index: nat,
)
    requires
        fits(bounds, item_count, cell_width, rows),
        index < item_count,
    ensures
        index / rows < columns_needed(item_count, rows),
        (index / rows + 1) * cell_width <= bounds.width,
        index % rows < rows,
{
    let q = item_count / rows;
    let r = item_count % rows;
    let c = index / rows;
    assert(item_count == q * rows + r && 0 <= r < rows) by (nonlinear_arith)
        requires
            q == item_count / rows,
            r == item_count % rows,
            rows > 0,
    ;
    assert(index >= c * rows) by (nonlinear_arith)
        requires
            c == index / rows,
            rows > 0,
    ;
    assert(c < columns_needed(item_count, rows)) by (nonlinear_arith)
        requires
            index >= c * rows,
            index < item_count,
            item_count == q * rows + r,
            0 <= r < rows,
            rows > 0,
            columns_needed(item_count, rows) == if r == 0 {
                q
            } else {
                q + 1
            },
    ;
    assert((c + 1) * cell_width <= columns_needed(item_count, rows) * cell_width)
        by (nonlinear_arith)
        requires
            c + 1 <= columns_needed(item_count, rows),
    ;
}

/// Two items never share a cell.
pub proof fn lemma_cells_distinct(rows: nat, i: nat, j: nat)
    requires
        rows > 0,
        i != j,
    ensures
        i / rows != j / rows || i % rows != j % rows,
{
    assert(i == (i / rows) * rows + i % rows) by (nonlinear_arith)
        requires
            rows > 0,
    ;
    assert(j == (j / rows) * rows + j % rows) by (nonlinear_arith)
        requires
            rows > 0,
    ;
}

/// Two items that have a place on the screen have different places, as long
/// as the cells have any width.
pub proof fn lemma_positions_distinct(bounds: Rect, header_height: u16, grid: Grid, i: nat, j: nat)
    requires
        grid.cell_width > 0,
        i != j,
        position_of(bounds, header_height, grid, i) is Some,
        position_of(bounds, header_height, grid, j) is Some,
    ensures
        position_of(bounds, header_height, grid, i) != position_of(bounds, header_height, grid, j),
{
    let rows = grid.rows_per_column as nat;
    let w = grid.cell_width as nat;
    lemma_cells_distinct(rows, i, j);
    let a = (i / rows) as int;
    let b = (j / rows) as int;
    if a < b {
        assert(a * w < b * w) by (nonlinear_arith)
            requires
                a < b,
                w > 0,
        ;
    } else if b < a {
        assert(b * w < a * w) by (nonlinear_arith)
            requires
                b < a,
                w > 0,
        ;
    }
}

/// The number of rows in each column for this draw.
pub fn rows_per_column(bounds: Rect, item_count: usize, cell_width: usize) -> (rows: u16)
    ensures
        rows == rows_per_column_of(bounds, item_count as nat, cell_width as nat),
{
    let low: u16 = bounds.height / 2;
    let mut r: u16 = low;
    while r <= bounds.height
        invariant
            low == bounds.height / 2,
            low <= r,
            r <= bounds.height + 1,
            rows_per_column_of(bounds, item_count as nat, cell_width as nat) == first_fit(
                bounds,
                item_count as nat,
                cell_width as nat,
                r as nat,
            ),
        decreases bounds.height + 1 - r,
    {
        if fits_in(bounds, item_count, cell_width, r) {
            return r;
        }
        if r == bounds.height {
            assert(first_fit(bounds, item_count as nat, cell_width as nat, r as nat + 1)
                == bounds.height);
            return bounds.height;
        }
        r += 1;
    }
    bounds.height
}

impl Grid {
    /// The grid for `item_count` items, the widest of them `item_width` wide.
    pub fn fit(bounds: Rect, item_count: usize, item_width: usize) -> (g: Grid)
        ensures
            g == grid_of(bounds, item_count as nat, item_width as nat),
    {
        let width = cell_width(item_width);
        let rows = rows_per_column(bounds, item_count, width);
        proof {
            lemma_first_fit_bounds(
                bounds,
                item_count as nat,
                width as nat,
                bounds.height as nat / 2,
            );
        }
        Grid { columns: columns(item_count, rows), rows_per_column: rows, cell_width: width }
    }

    /// Where the item at `index` goes on the screen.
    pub fn position(&self, bounds: Rect, header_height: u16, index: usize) -> (p: Option<
        (u16, u16),
    >)
        ensures
            p == position_of(bounds, header_height, *self, index as nat),
    {
        if self.rows_per_column == 0 {
            return None;
        }
        let rows: usize = self.rows_per_column as usize;
        let column: usize = index / rows;
        let row: usize = index % rows;
        let y: u32 = bounds.y as u32 + header_height as u32 + row as u32;
        if y > 65535 {
            return None;
        }
        match column.checked_mul(self.cell_width) {
            Some(offset) => {
                if offset > 65535 - (bounds.x as usize) {
                    None
                } else {
                    Some(((bounds.x as usize + offset) as u16, y as u16))
                }
            },
            None => None,
        }
    }
}

} // verus!
