use vstd::prelude::*;

use crate::document::{row_view, CellView, ParsedHtmlTableRow};

verus! {

/// The most columns a table lays out.
pub const MAX_TABLE_COLUMNS: usize = 1000;

/// The first column from `column` on that `row` does not mark as occupied.
pub open spec fn skip_occupied(row: Seq<bool>, column: int) -> int
    decreases row.len() - column,
{
    if 0 <= column < row.len() && row[column] {
        skip_occupied(row, column + 1)
    } else {
        column
    }
}

/// `row` resized to `width` columns, new columns free.
pub open spec fn resized(row: Seq<bool>, width: int) -> Seq<bool> {
    Seq::new(width as nat, |i: int| i < row.len() && row[i])
}

/// `row` resized to `width` columns, with columns `from..to` occupied.
pub open spec fn occupy(row: Seq<bool>, width: int, from: int, to: int) -> Seq<bool> {
    Seq::new(width as nat, |i: int| (from <= i < to) || (i < row.len() && row[i]))
}

/// Where a cell lands in a row, and the grid and column count after it:
/// `None` when no column is left for it.
pub open spec fn place_cell(
    grid: Seq<Seq<bool>>,
    count: int,
    row_index: int,
    column: int,
    cell: CellView,
) -> Option<(Seq<Seq<bool>>, int, int)> {
    let start = skip_occupied(grid[row_index], column);
    let wanted = if cell.col_span >= 1 {
        cell.col_span as int
    } else {
        1
    };
    let left = if start <= MAX_TABLE_COLUMNS {
        MAX_TABLE_COLUMNS - start
    } else {
        0
    };
    let col_span = if wanted <= left {
        wanted
    } else {
        left
    };
    if col_span == 0 {
        None
    } else {
        let rows_left = grid.len() - row_index;
        let row_span = if cell.row_span <= rows_left {
            if cell.row_span >= 1 {
                cell.row_span as int
            } else {
                1
            }
        } else {
            rows_left
        };
        let end = start + col_span;
        let widest = if count >= end {
            count
        } else {
            end
        };
        let new_count = if widest <= MAX_TABLE_COLUMNS {
            widest
        } else {
            MAX_TABLE_COLUMNS as int
        };
        let new_grid = Seq::new(
            grid.len(),
            |r: int|
                if row_index <= r < row_index + row_span {
                    occupy(grid[r], new_count, start, end)
                } else {
                    grid[r]
                },
        );
        Some((new_grid, new_count, end))
    }
}

/// The grid and column count after the cells of row `row_index` from the
/// `k`-th on, the next free search starting at `column`.
pub open spec fn place_row(
    grid: Seq<Seq<bool>>,
    count: int,
    row_index: int,
    cells: Seq<CellView>,
    k: int,
    column: int,
) -> (Seq<Seq<bool>>, int)
    decreases cells.len() - k,
{
    if k < 0 || k >= cells.len() {
        (grid, count)
    } else {
        match place_cell(grid, count, row_index, column, cells[k]) {
            None => (grid, count),
            Some((g, c, next)) => place_row(g, c, row_index, cells, k + 1, next),
        }
    }
}

/// The grid and column count after the rows from `i` on.
pub open spec fn place_rows(rows: Seq<Seq<CellView>>, grid: Seq<Seq<bool>>, count: int, i: int) -> (Seq<Seq<bool>>, int)
    decreases rows.len() - i,
{
    if i < 0 || i >= rows.len() {
        (grid, count)
    } else {
        let (g, c) = place_row(grid, count, i, rows[i], 0, 0);
        place_rows(rows, g, c, i + 1)
    }
}

/// The number of columns that `rows` lay out: cells fill the free columns
/// of their row left to right, spanning their columns and rows (at least
/// one of each, rows clamped to the table), and no table is wider than
/// [`MAX_TABLE_COLUMNS`].
pub open spec fn column_count(rows: Seq<Seq<CellView>>) -> int {
    place_rows(rows, Seq::new(rows.len(), |_r: int| Seq::<bool>::empty()), 0, 0).1
}


/// The occupancy grid that `occupied` holds.
pub open spec fn grid_of(occupied: Seq<Vec<bool>>) -> Seq<Seq<bool>> {
    occupied.map_values(|row: Vec<bool>| row@)
}

/// Every row of `grid` is at most `MAX_TABLE_COLUMNS` wide.
pub open spec fn rows_bounded(grid: Seq<Seq<bool>>) -> bool {
    forall|r: int| 0 <= r < grid.len() ==> (#[trigger] grid[r]).len() <= MAX_TABLE_COLUMNS
}

/// A fresh row of `width` columns with `from..to` occupied and the rest as
/// in `row`.
fn occupied_row(row: &Vec<bool>, width: usize, from: usize, to: usize) -> (fresh: Vec<bool>)
    ensures
        fresh@ == occupy(row@, width as int, from as int, to as int),
{
    let mut fresh: Vec<bool> = Vec::new();
    let mut i: usize = 0;
    while i < width
        invariant
            i <= width,
            fresh@ =~= Seq::new(i as nat, |j: int| (from <= j < to) || (j < row@.len() && row@[j])),
        decreases width - i,
    {
        let taken = (from <= i && i < to) || (i < row.len() && row[i]);
        fresh.push(taken);
        i += 1;
    }
    fresh
}

/// The number of columns that an HTML table's rows lay out (see
/// [`column_count`]), counting the columns that row spans keep occupied.
pub fn html_table_column_count(rows: &Vec<ParsedHtmlTableRow>) -> (count: usize)
    ensures
        count == column_count(rows@.map_values(|r: ParsedHtmlTableRow| row_view(r))),
{
    let ghost views = rows@.map_values(|r: ParsedHtmlTableRow| row_view(r));
    let n = rows.len();
    let mut occupied: Vec<Vec<bool>> = Vec::new();
    let mut q: usize = 0;
    while q < n
        invariant
            q <= n == rows@.len(),
            grid_of(occupied@) =~= Seq::new(q as nat, |_r: int| Seq::<bool>::empty()),
        decreases n - q,
    {
        let fresh: Vec<bool> = Vec::new();
        let ghost before = occupied@;
        occupied.push(fresh);
        proof {
            assert(grid_of(occupied@) =~= grid_of(before).push(fresh@));
        }
        q += 1;
    }
    let ghost initial = grid_of(occupied@);
    let mut count: usize = 0;
    let mut i: usize = 0;
    while i < n
        invariant
            i <= n == rows@.len() == views.len(),
            views == rows@.map_values(|r: ParsedHtmlTableRow| row_view(r)),
            initial == Seq::new(n as nat, |_r: int| Seq::<bool>::empty()),
            occupied@.len() == n,
            count <= MAX_TABLE_COLUMNS,
            rows_bounded(grid_of(occupied@)),
            place_rows(views, grid_of(occupied@), count as int, i as int) == place_rows(views, initial, 0, 0),
        decreases n - i,
    {
        let row = &rows[i];
        let ghost cells = views[i as int];
        let ghost row_grid = grid_of(occupied@);
        let ghost row_count = count as int;
        assert(cells == row_view(*row));
        let cell_count = row.cells.len();
        let mut k: usize = 0;
        let mut column: usize = 0;
        let mut done = false;
        while k < cell_count && !done
            invariant
                i < n == rows@.len() == views.len(),
                occupied@.len() == n,
                cells == views[i as int],
                cells == row_view(*row),
                cell_count == cells.len(),
                k <= cell_count,
                count <= MAX_TABLE_COLUMNS,
                column <= MAX_TABLE_COLUMNS,
                rows_bounded(grid_of(occupied@)),
                done ==> place_row(row_grid, row_count, i as int, cells, 0, 0) == (grid_of(occupied@), count as int),
                !done ==> place_row(row_grid, row_count, i as int, cells, 0, 0) == place_row(
                    grid_of(occupied@),
                    count as int,
                    i as int,
                    cells,
                    k as int,
                    column as int,
                ),
            decreases cell_count - k,
        {
            let cell = &row.cells[k];
            assert(cells[k as int] == crate::document::cell_view(*cell));
            let ghost grid = grid_of(occupied@);
            let mut start = column;
            while start < occupied[i].len() && occupied[i][start]
                invariant
                    i < occupied@.len(),
                    grid == grid_of(occupied@),
                    column <= start <= MAX_TABLE_COLUMNS,
                    grid[i as int].len() <= MAX_TABLE_COLUMNS,
                    skip_occupied(grid[i as int], column as int) == skip_occupied(grid[i as int], start as int),
                decreases MAX_TABLE_COLUMNS - start,
            {
                start += 1;
            }
            let wanted = if cell.col_span >= 1 {
                cell.col_span
            } else {
                1
            };
            let left = MAX_TABLE_COLUMNS - start;
            let col_span = if wanted <= left {
                wanted
            } else {
                left
            };
            if col_span == 0 {
                done = true;
            } else {
                let rows_left = n - i;
                let row_span = if cell.row_span <= rows_left {
                    if cell.row_span >= 1 {
                        cell.row_span
                    } else {
                        1
                    }
                } else {
                    rows_left
                };
                let end = start + col_span;
                let new_count = if count >= end {
                    count
                } else {
                    end
                };
                let mut r = i;
                while r < i + row_span
                    invariant
                        i <= r <= i + row_span <= n,
                        occupied@.len() == n,
                        new_count <= MAX_TABLE_COLUMNS,
                        grid_of(occupied@) =~= Seq::new(
                            n as nat,
                            |p: int|
                                if i <= p < r {
                                    occupy(grid[p], new_count as int, start as int, end as int)
                                } else {
                                    grid[p]
                                },
                        ),
                    decreases i + row_span - r,
                {
                    let ghost before = occupied@;
                    assert(grid_of(before)[r as int] == grid[r as int]);
                    let fresh = occupied_row(&occupied[r], new_count, start, end);
                    occupied.set(r, fresh);
                    proof {
                        assert(grid_of(occupied@) =~= grid_of(before).update(r as int, fresh@));
                    }
                    r += 1;
                }
                count = new_count;
                column = end;
            }
            k += 1;
        }
        proof {
            if !done {
                assert(place_row(grid_of(occupied@), count as int, i as int, cells, k as int, column as int) == (grid_of(occupied@), count as int));
            }
        }
        i += 1;
    }
    proof {
        assert(place_rows(views, grid_of(occupied@), count as int, n as int) == (grid_of(occupied@), count as int));
    }
    count
}


/// `count` is within the cap and no row of `grid` is wider than it.
pub open spec fn grid_within(grid: Seq<Seq<bool>>, count: int) -> bool {
    &&& 0 <= count <= MAX_TABLE_COLUMNS
    &&& forall|r: int| 0 <= r < grid.len() ==> (#[trigger] grid[r]).len() <= count
}

pub open spec fn min_int(a: int, b: int) -> int {
    if a <= b {
        a
    } else {
        b
    }
}

proof fn lemma_skip_occupied_bounds(row: Seq<bool>, column: int)
    requires
        0 <= column,
    ensures
        column <= skip_occupied(row, column),
        skip_occupied(row, column) <= column || skip_occupied(row, column) <= row.len(),
    decreases row.len() - column,
{
    if 0 <= column < row.len() && row[column] {
        lemma_skip_occupied_bounds(row, column + 1);
    }
}

proof fn lemma_place_row(
    grid: Seq<Seq<bool>>,
    count: int,
    row_index: int,
    cells: Seq<CellView>,
    k: int,
    column: int,
)
    requires
        grid_within(grid, count),
        0 <= row_index < grid.len(),
        0 <= column <= count,
        0 <= k <= cells.len(),
    ensures
        grid_within(place_row(grid, count, row_index, cells, k, column).0, place_row(grid, count, row_index, cells, k, column).1),
        place_row(grid, count, row_index, cells, k, column).0.len() == grid.len(),
        place_row(grid, count, row_index, cells, k, column).1 >= count,
        place_row(grid, count, row_index, cells, k, column).1 >= min_int(
            column + cells.len() - k,
            MAX_TABLE_COLUMNS as int,
        ),
    decreases cells.len() - k,
{
    if k < cells.len() {
        lemma_skip_occupied_bounds(grid[row_index], column);
        match place_cell(grid, count, row_index, column, cells[k]) {
            None => {},
            Some((g, c, next)) => {
                assert(grid_within(g, c)) by {
                    assert forall|r: int| 0 <= r < g.len() implies (#[trigger] g[r]).len() <= c by {
                        assert(grid[r].len() <= count);
                    }
                }
                lemma_place_row(g, c, row_index, cells, k + 1, next);
            },
        }
    }
}

proof fn lemma_place_rows(rows: Seq<Seq<CellView>>, grid: Seq<Seq<bool>>, count: int, i: int)
    requires
        grid_within(grid, count),
        grid.len() == rows.len(),
        0 <= i <= rows.len(),
    ensures
        0 <= place_rows(rows, grid, count, i).1 <= MAX_TABLE_COLUMNS,
        place_rows(rows, grid, count, i).1 >= count,
        forall|j: int|
            i <= j < rows.len() ==> place_rows(rows, grid, count, i).1 >= min_int(
                (#[trigger] rows[j]).len() as int,
                MAX_TABLE_COLUMNS as int,
            ),
    decreases rows.len() - i,
{
    if i < rows.len() {
        lemma_place_row(grid, count, i, rows[i], 0, 0);
        let (g, c) = place_row(grid, count, i, rows[i], 0, 0);
        lemma_place_rows(rows, g, c, i + 1);
    }
}

/// A table lays out at most [`MAX_TABLE_COLUMNS`] columns, and at least as
/// many as any of its rows has cells, up to that cap.
pub proof fn lemma_column_count_bounds(rows: Seq<Seq<CellView>>)
    ensures
        0 <= column_count(rows) <= MAX_TABLE_COLUMNS,
        forall|j: int|
            0 <= j < rows.len() ==> column_count(rows) >= min_int(
                (#[trigger] rows[j]).len() as int,
                MAX_TABLE_COLUMNS as int,
            ),
{
    lemma_place_rows(rows, Seq::new(rows.len(), |_r: int| Seq::<bool>::empty()), 0, 0);
}

} // verus!
