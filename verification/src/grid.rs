//! The body of a matrix: measured cells arranged in rows and columns.
//!
//! Every row of the grid is a band as high as its highest cell ascent and
//! its deepest cell descent. Every column is as wide as its merged
//! alignment makes it. Bands and columns follow one another with fixed
//! gaps.

use vstd::prelude::*;
use crate::align::{alignment_model, alignments, row_models};
use crate::frame::{Frame, FrameModel, ItemModel, Point, Size};
use crate::length::{clamp, half, halved, larger, larger_of, minus, plus, times, Abs};
use crate::row::{aligned_frame, row_ascent, row_descent, Align, MathRow, RowModel};
use crate::stack::gaps_between;

verus! {

/// The measured cells of a matrix, row by row.
pub type GridModel = Seq<Seq<RowModel>>;

/// The largest ascent among the first `m` cells of a row of the grid.
pub open spec fn band_ascent(cells: Seq<RowModel>, m: nat) -> Abs
    decreases m,
{
    if m == 0 {
        0
    } else {
        larger_of(band_ascent(cells, (m - 1) as nat), row_ascent(cells[m - 1]))
    }
}

/// The largest descent among the first `m` cells of a row of the grid.
pub open spec fn band_descent(cells: Seq<RowModel>, m: nat) -> Abs
    decreases m,
{
    if m == 0 {
        0
    } else {
        larger_of(band_descent(cells, (m - 1) as nat), row_descent(cells[m - 1]))
    }
}

/// The height of a row of the grid: its ascent and its descent.
pub open spec fn band_height(cells: Seq<RowModel>) -> Abs {
    clamp(band_ascent(cells, cells.len()) + band_descent(cells, cells.len()))
}

/// The heights of the first `n` rows of the grid, added up.
pub open spec fn bands_sum(grid: GridModel, n: nat) -> Abs
    decreases n,
{
    if n == 0 {
        0
    } else {
        clamp(bands_sum(grid, (n - 1) as nat) + band_height(grid[n - 1]))
    }
}

/// The height of the body: the heights of all rows and the gaps between
/// them.
pub open spec fn body_height(grid: GridModel, row_gap: Abs) -> Abs {
    clamp(bands_sum(grid, grid.len()) + gaps_between(row_gap, grid.len()))
}

/// The distance of row `i` from the top of the body.
pub open spec fn band_y(grid: GridModel, row_gap: Abs, i: nat) -> Abs
    decreases i,
{
    if i == 0 {
        0
    } else {
        clamp(
            band_y(grid, row_gap, (i - 1) as nat) + clamp(band_height(grid[i - 1]) + row_gap),
        )
    }
}

/// Column `j` of the grid, top to bottom.
pub open spec fn grid_column(grid: GridModel, j: int) -> Seq<RowModel> {
    Seq::new(grid.len(), |i: int| grid[i][j])
}

/// The width of column `j`.
pub open spec fn column_width(grid: GridModel, j: int) -> Abs {
    alignment_model(grid_column(grid, j)).width
}

/// The distance of column `j` from the left edge of the body.
pub open spec fn column_x(grid: GridModel, col_gap: Abs, j: nat) -> Abs
    decreases j,
{
    if j == 0 {
        0
    } else {
        clamp(
            column_x(grid, col_gap, (j - 1) as nat) + clamp(
                column_width(grid, j - 1) + col_gap,
            ),
        )
    }
}

/// The width of a body of `m` columns: the widths of the columns and the
/// gaps between them. A body without columns has no width.
pub open spec fn body_width(grid: GridModel, col_gap: Abs, m: nat) -> Abs {
    if m == 0 {
        0
    } else {
        clamp(column_x(grid, col_gap, m) - col_gap)
    }
}

/// The box of the cell in row `i` and column `j`.
pub open spec fn cell_frame(grid: GridModel, i: int, j: int) -> FrameModel {
    aligned_frame(grid[i][j], alignment_model(grid_column(grid, j)).points, Align::Center)
}

/// Where the cell in row `i` and column `j` stands. Its baseline lies on
/// the baseline of its row. In a column with alignment points it stands at
/// the left edge of the column; in a column without, in its middle.
pub open spec fn cell_position(grid: GridModel, row_gap: Abs, col_gap: Abs, i: int, j: int) -> Point {
    let merged = alignment_model(grid_column(grid, j));
    let frame = cell_frame(grid, i, j);
    let x = column_x(grid, col_gap, j as nat);
    Point {
        x: if merged.points.len() == 0 {
            clamp(x + halved(clamp(merged.width - frame.size.x)))
        } else {
            x
        },
        y: clamp(
            clamp(band_y(grid, row_gap, i as nat) + band_ascent(grid[i], grid[i].len()))
                - frame.ascent(),
        ),
    }
}

/// The placed cells of the first `i` rows of column `j`.
pub open spec fn column_items(grid: GridModel, row_gap: Abs, col_gap: Abs, j: int, i: nat) -> Seq<
    (Point, ItemModel),
>
    decreases i,
{
    if i == 0 {
        Seq::empty()
    } else {
        column_items(grid, row_gap, col_gap, j, (i - 1) as nat).push(
            (
                cell_position(grid, row_gap, col_gap, i - 1, j),
                ItemModel::Group(cell_frame(grid, i - 1, j)),
            ),
        )
    }
}

/// The placed cells of the first `j` columns, column by column.
pub open spec fn body_items(grid: GridModel, row_gap: Abs, col_gap: Abs, j: nat) -> Seq<
    (Point, ItemModel),
>
    decreases j,
{
    if j == 0 {
        Seq::empty()
    } else {
        body_items(grid, row_gap, col_gap, (j - 1) as nat) + column_items(
            grid,
            row_gap,
            col_gap,
            j - 1,
            grid.len(),
        )
    }
}

/// The body of a matrix with the cells `grid` in `m` columns.
pub open spec fn body_frame(grid: GridModel, m: nat, row_gap: Abs, col_gap: Abs) -> FrameModel {
    FrameModel {
        size: Size { x: body_width(grid, col_gap, m), y: body_height(grid, row_gap) },
        baseline: body_height(grid, row_gap),
        items: body_items(grid, row_gap, col_gap, m),
    }
}

/// The exact sum of the ascents and descents of the first `n` rows.
pub open spec fn exact_bands(grid: GridModel, n: nat) -> int
    decreases n,
{
    if n == 0 {
        0
    } else {
        exact_bands(grid, (n - 1) as nat) + band_ascent(grid[n - 1], grid[n - 1].len())
            + band_descent(grid[n - 1], grid[n - 1].len())
    }
}

/// The exact sum of the widths of the first `m` columns.
pub open spec fn exact_columns(grid: GridModel, m: nat) -> int
    decreases m,
{
    if m == 0 {
        0
    } else {
        exact_columns(grid, (m - 1) as nat) + column_width(grid, m - 1)
    }
}

/// Neither the ascent nor the descent of a row of the grid is negative.
pub proof fn lemma_band_nonnegative(cells: Seq<RowModel>, m: nat)
    ensures
        band_ascent(cells, m) >= 0,
        band_descent(cells, m) >= 0,
    decreases m,
{
    if m > 0 {
        lemma_band_nonnegative(cells, (m - 1) as nat);
    }
}

/// The heights of the rows add up to the exact sum of their ascents and
/// descents, as far as it can be represented.
pub proof fn lemma_bands_sum(grid: GridModel, n: nat)
    ensures
        exact_bands(grid, n) >= 0,
        bands_sum(grid, n) == clamp(exact_bands(grid, n)),
    decreases n,
{
    if n > 0 {
        lemma_bands_sum(grid, (n - 1) as nat);
        lemma_band_nonnegative(grid[n - 1], grid[n - 1].len());
    }
}

/// The body of a matrix is as high as the ascents and descents of its rows
/// together and the row gaps between them: with `n` rows, `n - 1` gaps.
pub proof fn lemma_body_height(grid: GridModel, row_gap: Abs)
    requires
        row_gap >= 0,
    ensures
        body_height(grid, row_gap) == clamp(
            exact_bands(grid, grid.len()) + row_gap * crate::stack::gap_count(grid.len()),
        ),
{
    lemma_bands_sum(grid, grid.len());
    let n = crate::stack::gap_count(grid.len());
    assert(row_gap * n >= 0) by (nonlinear_arith)
        requires
            row_gap >= 0,
            n >= 0,
    ;
}

/// Where the columns and a gap behind each fit the range of lengths, the
/// first `m` columns with their gaps end at the exact sum of the widths
/// and `m` gaps.
pub proof fn lemma_column_x(grid: GridModel, col_gap: Abs, m: nat)
    requires
        col_gap >= 0,
        exact_columns(grid, m) + col_gap * m <= i64::MAX,
    ensures
        exact_columns(grid, m) >= 0,
        column_x(grid, col_gap, m) == exact_columns(grid, m) + col_gap * m,
    decreases m,
{
    if m > 0 {
        let w = column_width(grid, m - 1);
        crate::align::lemma_column_offset_ordered(
            grid_column(grid, m - 1),
            0,
            crate::align::column_segments(grid_column(grid, m - 1), grid_column(grid, m - 1).len()),
        );
        assert(w >= 0);
        assert(col_gap * m == col_gap * (m - 1) + col_gap) by (nonlinear_arith);
        assert(col_gap * (m - 1) >= 0) by (nonlinear_arith)
            requires
                col_gap >= 0,
                m >= 1,
        ;
        lemma_exact_columns_nonnegative(grid, (m - 1) as nat);
        lemma_column_x(grid, col_gap, (m - 1) as nat);
    } else {
        assert(col_gap * 0 == 0) by (nonlinear_arith);
    }
}

/// No column has a negative width.
pub proof fn lemma_exact_columns_nonnegative(grid: GridModel, m: nat)
    ensures
        exact_columns(grid, m) >= 0,
    decreases m,
{
    if m > 0 {
        lemma_exact_columns_nonnegative(grid, (m - 1) as nat);
        crate::align::lemma_column_offset_ordered(
            grid_column(grid, m - 1),
            0,
            crate::align::column_segments(grid_column(grid, m - 1), grid_column(grid, m - 1).len()),
        );
    }
}

/// The body of a matrix of `m >= 1` columns is as wide as its columns
/// together and the column gaps between them, `m - 1` gaps, where the
/// columns with a gap behind each fit the range of lengths.
pub proof fn lemma_body_width(grid: GridModel, col_gap: Abs, m: nat)
    requires
        m >= 1,
        col_gap >= 0,
        exact_columns(grid, m) + col_gap * m <= i64::MAX,
    ensures
        body_width(grid, col_gap, m) == exact_columns(grid, m) + col_gap * (m - 1),
{
    lemma_column_x(grid, col_gap, m);
    assert(col_gap * m == col_gap * (m - 1) + col_gap) by (nonlinear_arith);
    assert(col_gap * (m - 1) >= 0) by (nonlinear_arith)
        requires
            col_gap >= 0,
            m >= 1,
    ;
}

/// The body holds one box for each cell of the first `j` columns.
pub proof fn lemma_body_items_len(grid: GridModel, row_gap: Abs, col_gap: Abs, j: nat)
    ensures
        body_items(grid, row_gap, col_gap, j).len() == j * grid.len(),
    decreases j,
{
    if j > 0 {
        lemma_body_items_len(grid, row_gap, col_gap, (j - 1) as nat);
        lemma_column_items_len(grid, row_gap, col_gap, j - 1, grid.len());
        assert(j * grid.len() == (j - 1) * grid.len() + grid.len()) by (nonlinear_arith);
    } else {
        assert(0 * grid.len() == 0) by (nonlinear_arith);
    }
}

proof fn lemma_column_items_len(grid: GridModel, row_gap: Abs, col_gap: Abs, j: int, i: nat)
    ensures
        column_items(grid, row_gap, col_gap, j, i).len() == i,
    decreases i,
{
    if i > 0 {
        lemma_column_items_len(grid, row_gap, col_gap, j, (i - 1) as nat);
    }
}

/// The grid that is stored column by column in `cols`, each column `n`
/// cells long.
pub open spec fn grid_of(cols: Seq<Vec<MathRow>>, n: nat) -> GridModel {
    Seq::new(n, |i: int| Seq::new(cols.len(), |j: int| cols[j]@[i]@))
}

/// Whether each of the columns holds `n` cells.
pub open spec fn columns_filled(cols: Seq<Vec<MathRow>>, n: nat) -> bool {
    forall|j: int| 0 <= j < cols.len() ==> (#[trigger] cols[j])@.len() == n
}

/// The ascent and the descent of every row of the grid.
fn band_metrics(cols: &Vec<Vec<MathRow>>, n: usize) -> (bands: Vec<(Abs, Abs)>)
    requires
        columns_filled(cols@, n as nat),
    ensures
        bands@.len() == n,
        forall|i: int|
            0 <= i < n ==> (#[trigger] bands@[i]) == (
                band_ascent(grid_of(cols@, n as nat)[i], cols@.len()),
                band_descent(grid_of(cols@, n as nat)[i], cols@.len()),
            ),
{
    let ghost grid = grid_of(cols@, n as nat);
    let mut bands: Vec<(Abs, Abs)> = Vec::new();
    let mut i: usize = 0;
    while i < n
        invariant
            i <= n,
            columns_filled(cols@, n as nat),
            grid == grid_of(cols@, n as nat),
            bands@.len() == i,
            forall|k: int|
                0 <= k < i ==> (#[trigger] bands@[k]) == (
                    band_ascent(grid[k], cols@.len()),
                    band_descent(grid[k], cols@.len()),
                ),
        decreases n - i,
    {
        let mut ascent: Abs = 0;
        let mut descent: Abs = 0;
        let mut j: usize = 0;
        while j < cols.len()
            invariant
                j <= cols.len(),
                i < n,
                columns_filled(cols@, n as nat),
                grid == grid_of(cols@, n as nat),
                ascent == band_ascent(grid[i as int], j as nat),
                descent == band_descent(grid[i as int], j as nat),
            decreases cols.len() - j,
        {
            assert(cols@[j as int]@.len() == n);
            let cell = &cols[j][i];
            assert(cell@ == grid[i as int][j as int]);
            let m = cell.metrics();
            ascent = larger(ascent, m.ascent);
            descent = larger(descent, m.descent);
            j += 1;
        }
        bands.push((ascent, descent));
        i += 1;
    }
    bands
}

/// Arranges the measured cells of a matrix, given column by column with
/// `n` cells in each column, into its body.
pub fn arrange(cols: Vec<Vec<MathRow>>, n: usize, row_gap: Abs, col_gap: Abs) -> (frame: Frame)
    requires
        columns_filled(cols@, n as nat),
    ensures
        frame@ == body_frame(grid_of(cols@, n as nat), cols@.len(), row_gap, col_gap),
{
    let ghost grid = grid_of(cols@, n as nat);
    let ghost given = cols@;
    let m: usize = cols.len();
    let bands = band_metrics(&cols, n);
    let mut sum: Abs = 0;
    let mut i: usize = 0;
    while i < n
        invariant
            i <= n,
            bands@.len() == n,
            grid.len() == n,
            forall|k: int| 0 <= k < n ==> (#[trigger] grid[k]).len() == m,
            forall|k: int|
                0 <= k < n ==> (#[trigger] bands@[k]) == (
                    band_ascent(grid[k], m as nat),
                    band_descent(grid[k], m as nat),
                ),
            sum == bands_sum(grid, i as nat),
        decreases n - i,
    {
        let band = bands[i];
        assert(band == bands@[i as int]);
        sum = plus(sum, plus(band.0, band.1));
        i += 1;
    }
    let between: Abs = if n == 0 {
        0
    } else {
        times(row_gap, n - 1)
    };
    let height: Abs = plus(sum, between);
    let mut frame = Frame::new(Size { x: 0, y: height });
    let mut x: Abs = 0;
    let mut j: usize = 0;
    for col in it: cols
        invariant
            it.seq() == given,
            given.len() == m,
            columns_filled(given, n as nat),
            grid == grid_of(given, n as nat),
            j == it.index(),
            bands@.len() == n,
            forall|k: int| 0 <= k < n ==> (#[trigger] grid[k]).len() == m,
            forall|k: int|
                0 <= k < n ==> (#[trigger] bands@[k]) == (
                    band_ascent(grid[k], m as nat),
                    band_descent(grid[k], m as nat),
                ),
            height == body_height(grid, row_gap),
            x == column_x(grid, col_gap, j as nat),
            frame@ == (FrameModel {
                size: Size { x: 0, y: height },
                baseline: height,
                items: body_items(grid, row_gap, col_gap, j as nat),
            }),
    {
        assert(col == given[j as int]);
        assert(col@.len() == n);
        assert(row_models(col@) =~= grid_column(grid, j as int));
        let merged = alignments(&col);
        let plain: bool = merged.points.len() == 0;
        let width: Abs = merged.width;
        let mut y: Abs = 0;
        let mut k: usize = 0;
        let ghost cells = col@;
        let ghost above = frame@.items;
        for cell in inner: col
            invariant
                inner.seq() == cells,
                cells.len() == n,
                cells == given[j as int]@,
                j < m,
                given.len() == m,
                grid == grid_of(given, n as nat),
                k == inner.index(),
                bands@.len() == n,
                forall|r: int| 0 <= r < n ==> (#[trigger] grid[r]).len() == m,
                forall|r: int|
                    0 <= r < n ==> (#[trigger] bands@[r]) == (
                        band_ascent(grid[r], m as nat),
                        band_descent(grid[r], m as nat),
                    ),
                merged@ == alignment_model(grid_column(grid, j as int)),
                plain == (merged.points@.len() == 0),
                width == merged.width,
                x == column_x(grid, col_gap, j as nat),
                y == band_y(grid, row_gap, k as nat),
                frame@ == (FrameModel {
                    size: Size { x: 0, y: height },
                    baseline: height,
                    items: above + column_items(grid, row_gap, col_gap, j as int, k as nat),
                }),
        {
            assert(cell@ == grid[k as int][j as int]);
            let band = bands[k];
            assert(band == bands@[k as int]);
            let aligned = cell.into_aligned_frame(&merged.points, Align::Center);
            assert(aligned@ == cell_frame(grid, k as int, j as int));
            let px: Abs = if plain {
                plus(x, half(minus(width, aligned.width())))
            } else {
                x
            };
            let py: Abs = minus(plus(y, band.0), aligned.ascent());
            let pos = Point { x: px, y: py };
            assert(pos == cell_position(grid, row_gap, col_gap, k as int, j as int));
            frame.push_frame(pos, aligned);
            y = plus(y, plus(plus(band.0, band.1), row_gap));
            assert(frame@.items =~= above + column_items(
                grid,
                row_gap,
                col_gap,
                j as int,
                (k + 1) as nat,
            ));
            k = k + 1;
        }
        x = plus(x, plus(width, col_gap));
        j = j + 1;
    }
    if m > 0 {
        frame.set_width(minus(x, col_gap));
    }
    frame
}

} // verus!
