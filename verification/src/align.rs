//! Merging the alignment points of the cells of one column.
//!
//! Alignment points cut every row into segments. Segment `j` of the column
//! is as wide as the widest segment `j` of its rows, the alignment point
//! `j` of the column stands behind its first `j + 1` segments, and the
//! column is as wide as all its segments together.

use vstd::prelude::*;
use crate::length::{clamp, larger, larger_of, plus, Abs};
use crate::row::{
    aligned_frame, lemma_aligned_width, lemma_markers_grow, lemma_segment_grows,
    lemma_unreached_segment_is_empty, markers_in, nonnegative_widths, segment_width, segments,
    Align, MathRow, RowModel,
};

verus! {

/// The models of a sequence of rows.
pub open spec fn row_models(rows: Seq<MathRow>) -> Seq<RowModel> {
    Seq::new(rows.len(), |i: int| rows[i]@)
}

/// The width of segment `j` of a whole row: nothing where the row has no
/// such segment.
pub open spec fn row_segment(row: RowModel, j: nat) -> Abs {
    segment_width(row, j, row.len())
}

/// The largest number of segments among the first `n` rows.
pub open spec fn column_segments(rows: Seq<RowModel>, n: nat) -> nat
    decreases n,
{
    if n == 0 {
        0
    } else {
        let before = column_segments(rows, (n - 1) as nat);
        if segments(rows[n - 1]) > before {
            segments(rows[n - 1])
        } else {
            before
        }
    }
}

/// The width of the widest segment `j` among the first `n` rows.
pub open spec fn column_segment_width(rows: Seq<RowModel>, j: nat, n: nat) -> Abs
    decreases n,
{
    if n == 0 {
        0
    } else {
        larger_of(column_segment_width(rows, j, (n - 1) as nat), row_segment(rows[n - 1], j))
    }
}

/// The width of the first `j` segments of the column together.
pub open spec fn column_offset(rows: Seq<RowModel>, j: nat) -> Abs
    decreases j,
{
    if j == 0 {
        0
    } else {
        clamp(
            column_offset(rows, (j - 1) as nat) + column_segment_width(
                rows,
                (j - 1) as nat,
                rows.len(),
            ),
        )
    }
}

/// The merged alignment of a column, as a mathematical value.
pub struct AlignmentModel {
    pub points: Seq<Abs>,
    pub width: Abs,
}

/// The number of alignment points of the column: one fewer than its
/// segments.
pub open spec fn column_points(rows: Seq<RowModel>) -> nat {
    let s = column_segments(rows, rows.len());
    if s == 0 {
        0
    } else {
        (s - 1) as nat
    }
}

/// The merged alignment of the column made of `rows`.
pub open spec fn alignment_model(rows: Seq<RowModel>) -> AlignmentModel {
    AlignmentModel {
        points: Seq::new(column_points(rows), |i: int| column_offset(rows, (i + 1) as nat)),
        width: column_offset(rows, column_segments(rows, rows.len())),
    }
}

/// The merged alignment of a column.
#[derive(Debug, PartialEq, Eq)]
pub struct AlignmentResult {
    /// The offset of each alignment point from the left edge of the column.
    pub points: Vec<Abs>,
    /// The width of the column.
    pub width: Abs,
}

impl View for AlignmentResult {
    type V = AlignmentModel;

    open spec fn view(&self) -> AlignmentModel {
        AlignmentModel { points: self.points@, width: self.width }
    }
}

/// No segment of a column has a negative width.
pub proof fn lemma_column_segment_nonnegative(rows: Seq<RowModel>, j: nat, n: nat)
    ensures
        column_segment_width(rows, j, n) >= 0,
    decreases n,
{
    if n > 0 {
        lemma_column_segment_nonnegative(rows, j, (n - 1) as nat);
    }
}

/// A segment that none of the first `n` rows has is empty.
pub proof fn lemma_column_segment_beyond(rows: Seq<RowModel>, j: nat, n: nat)
    requires
        j >= column_segments(rows, n),
    ensures
        column_segment_width(rows, j, n) == 0,
    decreases n,
{
    if n > 0 {
        lemma_column_segment_beyond(rows, j, (n - 1) as nat);
        lemma_unreached_segment_is_empty(rows[n - 1], j, rows[n - 1].len());
    }
}

/// The offsets of a column never decrease from one segment to the next.
pub proof fn lemma_column_offset_ordered(rows: Seq<RowModel>, i: nat, j: nat)
    requires
        i <= j,
    ensures
        0 <= column_offset(rows, i) <= column_offset(rows, j),
    decreases j,
{
    if j > 0 {
        lemma_column_segment_nonnegative(rows, (j - 1) as nat, rows.len());
        if i < j {
            lemma_column_offset_ordered(rows, i, (j - 1) as nat);
        } else {
            lemma_column_offset_ordered(rows, (j - 1) as nat, (j - 1) as nat);
        }
    }
}

/// Replacing row `i` by a row with as many segments leaves the number of
/// segments of the column as it was.
proof fn lemma_segments_after_update(rows: Seq<RowModel>, i: int, wider: RowModel, n: nat)
    requires
        0 <= i < rows.len(),
        n <= rows.len(),
        segments(wider) == segments(rows[i]),
    ensures
        column_segments(rows.update(i, wider), n) == column_segments(rows, n),
    decreases n,
{
    if n > 0 {
        lemma_segments_after_update(rows, i, wider, (n - 1) as nat);
    }
}

/// Replacing row `i` by a row whose segments are at least as wide narrows
/// no segment of the column.
proof fn lemma_segment_after_update(rows: Seq<RowModel>, i: int, wider: RowModel, j: nat, n: nat)
    requires
        0 <= i < rows.len(),
        n <= rows.len(),
        row_segment(rows[i], j) <= row_segment(wider, j),
    ensures
        column_segment_width(rows, j, n) <= column_segment_width(rows.update(i, wider), j, n),
    decreases n,
{
    if n > 0 {
        lemma_segment_after_update(rows, i, wider, j, (n - 1) as nat);
    }
}

/// Where no segment of one column is narrower than in another, no offset
/// is smaller.
proof fn lemma_offsets_follow_segments(rows: Seq<RowModel>, other: Seq<RowModel>, j: nat)
    requires
        forall|k: nat|
            column_segment_width(rows, k, rows.len()) <= #[trigger] column_segment_width(
                other,
                k,
                other.len(),
            ),
    ensures
        column_offset(rows, j) <= column_offset(other, j),
    decreases j,
{
    if j > 0 {
        lemma_offsets_follow_segments(rows, other, (j - 1) as nat);
        assert(column_segment_width(rows, (j - 1) as nat, rows.len()) <= column_segment_width(
            other,
            (j - 1) as nat,
            other.len(),
        ));
    }
}

/// The width of a column is monotone in the width of its cells: replacing
/// one row by a row with the same number of alignment points, none of whose
/// segments is narrower, keeps the number of alignment points, moves no
/// point to the left and never makes the column narrower. A cell that
/// grows behind its last alignment point is the plainest such case.
pub proof fn lemma_wider_cell_never_narrows(rows: Seq<RowModel>, i: int, wider: RowModel)
    requires
        0 <= i < rows.len(),
        segments(wider) == segments(rows[i]),
        forall|j: nat| row_segment(rows[i], j) <= #[trigger] row_segment(wider, j),
    ensures
        alignment_model(rows).width <= alignment_model(rows.update(i, wider)).width,
        alignment_model(rows).points.len() == alignment_model(rows.update(i, wider)).points.len(),
        forall|k: int|
            0 <= k < alignment_model(rows).points.len() ==> alignment_model(rows).points[k]
                <= alignment_model(rows.update(i, wider)).points[k],
{
    let updated = rows.update(i, wider);
    lemma_segments_after_update(rows, i, wider, rows.len());
    assert forall|k: nat|
        column_segment_width(rows, k, rows.len()) <= #[trigger] column_segment_width(
            updated,
            k,
            updated.len(),
        ) by {
        assert(row_segment(rows[i], k) <= row_segment(wider, k));
        lemma_segment_after_update(rows, i, wider, k, rows.len());
    }
    lemma_offsets_follow_segments(rows, updated, column_segments(rows, rows.len()));
    assert forall|k: int| 0 <= k < alignment_model(rows).points.len() implies alignment_model(
        rows,
    ).points[k] <= alignment_model(updated).points[k] by {
        lemma_offsets_follow_segments(rows, updated, (k + 1) as nat);
    }
}

/// The column has at least as many segments as each of its rows.
proof fn lemma_segments_cover(rows: Seq<RowModel>, k: int, n: nat)
    requires
        0 <= k < n,
    ensures
        segments(rows[k]) <= column_segments(rows, n),
    decreases n,
{
    if k < n - 1 {
        lemma_segments_cover(rows, k, (n - 1) as nat);
    }
}

/// Segment `j` of the column is at least as wide as segment `j` of each of
/// its rows.
proof fn lemma_segment_covers(rows: Seq<RowModel>, j: nat, k: int, n: nat)
    requires
        0 <= k < n,
    ensures
        row_segment(rows[k], j) <= column_segment_width(rows, j, n),
    decreases n,
{
    if k < n - 1 {
        lemma_segment_covers(rows, j, k, (n - 1) as nat);
    }
}

/// Rows that all occur in another column give no more segments than that
/// column has.
proof fn lemma_segments_within(rows: Seq<RowModel>, other: Seq<RowModel>, n: nat)
    requires
        n <= rows.len(),
        forall|k: int| 0 <= k < rows.len() ==> other.contains(#[trigger] rows[k]),
    ensures
        column_segments(rows, n) <= column_segments(other, other.len()),
    decreases n,
{
    if n > 0 {
        lemma_segments_within(rows, other, (n - 1) as nat);
        assert(other.contains(rows[n - 1]));
        let m = choose|m: int| 0 <= m < other.len() && other[m] == rows[n - 1];
        lemma_segments_cover(other, m, other.len());
    }
}

/// Rows that all occur in another column give no segment that is wider
/// than in that column.
proof fn lemma_segment_within(rows: Seq<RowModel>, other: Seq<RowModel>, j: nat, n: nat)
    requires
        n <= rows.len(),
        forall|k: int| 0 <= k < rows.len() ==> other.contains(#[trigger] rows[k]),
    ensures
        column_segment_width(rows, j, n) <= column_segment_width(other, j, other.len()),
    decreases n,
{
    if n > 0 {
        lemma_segment_within(rows, other, j, (n - 1) as nat);
        assert(other.contains(rows[n - 1]));
        let m = choose|m: int| 0 <= m < other.len() && other[m] == rows[n - 1];
        lemma_segment_covers(other, j, m, other.len());
    } else {
        lemma_column_segment_nonnegative(other, j, other.len());
    }
}

/// The merged alignment of a column depends on which rows it holds and not
/// on where they stand: two columns each of whose rows occurs in the other
/// have the same alignment points and the same width. Every reordering of
/// a column is such a column.
pub proof fn lemma_order_is_irrelevant(rows: Seq<RowModel>, other: Seq<RowModel>)
    requires
        forall|k: int| 0 <= k < rows.len() ==> other.contains(#[trigger] rows[k]),
        forall|k: int| 0 <= k < other.len() ==> rows.contains(#[trigger] other[k]),
    ensures
        alignment_model(rows) == alignment_model(other),
{
    lemma_segments_within(rows, other, rows.len());
    lemma_segments_within(other, rows, other.len());
    assert forall|j: nat|
        column_segment_width(rows, j, rows.len()) <= #[trigger] column_segment_width(
            other,
            j,
            other.len(),
        ) by {
        lemma_segment_within(rows, other, j, rows.len());
    }
    assert forall|j: nat|
        column_segment_width(other, j, other.len()) <= #[trigger] column_segment_width(
            rows,
            j,
            rows.len(),
        ) by {
        lemma_segment_within(other, rows, j, other.len());
    }
    assert forall|j: nat| column_offset(rows, j) == column_offset(other, j) by {
        lemma_offsets_follow_segments(rows, other, j);
        lemma_offsets_follow_segments(other, rows, j);
    }
    assert(alignment_model(rows).points =~= alignment_model(other).points);
}

/// No cell sticks out of its column: the box of a row whose fragments
/// have no negative width is at most as wide as the column.
pub proof fn lemma_cells_fit_column(rows: Seq<RowModel>, k: int, align: Align)
    requires
        0 <= k < rows.len(),
        nonnegative_widths(rows[k]),
    ensures
        0 <= aligned_frame(rows[k], alignment_model(rows).points, align).size.x
            <= alignment_model(rows).width,
{
    let row = rows[k];
    let merged = alignment_model(rows);
    let count = column_segments(rows, rows.len());
    let last = markers_in(row, row.len());
    lemma_segments_cover(rows, k, rows.len());
    assert forall|i: int| 0 <= i < merged.points.len() implies merged.points[i] >= 0 by {
        lemma_column_offset_ordered(rows, 0, (i + 1) as nat);
    }
    lemma_segment_covers(rows, 0, k, rows.len());
    lemma_segment_covers(rows, last, k, rows.len());
    lemma_segment_grows(row, 0, 0, row.len());
    lemma_segment_grows(row, last, 0, row.len());
    lemma_column_segment_nonnegative(rows, 0, rows.len());
    lemma_column_offset_ordered(rows, last, (last + 1) as nat);
    lemma_column_offset_ordered(rows, (last + 1) as nat, count);
    reveal_with_fuel(column_offset, 2);
    let x0 = crate::row::start_x(row, merged.points, align);
    assert(x0 >= 0);
    lemma_aligned_width(row, merged.points, x0, row.len());
}

/// A column none of whose cells has an alignment point is as wide as its
/// widest cell, and has no alignment points.
pub proof fn lemma_plain_column(rows: Seq<RowModel>)
    requires
        rows.len() > 0,
        forall|k: int| 0 <= k < rows.len() ==> segments(#[trigger] rows[k]) == 1,
    ensures
        alignment_model(rows).points.len() == 0,
        alignment_model(rows).width == widest_row(rows, rows.len()),
{
    lemma_plain_column_prefix(rows, rows.len());
    reveal_with_fuel(column_offset, 2);
}

/// The width of the widest of the first `n` rows.
pub open spec fn widest_row(rows: Seq<RowModel>, n: nat) -> Abs
    decreases n,
{
    if n == 0 {
        0
    } else {
        larger_of(widest_row(rows, (n - 1) as nat), crate::row::row_width(rows[n - 1]))
    }
}

/// A row without alignment points is one segment as wide as the row.
proof fn lemma_plain_row(row: RowModel, n: nat)
    requires
        markers_in(row, row.len()) == 0,
        n <= row.len(),
    ensures
        segment_width(row, 0, n) == crate::row::width_of(row, n),
    decreases n,
{
    if n > 0 {
        lemma_plain_row(row, (n - 1) as nat);
        lemma_markers_grow(row, n, row.len());
        lemma_markers_grow(row, (n - 1) as nat, row.len());
    }
}

proof fn lemma_plain_column_prefix(rows: Seq<RowModel>, n: nat)
    requires
        n <= rows.len(),
        forall|k: int| 0 <= k < rows.len() ==> segments(#[trigger] rows[k]) == 1,
    ensures
        column_segments(rows, n) == if n == 0 {
            0nat
        } else {
            1nat
        },
        column_segment_width(rows, 0, n) == widest_row(rows, n),
    decreases n,
{
    if n > 0 {
        lemma_plain_column_prefix(rows, (n - 1) as nat);
        assert(segments(rows[n - 1]) == 1);
        lemma_plain_row(rows[n - 1], rows[n - 1].len());
    }
}

fn commit(widths: &mut Vec<Abs>, segment: usize, width: Abs)
    requires
        segment <= old(widths).len(),
    ensures
        final(widths)@.len() == if segment < old(widths)@.len() {
            old(widths)@.len()
        } else {
            old(widths)@.len() + 1
        },
        forall|j: int|
            0 <= j < final(widths)@.len() && j != segment ==> final(widths)@[j] == old(widths)@[j],
        final(widths)@[segment as int] == larger_of(
            if segment < old(widths)@.len() {
                old(widths)@[segment as int]
            } else {
                0
            },
            width,
        ),
{
    if segment < widths.len() {
        let wider = larger(widths[segment], width);
        widths[segment] = wider;
    } else {
        widths.push(larger(0, width));
    }
}

/// Determines the alignment points and the width of the column made of
/// `rows`.
pub fn alignments(rows: &Vec<MathRow>) -> (result: AlignmentResult)
    ensures
        result@ == alignment_model(row_models(rows@)),
{
    let ghost column = row_models(rows@);
    let mut widths: Vec<Abs> = Vec::new();
    let mut r: usize = 0;
    while r < rows.len()
        invariant
            r <= rows.len(),
            column == row_models(rows@),
            widths@.len() == column_segments(column, r as nat),
            forall|j: int|
                0 <= j < widths@.len() ==> widths@[j] == column_segment_width(
                    column,
                    j as nat,
                    r as nat,
                ),
        decreases rows.len() - r,
    {
        let row = &rows[r];
        let ghost model = row@;
        assert(model == column[r as int]);
        let mut width: Abs = 0;
        let mut segment: usize = 0;
        let mut f: usize = 0;
        while f < row.fragments.len()
            invariant
                f <= row.fragments.len(),
                r < rows.len(),
                column.len() == rows.len(),
                model == row@,
                model == column[r as int],
                segment == markers_in(model, f as nat),
                segment <= f,
                width == segment_width(model, segment as nat, f as nat),
                segment <= widths@.len(),
                widths@.len() == if segment as nat > column_segments(column, r as nat) {
                    segment as nat
                } else {
                    column_segments(column, r as nat)
                },
                forall|j: int|
                    0 <= j < segment ==> widths@[j] == larger_of(
                        column_segment_width(column, j as nat, r as nat),
                        segment_width(model, j as nat, f as nat),
                    ),
                forall|j: int|
                    segment <= j < widths@.len() ==> widths@[j] == column_segment_width(
                        column,
                        j as nat,
                        r as nat,
                    ),
            decreases row.fragments.len() - f,
        {
            let fragment = &row.fragments[f];
            assert(fragment@ == model[f as int]);
            if fragment.is_align() {
                proof {
                    if segment as nat >= column_segments(column, r as nat) {
                        lemma_column_segment_beyond(column, segment as nat, r as nat);
                    }
                }
                commit(&mut widths, segment, width);
                width = 0;
                segment = segment + 1;
                proof {
                    lemma_unreached_segment_is_empty(model, segment as nat, f as nat);
                }
            } else {
                width = plus(width, fragment.width());
            }
            f += 1;
        }
        proof {
            if segment as nat >= column_segments(column, r as nat) {
                lemma_column_segment_beyond(column, segment as nat, r as nat);
            }
        }
        commit(&mut widths, segment, width);
        proof {
            assert forall|j: int| 0 <= j < widths@.len() implies widths@[j]
                == column_segment_width(column, j as nat, (r + 1) as nat) by {
                if j > segment {
                    lemma_unreached_segment_is_empty(model, j as nat, model.len());
                    lemma_column_segment_nonnegative(column, j as nat, r as nat);
                }
            }
        }
        r += 1;
    }
    let mut points: Vec<Abs> = Vec::new();
    let mut offset: Abs = 0;
    let mut j: usize = 0;
    while j < widths.len()
        invariant
            j <= widths.len(),
            widths@.len() == column_segments(column, column.len()),
            forall|k: int|
                0 <= k < widths@.len() ==> widths@[k] == column_segment_width(
                    column,
                    k as nat,
                    column.len(),
                ),
            offset == column_offset(column, j as nat),
            points@.len() == if j < widths.len() {
                j as nat
            } else {
                column_points(column)
            },
            forall|k: int| 0 <= k < points@.len() ==> points@[k] == column_offset(column, (k + 1) as nat),
        decreases widths.len() - j,
    {
        offset = plus(offset, widths[j]);
        if j + 1 < widths.len() {
            points.push(offset);
        }
        j += 1;
    }
    let result = AlignmentResult { points, width: offset };
    assert(result@.points =~= alignment_model(column).points);
    result
}

} // verus!
