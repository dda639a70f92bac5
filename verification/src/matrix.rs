//! Layout of vectors, matrices and case distinctions.
//!
//! Every cell is laid out in the reduced style of a denominator. The cells
//! of a vector or of a case distinction are stacked; the cells of a matrix
//! are arranged in a grid. The body is then centred on the math axis and
//! enclosed in delimiters stretched to its height.

use vstd::prelude::*;
use crate::content::{column_count, CasesElem, Content, MatElem, Piece, VecElem};
use crate::context::{Env, MathContext};
use crate::delimiter::Delimiter;
use crate::frame::{Frame, FrameModel, Glyph, Size};
use crate::grid::{
    arrange, body_frame, columns_filled, exact_bands, exact_columns, grid_of, GridModel,
};
use crate::length::{clamp, half, halved, plus, scale, scaled, toward_zero, Abs, Em, EM_STEPS};
use crate::align::{alignment_model, row_models};
use crate::row::{
    row_height, row_width, Align, FragmentModel, MathFragment, MathRow, RowModel,
};
use crate::source::{LayoutError, Span};
use crate::stack::{aligned_frames, exact_heights, gap_count, stack, stacked};

verus! {

/// The gap between two rows.
pub const ROW_GAP: Em = 500;

/// The gap between two columns.
pub const COL_GAP: Em = 500;

/// By how much of the height of the body a delimiter exceeds it, in
/// thousandths.
pub const VERTICAL_PADDING: u32 = 100;

/// How far short of its target a stretched delimiter may fall.
pub const DELIM_SHORT_FALL: Em = 100;

/// Whether `after` has the style, the font, the font size and the saved
/// styles of `before`.
pub open spec fn settled(before: MathContext, after: MathContext) -> bool {
    &&& after.style == before.style
    &&& before.same_setting(after)
}

/// The height to which the delimiters of a body of height `height` are
/// stretched: the height and a tenth of it.
pub open spec fn stretch_target(height: Abs) -> Abs {
    clamp(height + scaled(height, VERTICAL_PADDING, 1000))
}

/// The body with its middle on the math axis.
pub open spec fn centered_body(body: FrameModel, env: Env) -> FrameModel {
    FrameModel { baseline: clamp(halved(body.size.y) + env.axis()), ..body }
}

/// The glyph for `c`, stretched to `target` and centred on the math axis.
pub open spec fn delimiter_glyph(c: char, target: Abs, env: Env, span: Span) -> Result<
    Glyph,
    LayoutError,
> {
    match env.glyph(c, span) {
        Ok(g) => Ok(g.stretched(target, env.em(DELIM_SHORT_FALL)).centered(env.axis())),
        Err(e) => Err(e),
    }
}

/// What stands on one side of a body: the stretched glyph for `c`, or
/// nothing.
pub open spec fn side(c: Option<char>, target: Abs, env: Env, span: Span) -> Result<
    RowModel,
    LayoutError,
> {
    match c {
        None => Ok(Seq::empty()),
        Some(c) => match delimiter_glyph(c, target, env, span) {
            Ok(g) => Ok(seq![FragmentModel::Glyph(g)]),
            Err(e) => Err(e),
        },
    }
}

/// The fragments of a delimited body, left to right: the left glyph if
/// there is one, the body, the right glyph if there is one. The left glyph
/// is looked up first.
pub open spec fn delimited(
    body: FrameModel,
    left: Option<char>,
    right: Option<char>,
    env: Env,
    span: Span,
) -> Result<RowModel, LayoutError> {
    let target = stretch_target(body.size.y);
    match side(left, target, env, span) {
        Err(e) => Err(e),
        Ok(before) => match side(right, target, env, span) {
            Err(e) => Err(e),
            Ok(after) => Ok(
                before + seq![FragmentModel::Frame(centered_body(body, env))] + after,
            ),
        },
    }
}

/// The row that content is laid out into.
pub open spec fn content_row(content: Content, env: Env) -> Result<RowModel, LayoutError>
    decreases content, 0nat,
{
    pieces_row(content.pieces@, content.pieces@.len(), content.span, env)
}

/// The row that the first `n` pieces of content are laid out into. The
/// first piece that fails decides the failure.
pub open spec fn pieces_row(pieces: Seq<Piece>, n: nat, span: Span, env: Env) -> Result<
    RowModel,
    LayoutError,
>
    decreases pieces, n,
{
    if n == 0 || n > pieces.len() {
        Ok(Seq::empty())
    } else {
        match pieces_row(pieces, (n - 1) as nat, span, env) {
            Err(e) => Err(e),
            Ok(before) => match piece_row(pieces[n - 1], span, env) {
                Err(e) => Err(e),
                Ok(more) => Ok(before + more),
            },
        }
    }
}

/// The fragments that one piece of the content at `span` is laid out into.
pub open spec fn piece_row(piece: Piece, span: Span, env: Env) -> Result<RowModel, LayoutError>
    decreases piece, 0nat,
{
    match piece {
        Piece::Glyph(info) => Ok(seq![FragmentModel::Glyph(env.measured(info, span))]),
        Piece::Align => Ok(seq![FragmentModel::Align]),
        Piece::Unresolved => Err(LayoutError::LayoutFailure { span }),
        Piece::Vector(e) => vec_row(e, env),
        Piece::Matrix(e) => mat_row(e, env),
        Piece::Cases(e) => cases_row(e, env),
    }
}

/// The row of one cell: its content in the reduced style.
pub open spec fn cell_row(content: Content, env: Env) -> Result<RowModel, LayoutError>
    decreases content, 1nat,
{
    content_row(content, env.reduced())
}

/// The rows of the first `n` cells. The first cell that fails decides the
/// failure.
pub open spec fn cell_rows(cells: Seq<Content>, n: nat, env: Env) -> Result<
    Seq<RowModel>,
    LayoutError,
>
    decreases cells, n,
{
    if n == 0 || n > cells.len() {
        Ok(Seq::empty())
    } else {
        match cell_rows(cells, (n - 1) as nat, env) {
            Err(e) => Err(e),
            Ok(before) => match cell_row(cells[n - 1], env) {
                Err(e) => Err(e),
                Ok(row) => Ok(before.push(row)),
            },
        }
    }
}

/// The body of a vector or of a case distinction with the given cells.
pub open spec fn vec_body(cells: Seq<Content>, env: Env, align: Align) -> Result<
    FrameModel,
    LayoutError,
>
    decreases cells, cells.len() + 1,
{
    match cell_rows(cells, cells.len(), env) {
        Err(e) => Err(e),
        Ok(rows) => Ok(stacked(rows, align, env.em(ROW_GAP), 0)),
    }
}

/// The first `m` cells of one row of a matrix. Where the row is shorter,
/// the missing cells are blank.
pub open spec fn grid_row(row: Seq<Content>, m: nat, env: Env) -> Result<
    Seq<RowModel>,
    LayoutError,
>
    decreases row, m,
{
    if m == 0 {
        Ok(Seq::empty())
    } else {
        match grid_row(row, (m - 1) as nat, env) {
            Err(e) => Err(e),
            Ok(before) => if m - 1 < row.len() {
                match cell_row(row[m - 1], env) {
                    Err(e) => Err(e),
                    Ok(cell) => Ok(before.push(cell)),
                }
            } else {
                Ok(before.push(Seq::empty()))
            },
        }
    }
}

/// The cells of the first `n` rows of a matrix of `m` columns, row by row
/// and in every row from left to right. The first cell that fails decides
/// the failure.
pub open spec fn grid_rows(rows: Seq<Vec<Content>>, n: nat, m: nat, env: Env) -> Result<
    GridModel,
    LayoutError,
>
    decreases rows, n,
{
    if n == 0 || n > rows.len() {
        Ok(Seq::empty())
    } else {
        match grid_rows(rows, (n - 1) as nat, m, env) {
            Err(e) => Err(e),
            Ok(before) => match grid_row(rows[n - 1]@, m, env) {
                Err(e) => Err(e),
                Ok(cells) => Ok(before.push(cells)),
            },
        }
    }
}

/// The body of a matrix with the given rows. A matrix without rows or
/// without columns has a body without extent.
pub open spec fn mat_body(rows: Seq<Vec<Content>>, env: Env) -> Result<FrameModel, LayoutError>
    decreases rows, rows.len() + 1,
{
    if rows.len() == 0 || column_count(rows) == 0 {
        Ok(FrameModel::blank(Size { x: 0, y: 0 }))
    } else {
        match grid_rows(rows, rows.len(), column_count(rows), env) {
            Err(e) => Err(e),
            Ok(grid) => Ok(
                body_frame(grid, column_count(rows), env.em(ROW_GAP), env.em(COL_GAP)),
            ),
        }
    }
}

/// The character on the left of a body with the delimiter `delim`.
pub open spec fn left_of(delim: Option<Delimiter>) -> Option<char> {
    match delim {
        Some(d) => Some(d.opening()),
        None => None,
    }
}

/// The character on the right of a body with the delimiter `delim`.
pub open spec fn right_of(delim: Option<Delimiter>) -> Option<char> {
    match delim {
        Some(d) => Some(d.closing()),
        None => None,
    }
}

/// The fragments that a vector is laid out into.
pub open spec fn vec_row(e: VecElem, env: Env) -> Result<RowModel, LayoutError>
    decreases e, 0nat,
{
    match vec_body(e.children@, env, Align::Center) {
        Err(x) => Err(x),
        Ok(body) => delimited(body, left_of(e.delim), right_of(e.delim), env, e.span),
    }
}

/// The fragments that a matrix is laid out into.
pub open spec fn mat_row(e: MatElem, env: Env) -> Result<RowModel, LayoutError>
    decreases e, 0nat,
{
    match mat_body(e.rows@, env) {
        Err(x) => Err(x),
        Ok(body) => delimited(body, left_of(e.delim), right_of(e.delim), env, e.span),
    }
}

/// The fragments that a case distinction is laid out into. Whatever the
/// configured delimiter, an opening brace stands on the left and nothing
/// on the right.
pub open spec fn cases_row(e: CasesElem, env: Env) -> Result<RowModel, LayoutError>
    decreases e, 0nat,
{
    match vec_body(e.children@, env, Align::Left) {
        Err(x) => Err(x),
        Ok(body) => delimited(body, Some(Delimiter::Brace.opening()), None, env, e.span),
    }
}

/// Once a piece has failed, the content fails in the same way.
pub proof fn lemma_pieces_failure(pieces: Seq<Piece>, n: nat, m: nat, span: Span, env: Env)
    requires
        n <= m <= pieces.len(),
        pieces_row(pieces, n, span, env) is Err,
    ensures
        pieces_row(pieces, m, span, env) == pieces_row(pieces, n, span, env),
    decreases m,
{
    if n < m {
        lemma_pieces_failure(pieces, n, (m - 1) as nat, span, env);
    }
}

/// Once a cell has failed, the column fails in the same way.
pub proof fn lemma_cells_failure(cells: Seq<Content>, n: nat, m: nat, env: Env)
    requires
        n <= m <= cells.len(),
        cell_rows(cells, n, env) is Err,
    ensures
        cell_rows(cells, m, env) == cell_rows(cells, n, env),
    decreases m,
{
    if n < m {
        lemma_cells_failure(cells, n, (m - 1) as nat, env);
    }
}

/// Once a cell has failed, its row of the matrix fails in the same way.
pub proof fn lemma_grid_row_failure(row: Seq<Content>, n: nat, m: nat, env: Env)
    requires
        n <= m,
        grid_row(row, n, env) is Err,
    ensures
        grid_row(row, m, env) == grid_row(row, n, env),
    decreases m,
{
    if n < m {
        lemma_grid_row_failure(row, n, (m - 1) as nat, env);
    }
}

/// Once a row has failed, the matrix fails in the same way.
pub proof fn lemma_grid_failure(rows: Seq<Vec<Content>>, n: nat, k: nat, m: nat, env: Env)
    requires
        n <= k <= rows.len(),
        grid_rows(rows, n, m, env) is Err,
    ensures
        grid_rows(rows, k, m, env) == grid_rows(rows, n, m, env),
    decreases k,
{
    if n < k {
        lemma_grid_failure(rows, n, (k - 1) as nat, m, env);
    }
}

/// No length that is derived from the font size is negative.
pub proof fn lemma_env_lengths_nonnegative(env: Env, em: Em)
    ensures
        env.size() >= 0,
        env.em(em) >= 0,
{
    crate::length::lemma_scaled_nonnegative(
        env.base_size as Abs,
        env.font.percent(env.style.size),
        100,
    );
    crate::length::lemma_scaled_nonnegative(env.size(), em, EM_STEPS);
}

/// The height to which delimiters are stretched is 1.1 times the height of
/// the body, rounded down to a whole unit: it is exact for every height
/// that is a multiple of ten units.
pub proof fn lemma_stretch_target(height: Abs)
    requires
        height >= 0,
    ensures
        stretch_target(height) == clamp((11 * height) / 10),
        height % 10 == 0 && 11 * height <= 10 * i64::MAX ==> 10 * stretch_target(height) == 11
            * height,
        height <= stretch_target(height),
{
    assert(toward_zero(height * VERTICAL_PADDING, 1000) == height / 10);
}

/// The fragments of a delimited body: the body stands between the glyphs
/// of the sides that have a delimiter, its size and its items are those of
/// the undelimited body, and its middle lies on the math axis. Each glyph
/// is the glyph of the font for its character.
pub proof fn lemma_delimited_shape(
    body: FrameModel,
    left: Option<char>,
    right: Option<char>,
    env: Env,
    span: Span,
)
    ensures
        delimited(body, left, right, env, span) is Ok <==> {
            &&& (left matches Some(c) ==> env.font.lookup(c) is Some)
            &&& (right matches Some(c) ==> env.font.lookup(c) is Some)
        },
        left is Some && env.font.lookup(left->0) is None ==> delimited(
            body,
            left,
            right,
            env,
            span,
        ) == Err::<RowModel, LayoutError>(LayoutError::GlyphFailure { span, glyph: left->0 }),
        (left is Some ==> env.font.lookup(left->0) is Some) && right is Some && env.font.lookup(
            right->0,
        ) is None ==> delimited(body, left, right, env, span) == Err::<RowModel, LayoutError>(
            LayoutError::GlyphFailure { span, glyph: right->0 },
        ),
        delimited(body, left, right, env, span) matches Ok(fragments) ==> {
            let at = if left is Some {
                1int
            } else {
                0int
            };
            &&& fragments.len() == at + 1 + if right is Some {
                1int
            } else {
                0int
            }
            &&& fragments[at] matches FragmentModel::Frame(f) && f.size == body.size && f.items
                == body.items && f.baseline == clamp(halved(body.size.y) + env.axis())
            &&& (left matches Some(c) ==> (fragments[0] matches FragmentModel::Glyph(g) && g.c
                == c))
            &&& (right matches Some(c) ==> (fragments[at + 1] matches FragmentModel::Glyph(g)
                && g.c == c))
        },
{
    let target = stretch_target(body.size.y);
    if let Ok(before) = side(left, target, env, span) {
        if let Ok(after) = side(right, target, env, span) {
            let middle = seq![FragmentModel::Frame(centered_body(body, env))];
            let fragments = before + middle + after;
            let at = before.len() as int;
            assert(fragments[at] == middle[0]);
            if left is Some {
                crate::context::lemma_find_glyph_matches(
                    env.font.glyphs@,
                    left->0,
                    env.font.glyphs@.len(),
                );
                assert(fragments[0] == before[0]);
            }
            if right is Some {
                crate::context::lemma_find_glyph_matches(
                    env.font.glyphs@,
                    right->0,
                    env.font.glyphs@.len(),
                );
                assert(fragments[at + 1] == after[0]);
            }
        }
    }
}

/// A body without delimiters is written alone: its size and its items are
/// untouched.
pub proof fn lemma_bare_body(body: FrameModel, env: Env, span: Span)
    ensures
        delimited(body, None, None, env, span) == Ok::<RowModel, LayoutError>(
            seq![FragmentModel::Frame(centered_body(body, env))],
        ),
        centered_body(body, env).size == body.size,
        centered_body(body, env).items == body.items,
{
    assert(Seq::<FragmentModel>::empty() + seq![FragmentModel::Frame(centered_body(body, env))]
        + Seq::<FragmentModel>::empty() =~= seq![FragmentModel::Frame(centered_body(body, env))]);
}

/// A case distinction that is laid out gives a glyph and a body: the glyph
/// is an opening brace on the left, and nothing stands on the right.
pub proof fn lemma_cases_one_sided(e: CasesElem, env: Env)
    ensures
        cases_row(e, env) matches Ok(fragments) ==> {
            &&& fragments.len() == 2
            &&& fragments[0] matches FragmentModel::Glyph(g) && g.c == '{'
            &&& fragments[1] is Frame
        },
{
    if let Ok(body) = vec_body(e.children@, env, Align::Left) {
        lemma_delimited_shape(body, Some('{'), None, env, e.span);
    }
}

/// The delimiter that a case distinction is configured with changes
/// nothing of its layout.
pub proof fn lemma_cases_ignore_delimiter(e: CasesElem, other: Delimiter, env: Env)
    ensures
        cases_row(CasesElem { delim: other, children: e.children, span: e.span }, env)
            == cases_row(e, env),
{
}

/// Content without pieces is laid out into a row without extent.
pub proof fn lemma_blank_cell(content: Content, env: Env)
    requires
        content.is_blank(),
    ensures
        cell_row(content, env) == Ok::<RowModel, LayoutError>(Seq::empty()),
        row_width(Seq::<FragmentModel>::empty()) == 0,
        row_height(Seq::<FragmentModel>::empty()) == 0,
{
}

/// The cells that were laid out are as many as were asked for.
pub proof fn lemma_cell_rows_len(cells: Seq<Content>, n: nat, env: Env)
    requires
        n <= cells.len(),
        cell_rows(cells, n, env) is Ok,
    ensures
        cell_rows(cells, n, env)->Ok_0.len() == n,
    decreases n,
{
    if n > 0 {
        lemma_cell_rows_len(cells, (n - 1) as nat, env);
    }
}

/// A row of a matrix that was laid out has a cell in every column.
pub proof fn lemma_grid_row_len(row: Seq<Content>, m: nat, env: Env)
    requires
        grid_row(row, m, env) is Ok,
    ensures
        grid_row(row, m, env)->Ok_0.len() == m,
    decreases m,
{
    if m > 0 {
        lemma_grid_row_len(row, (m - 1) as nat, env);
    }
}

/// A matrix that was laid out has a row of the grid for each of its rows,
/// with a cell in every column.
pub proof fn lemma_grid_rows_len(rows: Seq<Vec<Content>>, n: nat, m: nat, env: Env)
    requires
        n <= rows.len(),
        grid_rows(rows, n, m, env) is Ok,
    ensures
        grid_rows(rows, n, m, env)->Ok_0.len() == n,
        forall|i: int| 0 <= i < n ==> (#[trigger] grid_rows(rows, n, m, env)->Ok_0[i]).len() == m,
    decreases n,
{
    if n > 0 {
        lemma_grid_rows_len(rows, (n - 1) as nat, m, env);
        lemma_grid_row_len(rows[n - 1]@, m, env);
    }
}

/// The body of a vector or of a case distinction holds one box for each
/// cell. It is as wide as the merged alignment of the cells makes it, and
/// as high as the boxes of its cells together and half an em between each
/// two. Without cells it has no extent.
pub proof fn lemma_vector_body(cells: Seq<Content>, env: Env, align: Align)
    requires
        vec_body(cells, env, align) is Ok,
    ensures
        ({
            let rows = cell_rows(cells, cells.len(), env)->Ok_0;
            let body = vec_body(cells, env, align)->Ok_0;
            let frames = aligned_frames(rows, alignment_model(rows).points, align);
            &&& rows.len() == cells.len()
            &&& body.items.len() == cells.len()
            &&& body.size.x == alignment_model(rows).width
            &&& forall|k: int| 0 <= k < rows.len() ==> (#[trigger] frames[k]).size.y == row_height(rows[k])
            &&& body.size.y == clamp(
                exact_heights(frames, rows.len()) + env.em(ROW_GAP) * gap_count(cells.len()),
            )
            &&& cells.len() == 0 ==> body.size == (Size { x: 0, y: 0 })
        }),
{
    let rows = cell_rows(cells, cells.len(), env)->Ok_0;
    lemma_cell_rows_len(cells, cells.len(), env);
    lemma_env_lengths_nonnegative(env, ROW_GAP);
    crate::stack::lemma_stacked(rows, align, env.em(ROW_GAP), 0);
}

/// The body of a matrix of `n` rows and `m` columns. Without rows or
/// without columns it has no extent. Else it holds a box for each cell, it
/// is as high as the ascents and descents of its rows together and half an
/// em between each two rows, and, where that fits the range of lengths, as
/// wide as its columns together and half an em between each two.
pub proof fn lemma_matrix_body(rows: Seq<Vec<Content>>, env: Env)
    requires
        mat_body(rows, env) is Ok,
    ensures
        rows.len() == 0 || column_count(rows) == 0 ==> mat_body(rows, env)->Ok_0
            == FrameModel::blank(Size { x: 0, y: 0 }),
        rows.len() > 0 && column_count(rows) > 0 ==> ({
            let n = rows.len();
            let m = column_count(rows);
            let grid = grid_rows(rows, n, m, env)->Ok_0;
            let body = mat_body(rows, env)->Ok_0;
            &&& grid.len() == n
            &&& forall|i: int| 0 <= i < n ==> (#[trigger] grid[i]).len() == m
            &&& body.items.len() == m * n
            &&& body.size.y == clamp(exact_bands(grid, n) + env.em(ROW_GAP) * (n - 1))
            &&& exact_columns(grid, m) + env.em(COL_GAP) * m <= i64::MAX ==> body.size.x
                == exact_columns(grid, m) + env.em(COL_GAP) * (m - 1)
        }),
{
    if rows.len() > 0 && column_count(rows) > 0 {
        let n = rows.len();
        let m = column_count(rows);
        let grid = grid_rows(rows, n, m, env)->Ok_0;
        lemma_grid_rows_len(rows, n, m, env);
        lemma_env_lengths_nonnegative(env, ROW_GAP);
        lemma_env_lengths_nonnegative(env, COL_GAP);
        crate::grid::lemma_body_height(grid, env.em(ROW_GAP));
        crate::grid::lemma_body_items_len(grid, env.em(ROW_GAP), env.em(COL_GAP), m);
        if exact_columns(grid, m) + env.em(COL_GAP) * m <= i64::MAX {
            crate::grid::lemma_body_width(grid, env.em(COL_GAP), m);
        }
    }
}

fn delimiter(ctx: &MathContext, c: char, target: Abs, span: Span) -> (r: Result<
    Glyph,
    LayoutError,
>)
    ensures
        r == delimiter_glyph(c, target, ctx.env(), span),
{
    match ctx.glyph(c, span) {
        Ok(base) => {
            let mut glyph = base.stretch_vertical(target, ctx.em(DELIM_SHORT_FALL));
            glyph.center_on_axis(ctx.axis_height());
            Ok(glyph)
        },
        Err(e) => Err(e),
    }
}

/// Lays out the outer wrapper around the body of a vector or a matrix:
/// centres the body on the math axis and writes the left delimiter, the
/// body and the right delimiter to the output. Nothing is written where a
/// delimiter has no glyph.
pub fn layout_delimiters(
    ctx: &mut MathContext,
    frame: Frame,
    left: Option<char>,
    right: Option<char>,
    span: Span,
) -> (r: Result<(), LayoutError>)
    ensures
        settled(*old(ctx), *final(ctx)),
        match delimited(frame@, left, right, old(ctx).env(), span) {
            Ok(fragments) => r is Ok && final(ctx).output() == old(ctx).output() + fragments,
            Err(e) => r == Err::<(), LayoutError>(e) && final(ctx).output() == old(ctx).output(),
        },
{
    let mut frame = frame;
    let ghost body = frame@;
    let ghost env = ctx.env();
    let axis = ctx.axis_height();
    let height = frame.height();
    let target = plus(height, scale(height, VERTICAL_PADDING, 1000));
    frame.set_baseline(plus(half(height), axis));
    assert(frame@ == centered_body(body, env));
    let left_glyph: Option<Glyph> = match left {
        Some(c) => match delimiter(ctx, c, target, span) {
            Ok(g) => Some(g),
            Err(e) => {
                return Err(e);
            },
        },
        None => None,
    };
    let right_glyph: Option<Glyph> = match right {
        Some(c) => match delimiter(ctx, c, target, span) {
            Ok(g) => Some(g),
            Err(e) => {
                return Err(e);
            },
        },
        None => None,
    };
    let ghost before = side(left, target, env, span)->Ok_0;
    let ghost after = side(right, target, env, span)->Ok_0;
    match left_glyph {
        Some(g) => {
            ctx.push(MathFragment::Glyph(g));
        },
        None => {},
    }
    assert(ctx.output() =~= old(ctx).output() + before);
    ctx.push(MathFragment::Frame(frame));
    match right_glyph {
        Some(g) => {
            ctx.push(MathFragment::Glyph(g));
        },
        None => {},
    }
    assert(ctx.output() =~= old(ctx).output() + (before + seq![
        FragmentModel::Frame(centered_body(body, env)),
    ] + after));
    Ok(())
}

/// Lays out one piece of the content at `span` and writes its fragments to
/// the output. Where the piece fails, nothing is written.
pub fn layout_piece(ctx: &mut MathContext, piece: &Piece, span: Span) -> (r: Result<
    (),
    LayoutError,
>)
    ensures
        settled(*old(ctx), *final(ctx)),
        match piece_row(*piece, span, old(ctx).env()) {
            Ok(fragments) => r is Ok && final(ctx).output() == old(ctx).output() + fragments,
            Err(e) => r == Err::<(), LayoutError>(e) && final(ctx).output() == old(ctx).output(),
        },
    decreases piece, 2nat,
{
    match piece {
        Piece::Glyph(info) => {
            let glyph = ctx.measure(*info, span);
            ctx.push(MathFragment::Glyph(glyph));
            assert(ctx.output() =~= old(ctx).output() + seq![FragmentModel::Glyph(glyph)]);
            Ok(())
        },
        Piece::Align => {
            ctx.push(MathFragment::Align);
            assert(ctx.output() =~= old(ctx).output() + seq![FragmentModel::Align]);
            Ok(())
        },
        Piece::Unresolved => Err(LayoutError::LayoutFailure { span }),
        Piece::Vector(e) => e.layout_math(ctx),
        Piece::Matrix(e) => e.layout_math(ctx),
        Piece::Cases(e) => e.layout_math(ctx),
    }
}

/// Takes back what was written to the output behind its first `start`
/// fragments.
fn rewind(ctx: &mut MathContext, start: usize)
    requires
        start <= old(ctx).output().len(),
    ensures
        settled(*old(ctx), *final(ctx)),
        final(ctx).output() == old(ctx).output().subrange(0, start as int),
{
    ctx.fragments.truncate(start);
    assert(ctx.output() =~= old(ctx).output().subrange(0, start as int));
}

/// What the first `n + 1` pieces are laid out into, from what the first `n`
/// and the next one are.
proof fn lemma_pieces_step(pieces: Seq<Piece>, n: nat, span: Span, env: Env)
    requires
        n < pieces.len(),
    ensures
        pieces_row(pieces, n + 1, span, env) == match pieces_row(pieces, n, span, env) {
            Err(e) => Err::<RowModel, LayoutError>(e),
            Ok(before) => match piece_row(pieces[n as int], span, env) {
                Err(e) => Err(e),
                Ok(more) => Ok(before + more),
            },
        },
{
}

/// Lays the content out and writes its fragments to the output. Where a
/// piece fails, nothing is written.
pub fn layout_content(ctx: &mut MathContext, content: &Content) -> (r: Result<(), LayoutError>)
    ensures
        settled(*old(ctx), *final(ctx)),
        match content_row(*content, old(ctx).env()) {
            Ok(fragments) => r is Ok && final(ctx).output() == old(ctx).output() + fragments,
            Err(e) => r == Err::<(), LayoutError>(e) && final(ctx).output() == old(ctx).output(),
        },
    decreases content, 0nat,
{
    let ghost env = ctx.env();
    let ghost written = ctx.output();
    let ghost pieces = content.pieces@;
    let start: usize = ctx.fragments.len();
    let span = content.span;
    let ghost mut partial: RowModel = Seq::empty();
    let mut i: usize = 0;
    assert(ctx.output() =~= written + partial);
    while i < content.pieces.len()
        invariant
            i <= content.pieces.len(),
            pieces == content.pieces@,
            span == content.span,
            settled(*old(ctx), *ctx),
            env == old(ctx).env(),
            env == ctx.env(),
            written == old(ctx).output(),
            start == written.len(),
            pieces_row(pieces, i as nat, span, env) == Ok::<RowModel, LayoutError>(partial),
            ctx.output() == written + partial,
        decreases content.pieces.len() - i,
    {
        let ghost so_far = ctx.output();
        proof {
            lemma_pieces_step(pieces, i as nat, span, env);
        }
        match layout_piece(ctx, &content.pieces[i], span) {
            Ok(()) => {
                proof {
                    let more = piece_row(pieces[i as int], span, env)->Ok_0;
                    assert(so_far + more =~= written + (partial + more));
                    partial = partial + more;
                }
            },
            Err(e) => {
                proof {
                    lemma_pieces_failure(pieces, (i + 1) as nat, pieces.len(), span, env);
                }
                rewind(ctx, start);
                assert((written + partial).subrange(0, start as int) =~= written);
                return Err(e);
            },
        }
        i += 1;
    }
    Ok(())
}

/// Lays the content out into a row of its own. The output of the context
/// stays as it is.
pub fn layout_row(ctx: &mut MathContext, content: &Content) -> (r: Result<MathRow, LayoutError>)
    ensures
        settled(*old(ctx), *final(ctx)),
        final(ctx).output() == old(ctx).output(),
        match content_row(*content, old(ctx).env()) {
            Ok(row) => r is Ok && r->Ok_0@ == row,
            Err(e) => r is Err && r->Err_0 == e,
        },
    decreases content, 1nat,
{
    let mut held: Vec<MathFragment> = Vec::new();
    core::mem::swap(&mut ctx.fragments, &mut held);
    assert(ctx.output() =~= Seq::<FragmentModel>::empty());
    let result = layout_content(ctx, content);
    core::mem::swap(&mut ctx.fragments, &mut held);
    match result {
        Ok(()) => {
            let row = MathRow::from_fragments(held);
            assert(row@ =~= content_row(*content, old(ctx).env())->Ok_0);
            Ok(row)
        },
        Err(e) => Err(e),
    }
}

/// Lays out one cell: its content in the reduced style of a denominator.
/// The style of the context is the same afterwards, whether the layout
/// succeeds or fails.
pub fn layout_cell(ctx: &mut MathContext, content: &Content) -> (r: Result<MathRow, LayoutError>)
    ensures
        settled(*old(ctx), *final(ctx)),
        final(ctx).output() == old(ctx).output(),
        match cell_row(*content, old(ctx).env()) {
            Ok(row) => r is Ok && r->Ok_0@ == row,
            Err(e) => r is Err && r->Err_0 == e,
        },
    decreases content, 2nat,
{
    let reduced = ctx.style.for_denominator();
    ctx.style(reduced);
    let result = layout_row(ctx, content);
    ctx.unstyle();
    assert(ctx.saved@ =~= old(ctx).saved@);
    result
}

/// Lays out the inner contents of a vector: every cell in the reduced
/// style, stacked with the row gap between them.
pub fn layout_vec_body(ctx: &mut MathContext, column: &Vec<Content>, align: Align) -> (r: Result<
    Frame,
    LayoutError,
>)
    ensures
        settled(*old(ctx), *final(ctx)),
        final(ctx).output() == old(ctx).output(),
        match vec_body(column@, old(ctx).env(), align) {
            Ok(body) => r is Ok && r->Ok_0@ == body,
            Err(e) => r is Err && r->Err_0 == e,
        },
    decreases column, 0nat,
{
    let ghost env = ctx.env();
    let gap = ctx.em(ROW_GAP);
    let mut flat: Vec<MathRow> = Vec::new();
    let mut i: usize = 0;
    assert(row_models(flat@) =~= Seq::<RowModel>::empty());
    while i < column.len()
        invariant
            i <= column.len(),
            settled(*old(ctx), *ctx),
            ctx.output() == old(ctx).output(),
            env == old(ctx).env(),
            cell_rows(column@, i as nat, env) == Ok::<Seq<RowModel>, LayoutError>(
                row_models(flat@),
            ),
        decreases column.len() - i,
    {
        match layout_cell(ctx, &column[i]) {
            Ok(row) => {
                let ghost before = row_models(flat@);
                flat.push(row);
                assert(row_models(flat@) =~= before.push(row@));
            },
            Err(e) => {
                proof {
                    lemma_cells_failure(column@, (i + 1) as nat, column@.len(), env);
                }
                return Err(e);
            },
        }
        i += 1;
    }
    Ok(stack(flat, align, gap, 0))
}

/// Lays out the cells of one row of a matrix of `m` columns and appends
/// each to its column.
fn layout_grid_row(
    ctx: &mut MathContext,
    row: &Vec<Content>,
    cols: &mut Vec<Vec<MathRow>>,
    done: usize,
) -> (r: Result<(), LayoutError>)
    requires
        columns_filled(old(cols)@, done as nat),
    ensures
        settled(*old(ctx), *final(ctx)),
        final(ctx).output() == old(ctx).output(),
        match grid_row(row@, old(cols)@.len(), old(ctx).env()) {
            Ok(cells) => {
                &&& r is Ok
                &&& final(cols)@.len() == old(cols)@.len()
                &&& columns_filled(final(cols)@, (done + 1) as nat)
                &&& grid_of(final(cols)@, (done + 1) as nat) == grid_of(
                    old(cols)@,
                    done as nat,
                ).push(cells)
            },
            Err(e) => r is Err && r->Err_0 == e,
        },
    decreases row, 0nat,
{
    let ghost env = ctx.env();
    let ghost n = done as nat;
    let ghost above = grid_of(cols@, n);
    let m: usize = cols.len();
    let ghost mut cells: Seq<RowModel> = Seq::empty();
    let mut j: usize = 0;
    while j < m
        invariant
            j <= m,
            m == old(cols)@.len(),
            cols@.len() == m,
            n == above.len(),
            settled(*old(ctx), *ctx),
            ctx.output() == old(ctx).output(),
            env == old(ctx).env(),
            grid_row(row@, j as nat, env) == Ok::<Seq<RowModel>, LayoutError>(cells),
            cells.len() == j,
            forall|c: int| 0 <= c < j ==> (#[trigger] cols@[c])@.len() == n + 1,
            forall|c: int| j <= c < m ==> (#[trigger] cols@[c])@.len() == n,
            forall|c: int, k: int|
                0 <= c < m && 0 <= k < n ==> (#[trigger] cols@[c]@[k])@ == above[k][c],
            forall|c: int| 0 <= c < j ==> (#[trigger] cols@[c]@[n as int])@ == cells[c],
        decreases m - j,
    {
        let cell: MathRow = if j < row.len() {
            match layout_cell(ctx, &row[j]) {
                Ok(cell) => cell,
                Err(e) => {
                    proof {
                        lemma_grid_row_failure(row@, (j + 1) as nat, m as nat, env);
                    }
                    return Err(e);
                },
            }
        } else {
            MathRow::new()
        };
        proof {
            cells = cells.push(cell@);
        }
        let ghost before = cols@;
        assert(forall|c: int, k: int|
            0 <= c < m && 0 <= k < n ==> (#[trigger] before[c]@[k])@ == above[k][c]);
        cols[j].push(cell);
        assert(forall|c: int| 0 <= c < m && c != j ==> cols@[c] == before[c]);
        assert(cols@[j as int]@ == before[j as int]@.push(cell));
        assert forall|c: int, k: int| 0 <= c < m && 0 <= k < n implies (#[trigger] cols@[c]@[k])@
            == above[k][c] by {
            assert((before[c]@[k])@ == above[k][c]);
        }
        j += 1;
    }
    assert(columns_filled(cols@, n + 1));
    assert(grid_of(cols@, n + 1) =~~= above.push(cells)) by {
        assert forall|i: int| 0 <= i < n + 1 implies #[trigger] grid_of(cols@, n + 1)[i]
            =~= above.push(cells)[i] by {
            if i < n {
                assert(above[i] == grid_of(old(cols)@, n)[i]);
                assert forall|c: int| 0 <= c < m implies grid_of(cols@, n + 1)[i][c]
                    == above[i][c] by {
                    assert((cols@[c]@[i])@ == above[i][c]);
                }
            } else {
                assert forall|c: int| 0 <= c < m implies grid_of(cols@, n + 1)[i][c]
                    == cells[c] by {
                    assert((cols@[c]@[n as int])@ == cells[c]);
                }
            }
        }
    }
    Ok(())
}

/// Lays out the inner contents of a matrix: every cell in the reduced
/// style, arranged in rows and columns with the row gap and the column gap
/// between them. The matrix has as many columns as its first row has
/// cells.
pub fn layout_mat_body(ctx: &mut MathContext, rows: &Vec<Vec<Content>>) -> (r: Result<
    Frame,
    LayoutError,
>)
    ensures
        settled(*old(ctx), *final(ctx)),
        final(ctx).output() == old(ctx).output(),
        match mat_body(rows@, old(ctx).env()) {
            Ok(body) => r is Ok && r->Ok_0@ == body,
            Err(e) => r is Err && r->Err_0 == e,
        },
    decreases rows, 0nat,
{
    let ghost env = ctx.env();
    let row_gap = ctx.em(ROW_GAP);
    let col_gap = ctx.em(COL_GAP);
    let nrows: usize = rows.len();
    let ncols: usize = if nrows == 0 {
        0
    } else {
        rows[0].len()
    };
    if ncols == 0 || nrows == 0 {
        return Ok(Frame::new(Size::zero()));
    }
    let mut cols: Vec<Vec<MathRow>> = Vec::new();
    let mut j: usize = 0;
    while j < ncols
        invariant
            j <= ncols,
            cols@.len() == j,
            forall|c: int| 0 <= c < j ==> (#[trigger] cols@[c])@.len() == 0,
        decreases ncols - j,
    {
        cols.push(Vec::new());
        j += 1;
    }
    let ghost mut grid: GridModel = Seq::empty();
    assert(grid_of(cols@, 0) =~= grid);
    let mut i: usize = 0;
    while i < nrows
        invariant
            i <= nrows,
            nrows == rows@.len(),
            ncols == column_count(rows@),
            cols@.len() == ncols,
            settled(*old(ctx), *ctx),
            ctx.output() == old(ctx).output(),
            env == old(ctx).env(),
            grid.len() == i,
            grid_rows(rows@, i as nat, ncols as nat, env) == Ok::<GridModel, LayoutError>(grid),
            columns_filled(cols@, i as nat),
            grid_of(cols@, i as nat) == grid,
        decreases nrows - i,
    {
        match layout_grid_row(ctx, &rows[i], &mut cols, i) {
            Ok(()) => {
                proof {
                    grid = grid.push(grid_row(rows@[i as int]@, ncols as nat, env)->Ok_0);
                }
            },
            Err(e) => {
                proof {
                    lemma_grid_failure(rows@, (i + 1) as nat, rows@.len(), ncols as nat, env);
                }
                return Err(e);
            },
        }
        i += 1;
    }
    Ok(arrange(cols, nrows, row_gap, col_gap))
}

impl VecElem {
    /// Lays out the vector: its cells stacked and centred, in the
    /// configured delimiters.
    pub fn layout_math(&self, ctx: &mut MathContext) -> (r: Result<(), LayoutError>)
        ensures
            settled(*old(ctx), *final(ctx)),
            match vec_row(*self, old(ctx).env()) {
                Ok(fragments) => r is Ok && final(ctx).output() == old(ctx).output() + fragments,
                Err(e) => r == Err::<(), LayoutError>(e) && final(ctx).output() == old(
                    ctx,
                ).output(),
            },
        decreases self, 1nat,
    {
        let frame = match layout_vec_body(ctx, &self.children, Align::Center) {
            Ok(frame) => frame,
            Err(e) => {
                return Err(e);
            },
        };
        let (left, right) = match self.delim {
            Some(d) => (Some(d.open()), Some(d.close())),
            None => (None, None),
        };
        layout_delimiters(ctx, frame, left, right, self.span)
    }
}

impl MatElem {
    /// Lays out the matrix: its cells in a grid, in the configured
    /// delimiters.
    pub fn layout_math(&self, ctx: &mut MathContext) -> (r: Result<(), LayoutError>)
        ensures
            settled(*old(ctx), *final(ctx)),
            match mat_row(*self, old(ctx).env()) {
                Ok(fragments) => r is Ok && final(ctx).output() == old(ctx).output() + fragments,
                Err(e) => r == Err::<(), LayoutError>(e) && final(ctx).output() == old(
                    ctx,
                ).output(),
            },
        decreases self, 1nat,
    {
        let frame = match layout_mat_body(ctx, &self.rows) {
            Ok(frame) => frame,
            Err(e) => {
                return Err(e);
            },
        };
        let (left, right) = match self.delim {
            Some(d) => (Some(d.open()), Some(d.close())),
            None => (None, None),
        };
        layout_delimiters(ctx, frame, left, right, self.span)
    }
}

impl CasesElem {
    /// Lays out the case distinction: its branches stacked and aligned on
    /// the left, behind an opening brace.
    pub fn layout_math(&self, ctx: &mut MathContext) -> (r: Result<(), LayoutError>)
        ensures
            settled(*old(ctx), *final(ctx)),
            match cases_row(*self, old(ctx).env()) {
                Ok(fragments) => r is Ok && final(ctx).output() == old(ctx).output() + fragments,
                Err(e) => r == Err::<(), LayoutError>(e) && final(ctx).output() == old(
                    ctx,
                ).output(),
            },
        decreases self, 1nat,
    {
        let frame = match layout_vec_body(ctx, &self.children, Align::Left) {
            Ok(frame) => frame,
            Err(e) => {
                return Err(e);
            },
        };
        layout_delimiters(ctx, frame, Some(Delimiter::Brace.open()), None, self.span)
    }
}

} // verus!
