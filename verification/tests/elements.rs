use matrix_layout::content::{Arg, CasesElem, Content, MatElem, Piece, VecElem};
use matrix_layout::context::{Font, GlyphInfo, MathContext, MathSize, MathStyle};
use matrix_layout::delimiter::Delimiter;
use matrix_layout::frame::{Frame, FrameItem, Glyph, Point, Size};
use matrix_layout::grid::arrange;
use matrix_layout::matrix::{
    layout_content, layout_mat_body, layout_piece, layout_row, layout_vec_body,
};
use matrix_layout::row::{Align, MathFragment, MathRow};
use matrix_layout::source::{LayoutError, Span};

fn info(c: char, width: u32, ascent: u32, descent: u32) -> GlyphInfo {
    GlyphInfo { c, width, ascent, descent }
}

fn font() -> Font {
    let mut glyphs = Vec::new();
    for c in ['(', ')', '[', ']', '{', '}', '|', '\u{2016}'] {
        glyphs.push(info(c, 400, 800, 200));
    }
    Font { axis_height: 250, script_percent: 70, script_script_percent: 50, glyphs }
}

fn display() -> MathStyle {
    MathStyle { size: MathSize::Display, cramped: false }
}

fn context() -> MathContext {
    MathContext::new(font(), 1000, display())
}

fn cell(c: char, width: u32, ascent: u32, descent: u32, id: u64) -> Content {
    Content::glyph(info(c, width, ascent, descent), Span { id })
}

fn glyph_of(fragment: &MathFragment) -> Glyph {
    match fragment {
        MathFragment::Glyph(g) => *g,
        other => panic!("expected a glyph, found {:?}", other),
    }
}

fn frame_of(fragment: &MathFragment) -> &Frame {
    match fragment {
        MathFragment::Frame(f) => f,
        other => panic!("expected a frame, found {:?}", other),
    }
}

fn group_of(item: &(Point, FrameItem)) -> (Point, &Frame) {
    match &item.1 {
        FrameItem::Group(f) => (item.0, f),
        other => panic!("expected a box, found {:?}", other),
    }
}

fn three_cells() -> Vec<Content> {
    vec![cell('a', 500, 700, 0, 1), cell('b', 300, 700, 0, 2), cell('c', 700, 700, 0, 3)]
}

#[test]
fn vector_of_three_cells_in_parentheses() {
    let mut ctx = context();
    let elem = VecElem::new(three_cells(), Span { id: 9 });
    assert_eq!(elem.delim, Some(Delimiter::Paren));
    assert_eq!(elem.layout_math(&mut ctx), Ok(()));
    assert_eq!(ctx.fragments.len(), 3);

    let left = glyph_of(&ctx.fragments[0]);
    let right = glyph_of(&ctx.fragments[2]);
    assert_eq!(left.c, '(');
    assert_eq!(right.c, ')');

    let body = frame_of(&ctx.fragments[1]);
    // Three cells of height 700 and two gaps of half an em.
    assert_eq!(body.size, Size { x: 700, y: 700 * 3 + 2 * 500 });
    assert_eq!(body.items.len(), 3);
    let (at0, cell0) = group_of(&body.items[0]);
    let (at1, cell1) = group_of(&body.items[1]);
    let (at2, cell2) = group_of(&body.items[2]);
    assert_eq!(at0, Point { x: 100, y: 0 });
    assert_eq!(at1, Point { x: 200, y: 1200 });
    assert_eq!(at2, Point { x: 0, y: 2400 });
    assert_eq!(cell0.size, Size { x: 500, y: 700 });
    assert_eq!(cell1.size, Size { x: 300, y: 700 });
    assert_eq!(cell2.size, Size { x: 700, y: 700 });
    // The body is centred on the math axis.
    assert_eq!(body.baseline, 3100 / 2 + 250);
}

#[test]
fn delimiters_are_stretched_to_eleven_tenths_of_the_body() {
    let mut ctx = context();
    let elem = VecElem::new(three_cells(), Span { id: 9 });
    assert_eq!(elem.layout_math(&mut ctx), Ok(()));
    let left = glyph_of(&ctx.fragments[0]);
    // Target 3100 * 1.1 = 3410, less the short fall of a tenth of an em.
    assert_eq!(left.ascent + left.descent, 3410 - 100);
    assert_eq!(left.ascent, 3310 / 2 + 250);
    assert_eq!(left.descent, 3310 - (3310 / 2 + 250));
    assert_eq!(left.width, 400);
    assert_eq!(left.span, Span { id: 9 });
    assert_eq!(glyph_of(&ctx.fragments[2]).ascent, left.ascent);
}

fn two_by_two() -> MatElem {
    MatElem::new(
        vec![
            Arg::Array(vec![cell('1', 500, 700, 0, 1), cell('2', 600, 700, 100, 2)]),
            Arg::Array(vec![cell('3', 400, 600, 0, 3), cell('4', 800, 700, 200, 4)]),
        ],
        Span { id: 9 },
    )
}

#[test]
fn matrix_of_two_arrays_is_two_by_two() {
    let elem = two_by_two();
    assert_eq!(elem.delim, Some(Delimiter::Paren));
    assert_eq!(elem.row_count(), 2);
    assert_eq!(elem.col_count(), 2);
    assert_eq!(elem.rows[0].len(), 2);
    assert_eq!(elem.rows[1].len(), 2);

    let mut ctx = context();
    assert_eq!(elem.layout_math(&mut ctx), Ok(()));
    assert_eq!(ctx.fragments.len(), 3);
    assert_eq!(glyph_of(&ctx.fragments[0]).c, '(');
    assert_eq!(glyph_of(&ctx.fragments[2]).c, ')');
    let body = frame_of(&ctx.fragments[1]);
    // Two columns of width 500 and 800 and one gap of half an em.
    assert_eq!(body.size.x, 500 + 800 + 500);
    // Rows of height 700 + 100 and 700 + 200 and one gap.
    assert_eq!(body.size.y, 800 + 900 + 500);
    assert_eq!(body.items.len(), 4);
    let (at00, cell00) = group_of(&body.items[0]);
    let (at10, cell10) = group_of(&body.items[1]);
    let (at01, cell01) = group_of(&body.items[2]);
    let (at11, cell11) = group_of(&body.items[3]);
    assert_eq!(at00, Point { x: 0, y: 0 });
    assert_eq!(at10, Point { x: 50, y: 1300 + 700 - 600 });
    assert_eq!(at01, Point { x: 1100, y: 0 });
    assert_eq!(at11, Point { x: 1000, y: 1300 });
    assert_eq!(cell00.size, Size { x: 500, y: 700 });
    assert_eq!(cell10.size, Size { x: 400, y: 600 });
    assert_eq!(cell01.size, Size { x: 600, y: 800 });
    assert_eq!(cell11.size, Size { x: 800, y: 900 });
    assert_eq!(cell01.baseline, 700);
}

#[test]
fn matrix_of_four_scalars_is_one_row() {
    let elem = MatElem::new(
        vec![
            Arg::Cell(cell('1', 500, 700, 0, 1)),
            Arg::Cell(cell('2', 500, 700, 0, 2)),
            Arg::Cell(cell('3', 500, 700, 0, 3)),
            Arg::Cell(cell('4', 500, 700, 0, 4)),
        ],
        Span { id: 9 },
    );
    assert_eq!(elem.row_count(), 1);
    assert_eq!(elem.col_count(), 4);
    assert_eq!(elem.rows[0][2], cell('3', 500, 700, 0, 3));

    let mut ctx = context();
    assert_eq!(elem.layout_math(&mut ctx), Ok(()));
    let body = frame_of(&ctx.fragments[1]);
    assert_eq!(body.size, Size { x: 4 * 500 + 3 * 500, y: 700 });
    assert_eq!(body.items.len(), 4);
}

fn four_branches() -> Vec<Content> {
    vec![
        cell('1', 500, 700, 0, 1),
        cell('2', 300, 700, 0, 2),
        cell('3', 700, 700, 0, 3),
        cell('4', 200, 700, 0, 4),
    ]
}

#[test]
fn cases_with_bracket_still_open_with_a_brace() {
    let elem = CasesElem::new(four_branches(), Span { id: 9 }).with_delim(Delimiter::Bracket);
    assert_eq!(elem.delim, Delimiter::Bracket);
    let mut ctx = context();
    assert_eq!(elem.layout_math(&mut ctx), Ok(()));
    assert_eq!(ctx.fragments.len(), 2);
    assert_eq!(glyph_of(&ctx.fragments[0]).c, '{');
    let body = frame_of(&ctx.fragments[1]);
    assert_eq!(body.size, Size { x: 700, y: 4 * 700 + 3 * 500 });
    // Branches stand at the left edge.
    for item in &body.items {
        assert_eq!(item.0.x, 0);
    }
}

#[test]
fn cases_layout_is_the_same_for_every_delimiter() {
    let mut expected = context();
    CasesElem::new(four_branches(), Span { id: 9 }).layout_math(&mut expected).unwrap();
    for delim in [
        Delimiter::Paren,
        Delimiter::Bracket,
        Delimiter::Brace,
        Delimiter::Bar,
        Delimiter::DoubleBar,
    ] {
        let mut ctx = context();
        let elem = CasesElem::new(four_branches(), Span { id: 9 }).with_delim(delim);
        assert_eq!(elem.layout_math(&mut ctx), Ok(()));
        assert_eq!(ctx.fragments, expected.fragments);
    }
}

#[test]
fn vector_without_delimiter_is_the_body_alone() {
    let mut bare = context();
    let body = layout_vec_body(&mut bare, &three_cells(), Align::Center).unwrap();
    assert!(bare.fragments.is_empty());

    let mut ctx = context();
    let elem = VecElem::new(three_cells(), Span { id: 9 }).with_delim(None);
    assert_eq!(elem.layout_math(&mut ctx), Ok(()));
    assert_eq!(ctx.fragments.len(), 1);
    let written = frame_of(&ctx.fragments[0]);
    assert_eq!(written.size, body.size);
    assert_eq!(written.items, body.items);
    assert_eq!(written.baseline, body.size.y / 2 + 250);
}

#[test]
fn matrix_without_delimiter_is_the_body_alone() {
    let mut bare = context();
    let body = layout_mat_body(&mut bare, &two_by_two().rows).unwrap();

    let mut ctx = context();
    let elem = two_by_two().with_delim(None);
    assert_eq!(elem.layout_math(&mut ctx), Ok(()));
    assert_eq!(ctx.fragments.len(), 1);
    let written = frame_of(&ctx.fragments[0]);
    assert_eq!(written.size, body.size);
    assert_eq!(written.items, body.items);
}

#[test]
fn each_delimiter_encloses_with_its_own_pair() {
    for (delim, open, close) in [
        (Delimiter::Paren, '(', ')'),
        (Delimiter::Bracket, '[', ']'),
        (Delimiter::Brace, '{', '}'),
        (Delimiter::Bar, '|', '|'),
        (Delimiter::DoubleBar, '\u{2016}', '\u{2016}'),
    ] {
        let mut ctx = context();
        let elem = VecElem::new(three_cells(), Span { id: 9 }).with_delim(Some(delim));
        assert_eq!(elem.layout_math(&mut ctx), Ok(()));
        assert_eq!(glyph_of(&ctx.fragments[0]).c, open);
        assert_eq!(glyph_of(&ctx.fragments[2]).c, close);
    }
}

#[test]
fn unresolved_cell_fails_with_its_own_span() {
    let mut ctx = context();
    let broken = Content::new(vec![Piece::Glyph(info('x', 500, 700, 0)), Piece::Unresolved], Span {
        id: 7,
    });
    let elem = VecElem::new(
        vec![cell('a', 500, 700, 0, 1), broken, cell('c', 700, 700, 0, 3)],
        Span { id: 9 },
    );
    assert_eq!(
        elem.layout_math(&mut ctx),
        Err(LayoutError::LayoutFailure { span: Span { id: 7 } })
    );
    // Nothing was written, and the style is the one from before.
    assert!(ctx.fragments.is_empty());
    assert_eq!(ctx.style, display());
    assert!(ctx.saved.is_empty());
}

#[test]
fn first_failing_cell_of_a_matrix_decides() {
    let mut ctx = context();
    let bad = |id: u64| Content::new(vec![Piece::Unresolved], Span { id });
    let elem = MatElem::new(
        vec![
            Arg::Array(vec![cell('1', 500, 700, 0, 1), bad(12)]),
            Arg::Array(vec![bad(21), cell('4', 800, 700, 200, 4)]),
        ],
        Span { id: 9 },
    );
    let failure = elem.layout_math(&mut ctx).unwrap_err();
    assert_eq!(failure, LayoutError::LayoutFailure { span: Span { id: 12 } });
    assert_eq!(failure.span(), Span { id: 12 });
    assert!(ctx.fragments.is_empty());
    assert_eq!(ctx.style, display());
    assert!(ctx.saved.is_empty());
}

#[test]
fn missing_delimiter_glyph_fails_and_writes_nothing() {
    let mut font = font();
    font.glyphs.retain(|g| g.c != ')');
    let mut ctx = MathContext::new(font, 1000, display());
    let elem = VecElem::new(three_cells(), Span { id: 9 });
    assert_eq!(
        elem.layout_math(&mut ctx),
        Err(LayoutError::GlyphFailure { span: Span { id: 9 }, glyph: ')' })
    );
    assert!(ctx.fragments.is_empty());
    // Without delimiters the same vector has no need of the glyph.
    let bare = VecElem::new(three_cells(), Span { id: 9 }).with_delim(None);
    assert_eq!(bare.layout_math(&mut ctx), Ok(()));
}

#[test]
fn cells_are_set_in_the_reduced_style() {
    // In text style the cells are set in script style, at 70 percent.
    let mut ctx = MathContext::new(font(), 1000, MathStyle { size: MathSize::Text, cramped: false });
    let body = layout_vec_body(&mut ctx, &three_cells(), Align::Center).unwrap();
    // The gap is half an em of the surrounding size.
    assert_eq!(body.size, Size { x: 490, y: 3 * 490 + 2 * 500 });
    assert_eq!(ctx.style, MathStyle { size: MathSize::Text, cramped: false });
    // In script style they are set in second-level script style.
    let mut ctx =
        MathContext::new(font(), 1000, MathStyle { size: MathSize::Script, cramped: false });
    let body = layout_vec_body(&mut ctx, &three_cells(), Align::Center).unwrap();
    assert_eq!(body.size, Size { x: 350, y: 3 * 350 + 2 * 350 });
}

#[test]
fn nested_vector_is_laid_out_inside_its_cell() {
    let inner = VecElem::new(vec![cell('x', 500, 700, 0, 1)], Span { id: 5 });
    let outer = VecElem::new(
        vec![Content::new(vec![Piece::Vector(inner)], Span { id: 6 })],
        Span { id: 9 },
    );
    let mut ctx = context();
    assert_eq!(outer.layout_math(&mut ctx), Ok(()));
    assert_eq!(ctx.fragments.len(), 3);
    let body = frame_of(&ctx.fragments[1]);
    // The cell holds "(", the inner body and ")".
    assert_eq!(body.size, Size { x: 400 + 350 + 400, y: 1000 });
    assert_eq!(body.items.len(), 1);
    let (pos, cell_frame) = group_of(&body.items[0]);
    assert_eq!(pos, Point { x: 0, y: 0 });
    assert_eq!(cell_frame.items.len(), 3);
    assert_eq!(cell_frame.baseline, 750);
    match &cell_frame.items[0] {
        (p, FrameItem::Glyph(g)) => {
            assert_eq!(*p, Point { x: 0, y: 0 });
            assert_eq!((g.c, g.ascent, g.descent), ('(', 750, 250));
        },
        other => panic!("unexpected item {:?}", other),
    }
    let (inner_pos, inner_body) = group_of(&cell_frame.items[1]);
    assert_eq!(inner_pos, Point { x: 400, y: 750 - 495 });
    assert_eq!(inner_body.size, Size { x: 350, y: 490 });
    assert_eq!(inner_body.baseline, 495);
    match &cell_frame.items[2] {
        (p, FrameItem::Glyph(g)) => {
            assert_eq!(*p, Point { x: 750, y: 0 });
            assert_eq!(g.c, ')');
        },
        other => panic!("unexpected item {:?}", other),
    }
}

#[test]
fn failure_inside_a_nested_matrix_reaches_the_top_unchanged() {
    let inner = MatElem::new(
        vec![Arg::Cell(Content::new(vec![Piece::Unresolved], Span { id: 77 }))],
        Span { id: 5 },
    );
    let outer = CasesElem::new(
        vec![cell('a', 500, 700, 0, 1), Content::new(vec![Piece::Matrix(inner)], Span { id: 6 })],
        Span { id: 9 },
    );
    let mut ctx = context();
    assert_eq!(
        outer.layout_math(&mut ctx),
        Err(LayoutError::LayoutFailure { span: Span { id: 77 } })
    );
    assert!(ctx.fragments.is_empty());
    assert_eq!(ctx.style, display());
    assert!(ctx.saved.is_empty());
}

#[test]
fn content_is_written_piece_by_piece() {
    let mut ctx = context();
    let content = Content::new(
        vec![Piece::Glyph(info('a', 500, 700, 0)), Piece::Align, Piece::Glyph(info('b', 300, 600, 100))],
        Span { id: 3 },
    );
    assert_eq!(layout_content(&mut ctx, &content), Ok(()));
    assert_eq!(ctx.fragments.len(), 3);
    assert_eq!(
        glyph_of(&ctx.fragments[0]),
        Glyph { c: 'a', width: 500, ascent: 700, descent: 0, span: Span { id: 3 } }
    );
    assert_eq!(ctx.fragments[1], MathFragment::Align);
    assert_eq!(glyph_of(&ctx.fragments[2]).descent, 100);

    // A row of its own leaves the output as it is.
    let row = layout_row(&mut ctx, &content).unwrap();
    assert_eq!(row.len(), 3);
    assert_eq!(row.width(), 800);
    assert_eq!(ctx.fragments.len(), 3);

    // A failing piece takes back what the pieces before it wrote.
    let broken = Content::new(
        vec![Piece::Glyph(info('a', 500, 700, 0)), Piece::Unresolved],
        Span { id: 4 },
    );
    assert_eq!(
        layout_content(&mut ctx, &broken),
        Err(LayoutError::LayoutFailure { span: Span { id: 4 } })
    );
    assert_eq!(ctx.fragments.len(), 3);
    assert_eq!(
        layout_piece(&mut ctx, &Piece::Unresolved, Span { id: 5 }),
        Err(LayoutError::LayoutFailure { span: Span { id: 5 } })
    );
    assert_eq!(layout_piece(&mut ctx, &Piece::Align, Span { id: 5 }), Ok(()));
    assert_eq!(ctx.fragments.len(), 4);
}

#[test]
fn cells_of_a_vector_can_be_aligned() {
    let aligned = |a: u32, b: u32, id: u64| {
        Content::new(
            vec![Piece::Glyph(info('x', a, 700, 0)), Piece::Align, Piece::Glyph(info('y', b, 700, 0))],
            Span { id },
        )
    };
    let mut ctx = context();
    let body = layout_vec_body(&mut ctx, &vec![aligned(100, 200, 1), aligned(300, 50, 2)], Align::Center)
        .unwrap();
    assert_eq!(body.size, Size { x: 500, y: 700 + 700 + 500 });
    let (first_at, first) = group_of(&body.items[0]);
    let (second_at, second) = group_of(&body.items[1]);
    assert_eq!(first_at, Point { x: 0, y: 0 });
    assert_eq!(second_at, Point { x: 0, y: 1200 });
    assert_eq!(first.items[0].0.x, 200);
    assert_eq!(first.items[1].0.x, 300);
    assert_eq!(second.items[0].0.x, 0);
    assert_eq!(second.items[1].0.x, 300);
    assert_eq!(first.size.x, 500);
    assert_eq!(second.size.x, 350);
}

#[test]
fn columns_of_a_matrix_with_alignment_points_stand_at_their_left_edge() {
    let aligned = |a: u32, b: u32, id: u64| {
        Content::new(
            vec![Piece::Glyph(info('x', a, 700, 0)), Piece::Align, Piece::Glyph(info('y', b, 700, 0))],
            Span { id },
        )
    };
    let rows = vec![
        vec![cell('1', 400, 700, 0, 1), aligned(100, 200, 2)],
        vec![cell('3', 200, 700, 0, 3), aligned(300, 50, 4)],
    ];
    let mut ctx = context();
    let body = layout_mat_body(&mut ctx, &rows).unwrap();
    assert_eq!(body.size, Size { x: 400 + 500 + 500, y: 700 + 700 + 500 });
    assert_eq!(group_of(&body.items[1]).0, Point { x: 100, y: 1200 });
    assert_eq!(group_of(&body.items[2]).0, Point { x: 900, y: 0 });
    assert_eq!(group_of(&body.items[3]).0, Point { x: 900, y: 1200 });
}

#[test]
fn grid_is_arranged_column_by_column() {
    let one = |width: i64, ascent: i64, descent: i64| {
        MathRow::from_fragments(vec![MathFragment::Glyph(Glyph {
            c: 'x',
            width,
            ascent,
            descent,
            span: Span { id: 1 },
        })])
    };
    let cols = vec![
        vec![one(500, 700, 0), one(400, 600, 0)],
        vec![one(600, 700, 100), one(800, 700, 200)],
    ];
    let body = arrange(cols, 2, 30, 20);
    assert_eq!(body.size, Size { x: 500 + 20 + 800, y: 800 + 30 + 900 });
    assert_eq!(body.baseline, body.size.y);
    assert_eq!(group_of(&body.items[1]).0, Point { x: 50, y: 830 + 700 - 600 });
    assert_eq!(group_of(&body.items[2]).0, Point { x: 520 + 100, y: 0 });
    assert_eq!(arrange(vec![], 0, 30, 20).size, Size { x: 0, y: 0 });
    assert_eq!(arrange(vec![vec![], vec![]], 0, 30, 20).size, Size { x: 20, y: 0 });
}
