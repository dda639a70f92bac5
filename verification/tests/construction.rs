use matrix_layout::content::{Arg, CasesElem, Content, MatElem, Piece, VecElem};
use matrix_layout::context::{Font, GlyphInfo, MathContext, MathSize, MathStyle};
use matrix_layout::delimiter::{Delimiter, UnknownDelimiter};
use matrix_layout::frame::{Frame, Size};
use matrix_layout::matrix::{layout_cell, layout_mat_body, layout_vec_body};
use matrix_layout::row::{Align, MathFragment};
use matrix_layout::source::Span;

fn cell(c: char, id: u64) -> Content {
    Content::glyph(GlyphInfo { c, width: 500, ascent: 700, descent: 0 }, Span { id })
}

fn context() -> MathContext {
    let font = Font {
        axis_height: 250,
        script_percent: 70,
        script_script_percent: 50,
        glyphs: vec![
            GlyphInfo { c: '(', width: 400, ascent: 800, descent: 200 },
            GlyphInfo { c: ')', width: 400, ascent: 800, descent: 200 },
        ],
    };
    MathContext::new(font, 1000, MathStyle { size: MathSize::Display, cramped: false })
}

#[test]
fn short_rows_are_padded_with_blank_cells() {
    let elem = MatElem::new(
        vec![
            Arg::Array(vec![cell('1', 1), cell('2', 2), cell('3', 3)]),
            Arg::Array(vec![cell('4', 4)]),
            Arg::Array(vec![]),
        ],
        Span { id: 9 },
    );
    assert_eq!(elem.row_count(), 3);
    assert_eq!(elem.col_count(), 3);
    for row in &elem.rows {
        assert_eq!(row.len(), 3);
    }
    assert_eq!(elem.rows[0][2], cell('3', 3));
    assert_eq!(elem.rows[1][0], cell('4', 4));
    assert_eq!(elem.rows[1][1], Content::empty());
    assert_eq!(elem.rows[1][2], Content::empty());
    assert_eq!(elem.rows[2], vec![Content::empty(), Content::empty(), Content::empty()]);
}

#[test]
fn padding_cells_have_no_extent() {
    let mut ctx = context();
    let row = layout_cell(&mut ctx, &Content::empty()).unwrap();
    assert_eq!(row.len(), 0);
    assert_eq!(row.width(), 0);
    assert_eq!(row.height(), 0);
    assert_eq!(row.ascent(), 0);
    assert_eq!(row.descent(), 0);
    let frame = row.into_aligned_frame(&vec![], Align::Center);
    assert_eq!(frame.size, Size { x: 0, y: 0 });
}

#[test]
fn scalar_beside_an_array_is_a_row_of_one() {
    let elem = MatElem::new(
        vec![Arg::Cell(cell('a', 1)), Arg::Array(vec![cell('b', 2), cell('c', 3)])],
        Span { id: 9 },
    );
    assert_eq!(elem.row_count(), 2);
    assert_eq!(elem.rows[0], vec![cell('a', 1), Content::empty()]);
    assert_eq!(elem.rows[1], vec![cell('b', 2), cell('c', 3)]);
}

#[test]
fn matrix_without_arguments_is_one_empty_row() {
    let elem = MatElem::new(vec![], Span { id: 9 });
    assert_eq!(elem.row_count(), 1);
    assert_eq!(elem.col_count(), 0);
    let mut ctx = context();
    assert_eq!(elem.layout_math(&mut ctx), Ok(()));
    assert_eq!(ctx.fragments.len(), 3);
    match &ctx.fragments[1] {
        MathFragment::Frame(body) => {
            assert_eq!(body.size, Size { x: 0, y: 0 });
            assert!(body.items.is_empty());
            // Centred on the axis: half of nothing and the axis height.
            assert_eq!(body.baseline, 250);
        },
        other => panic!("expected the body, found {:?}", other),
    }
}

#[test]
fn matrix_without_rows_or_columns_has_no_extent() {
    let mut ctx = context();
    let none: Vec<Vec<Content>> = vec![];
    assert_eq!(layout_mat_body(&mut ctx, &none), Ok(Frame::new(Size::zero())));
    let no_columns: Vec<Vec<Content>> = vec![vec![], vec![]];
    assert_eq!(layout_mat_body(&mut ctx, &no_columns), Ok(Frame::new(Size::zero())));
    // A failing cell behind an empty first row is never laid out.
    let hidden =
        vec![vec![], vec![Content::new(vec![Piece::Unresolved], Span { id: 3 })]];
    assert_eq!(layout_mat_body(&mut ctx, &hidden), Ok(Frame::new(Size::zero())));
}

#[test]
fn empty_vector_has_no_extent() {
    let mut ctx = context();
    let body = layout_vec_body(&mut ctx, &vec![], Align::Center).unwrap();
    assert_eq!(body.size, Size { x: 0, y: 0 });
    assert!(body.items.is_empty());
    assert_eq!(body.baseline, 0);
}

#[test]
fn vector_of_one_cell_has_no_gap() {
    let mut ctx = context();
    let body = layout_vec_body(&mut ctx, &vec![cell('a', 1)], Align::Center).unwrap();
    assert_eq!(body.size, Size { x: 500, y: 700 });
    assert_eq!(body.baseline, 700);
}

#[test]
fn elements_start_with_their_default_delimiters() {
    assert_eq!(VecElem::new(vec![], Span { id: 1 }).delim, Some(Delimiter::Paren));
    assert_eq!(MatElem::new(vec![], Span { id: 1 }).delim, Some(Delimiter::Paren));
    assert_eq!(CasesElem::new(vec![], Span { id: 1 }).delim, Delimiter::Brace);
    let bracketed = MatElem::new(vec![], Span { id: 1 }).with_delim(Some(Delimiter::Bracket));
    assert_eq!(bracketed.delim, Some(Delimiter::Bracket));
    assert_eq!(bracketed.span, Span { id: 1 });
}

#[test]
fn delimiters_open_and_close() {
    assert_eq!(Delimiter::Paren.open(), '(');
    assert_eq!(Delimiter::Paren.close(), ')');
    assert_eq!(Delimiter::Bracket.open(), '[');
    assert_eq!(Delimiter::Bracket.close(), ']');
    assert_eq!(Delimiter::Brace.open(), '{');
    assert_eq!(Delimiter::Brace.close(), '}');
    assert_eq!(Delimiter::Bar.open(), '|');
    assert_eq!(Delimiter::Bar.close(), '|');
    assert_eq!(Delimiter::DoubleBar.open(), '\u{2016}');
    assert_eq!(Delimiter::DoubleBar.close(), '\u{2016}');
}

#[test]
fn delimiter_pairs_are_distinct() {
    let all = [
        Delimiter::Paren,
        Delimiter::Bracket,
        Delimiter::Brace,
        Delimiter::Bar,
        Delimiter::DoubleBar,
    ];
    for a in all {
        for b in all {
            if a != b {
                assert_ne!(a.open(), b.open());
                assert_ne!(a.close(), b.close());
                assert_ne!(a.token(), b.token());
            }
        }
    }
}

#[test]
fn delimiter_tokens_are_looked_up() {
    assert_eq!(Delimiter::from_token("("), Ok(Delimiter::Paren));
    assert_eq!(Delimiter::from_token("["), Ok(Delimiter::Bracket));
    assert_eq!(Delimiter::from_token("{"), Ok(Delimiter::Brace));
    assert_eq!(Delimiter::from_token("|"), Ok(Delimiter::Bar));
    assert_eq!(Delimiter::from_token("||"), Ok(Delimiter::DoubleBar));
    for d in [Delimiter::Paren, Delimiter::Bracket, Delimiter::Brace, Delimiter::Bar, Delimiter::DoubleBar]
    {
        assert_eq!(Delimiter::from_token(d.token()), Ok(d));
    }
}

#[test]
fn unknown_delimiter_tokens_are_rejected() {
    for token in ["", "<", ")", "((", "|(", "(|", "|||", "\u{2016}"] {
        assert_eq!(Delimiter::from_token(token), Err(UnknownDelimiter {}));
    }
    let message = Delimiter::from_token("<").unwrap_err().message();
    for token in ["\"(\"", "\"[\"", "\"{\"", "\"|\"", "\"||\""] {
        assert!(message.contains(token));
    }
}
