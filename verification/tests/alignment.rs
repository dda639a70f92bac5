use matrix_layout::align::{alignments, AlignmentResult};
use matrix_layout::frame::{Frame, FrameItem, Glyph, Point, Size};
use matrix_layout::length::{em_at, half, larger, minus, plus, scale, times};
use matrix_layout::row::{Align, MathFragment, MathRow};
use matrix_layout::source::Span;
use matrix_layout::stack::stack;

fn glyph(width: i64) -> MathFragment {
    MathFragment::Glyph(Glyph { c: 'x', width, ascent: 700, descent: 200, span: Span { id: 1 } })
}

fn row(fragments: Vec<MathFragment>) -> MathRow {
    MathRow::from_fragments(fragments)
}

fn plain(width: i64) -> MathRow {
    row(vec![glyph(width)])
}

#[test]
fn column_without_alignment_points_is_as_wide_as_its_widest_cell() {
    let rows = vec![plain(500), plain(300), plain(700)];
    assert_eq!(alignments(&rows), AlignmentResult { points: vec![], width: 700 });
    assert_eq!(alignments(&vec![]), AlignmentResult { points: vec![], width: 0 });
}

#[test]
fn alignment_points_are_merged_segment_by_segment() {
    let rows = vec![
        row(vec![glyph(100), MathFragment::Align, glyph(200)]),
        row(vec![glyph(300), MathFragment::Align, glyph(50)]),
        plain(120),
    ];
    assert_eq!(alignments(&rows), AlignmentResult { points: vec![300], width: 500 });
    let rows = vec![
        row(vec![glyph(100), MathFragment::Align, glyph(200), MathFragment::Align, glyph(10)]),
        row(vec![glyph(300), MathFragment::Align, glyph(50)]),
    ];
    assert_eq!(alignments(&rows), AlignmentResult { points: vec![300, 500], width: 510 });
}

#[test]
fn alignment_does_not_depend_on_the_order_of_the_rows() {
    let make = |order: [usize; 3]| {
        let mut rows = Vec::new();
        for k in order {
            rows.push(match k {
                0 => row(vec![glyph(100), MathFragment::Align, glyph(200)]),
                1 => row(vec![glyph(300), MathFragment::Align, glyph(50), MathFragment::Align]),
                _ => plain(450),
            });
        }
        alignments(&rows)
    };
    let expected = AlignmentResult { points: vec![450, 650], width: 650 };
    for order in [[0, 1, 2], [0, 2, 1], [1, 0, 2], [1, 2, 0], [2, 0, 1], [2, 1, 0]] {
        assert_eq!(make(order), expected);
    }
}

#[test]
fn wider_cell_never_narrows_the_column() {
    let width_with = |last: i64| {
        let rows = vec![
            row(vec![glyph(100), MathFragment::Align, glyph(200)]),
            row(vec![glyph(300), MathFragment::Align, glyph(last)]),
        ];
        alignments(&rows)
    };
    assert_eq!(width_with(50), AlignmentResult { points: vec![300], width: 500 });
    assert_eq!(width_with(150), AlignmentResult { points: vec![300], width: 500 });
    assert_eq!(width_with(250), AlignmentResult { points: vec![300], width: 550 });
    let mut before = 0;
    for last in 0..400 {
        let now = width_with(last).width;
        assert!(now >= before);
        before = now;
    }
}

#[test]
fn centred_rows_end_their_first_segment_at_the_first_point() {
    let points = vec![300];
    let frame = row(vec![glyph(100), MathFragment::Align, glyph(200)])
        .into_aligned_frame(&points, Align::Center);
    assert_eq!(frame.size, Size { x: 500, y: 900 });
    assert_eq!(frame.baseline, 700);
    assert_eq!(frame.items.len(), 2);
    assert_eq!(frame.items[0].0, Point { x: 200, y: 0 });
    assert_eq!(frame.items[1].0, Point { x: 300, y: 0 });

    let frame = row(vec![glyph(100), MathFragment::Align, glyph(200)])
        .into_aligned_frame(&points, Align::Left);
    assert_eq!(frame.items[0].0, Point { x: 0, y: 0 });
    assert_eq!(frame.items[1].0, Point { x: 300, y: 0 });

    // A row without alignment point starts at the left edge.
    let frame = plain(120).into_aligned_frame(&points, Align::Center);
    assert_eq!(frame.items[0].0, Point { x: 0, y: 0 });
    assert_eq!(frame.size.x, 120);
}

#[test]
fn fragments_stand_on_the_baseline_of_their_row() {
    let tall = MathFragment::Glyph(Glyph {
        c: 'T',
        width: 100,
        ascent: 900,
        descent: 0,
        span: Span { id: 1 },
    });
    let mut deep = Frame::new(Size { x: 50, y: 400 });
    deep.set_baseline(100);
    let r = row(vec![tall, MathFragment::Frame(deep), glyph(10)]);
    assert_eq!(r.ascent(), 900);
    assert_eq!(r.descent(), 300);
    assert_eq!(r.height(), 1200);
    assert_eq!(r.width(), 160);
    let frame = r.into_aligned_frame(&vec![], Align::Center);
    assert_eq!(frame.size, Size { x: 160, y: 1200 });
    assert_eq!(frame.baseline, 900);
    assert_eq!(frame.items[0].0, Point { x: 0, y: 0 });
    assert_eq!(frame.items[1].0, Point { x: 100, y: 800 });
    assert_eq!(frame.items[2].0, Point { x: 150, y: 200 });
    assert!(matches!(frame.items[1].1, FrameItem::Group(_)));
}

#[test]
fn stack_places_rows_with_the_gap_between_them() {
    let frame = stack(vec![plain(500), plain(300)], Align::Center, 40, 0);
    assert_eq!(frame.size, Size { x: 500, y: 900 + 900 + 40 });
    assert_eq!(frame.baseline, 700);
    assert_eq!(frame.items[0].0, Point { x: 0, y: 0 });
    assert_eq!(frame.items[1].0, Point { x: 100, y: 940 });

    let frame = stack(vec![plain(500), plain(300)], Align::Left, 40, 1);
    assert_eq!(frame.items[1].0, Point { x: 0, y: 940 });
    assert_eq!(frame.baseline, 940 + 700);

    // Without a row of that number, the baseline is the bottom edge.
    let frame = stack(vec![plain(500)], Align::Left, 40, 3);
    assert_eq!(frame.baseline, 900);
}

#[test]
fn stack_with_alignment_points_stands_at_the_left_edge() {
    let rows = vec![
        row(vec![glyph(100), MathFragment::Align, glyph(200)]),
        row(vec![glyph(300), MathFragment::Align, glyph(50)]),
    ];
    let frame = stack(rows, Align::Center, 0, 0);
    assert_eq!(frame.size.x, 500);
    assert_eq!(frame.items[0].0, Point { x: 0, y: 0 });
    assert_eq!(frame.items[1].0, Point { x: 0, y: 900 });
}

#[test]
fn lengths_saturate_and_round_toward_zero() {
    assert_eq!(plus(2, 3), 5);
    assert_eq!(plus(i64::MAX, 1), i64::MAX);
    assert_eq!(plus(i64::MIN, -1), i64::MIN);
    assert_eq!(minus(2, 3), -1);
    assert_eq!(minus(i64::MIN, 1), i64::MIN);
    assert_eq!(minus(i64::MAX, -1), i64::MAX);
    assert_eq!(larger(2, 3), 3);
    assert_eq!(larger(-2, -3), -2);
    assert_eq!(half(7), 3);
    assert_eq!(half(-7), -3);
    assert_eq!(scale(7, 1, 2), 3);
    assert_eq!(scale(-7, 1, 2), -3);
    assert_eq!(scale(3100, 100, 1000), 310);
    assert_eq!(scale(i64::MAX, 3, 2), i64::MAX);
    assert_eq!(scale(i64::MIN, 3, 2), i64::MIN);
    assert_eq!(times(3, 4), 12);
    assert_eq!(times(-3, 4), -12);
    assert_eq!(times(i64::MAX, 2), i64::MAX);
    assert_eq!(times(i64::MIN, usize::MAX), i64::MIN);
    assert_eq!(times(5, 0), 0);
    assert_eq!(em_at(500, 1000), 500);
    assert_eq!(em_at(100, 12), 1);
}
