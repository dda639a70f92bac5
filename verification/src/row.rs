//! Measured rows: the fragments a cell's content was laid out into, their
//! metrics, and the box a row becomes once its alignment points are fixed.

use vstd::prelude::*;
use crate::frame::{Frame, FrameItem, FrameModel, Glyph, ItemModel, Point, Size};
use crate::length::{clamp, half, halved, larger, larger_of, minus, plus, Abs};

verus! {

/// How boxes are placed across the width that is free beside them.
#[derive(Clone, Copy, Debug, PartialEq, Eq, Structural)]
pub enum Align {
    Left,
    Center,
}

impl Align {
    /// The offset of a box that leaves `free` of the width unused.
    pub open spec fn offset(self, free: Abs) -> Abs {
        match self {
            Align::Left => 0,
            Align::Center => halved(free),
        }
    }

    /// The offset of a box that leaves `free` of the width unused.
    pub fn position(self, free: Abs) -> (x: Abs)
        ensures
            x == self.offset(free),
    {
        match self {
            Align::Left => 0,
            Align::Center => half(free),
        }
    }
}

/// One piece of a laid-out row.
#[derive(Debug, PartialEq, Eq)]
pub enum MathFragment {
    /// A measured glyph.
    Glyph(Glyph),
    /// A finished box.
    Frame(Frame),
    /// An alignment point: it has no extent and ends a segment of the row.
    Align,
}

/// The mathematical value of a [`MathFragment`].
#[verifier::ext_equal]
pub enum FragmentModel {
    Glyph(Glyph),
    Frame(FrameModel),
    Align,
}

impl FragmentModel {
    /// The width of the fragment.
    pub open spec fn width(self) -> Abs {
        match self {
            FragmentModel::Glyph(g) => g.width,
            FragmentModel::Frame(f) => f.size.x,
            FragmentModel::Align => 0,
        }
    }

    /// The extent of the fragment above its baseline.
    pub open spec fn ascent(self) -> Abs {
        match self {
            FragmentModel::Glyph(g) => g.ascent,
            FragmentModel::Frame(f) => f.ascent(),
            FragmentModel::Align => 0,
        }
    }

    /// The extent of the fragment below its baseline.
    pub open spec fn descent(self) -> Abs {
        match self {
            FragmentModel::Glyph(g) => g.descent,
            FragmentModel::Frame(f) => f.descent(),
            FragmentModel::Align => 0,
        }
    }

    /// What the fragment is once it is placed in a box. An alignment point
    /// is never placed.
    pub open spec fn item(self) -> ItemModel {
        match self {
            FragmentModel::Glyph(g) => ItemModel::Glyph(g),
            FragmentModel::Frame(f) => ItemModel::Group(f),
            FragmentModel::Align => arbitrary(),
        }
    }
}

impl MathFragment {
    /// The mathematical value of the fragment.
    pub open spec fn model(self) -> FragmentModel {
        match self {
            MathFragment::Glyph(g) => FragmentModel::Glyph(g),
            MathFragment::Frame(f) => FragmentModel::Frame(f.model()),
            MathFragment::Align => FragmentModel::Align,
        }
    }

    /// The width of the fragment.
    pub fn width(&self) -> (w: Abs)
        ensures
            w == self@.width(),
    {
        match self {
            MathFragment::Glyph(g) => g.width,
            MathFragment::Frame(f) => f.width(),
            MathFragment::Align => 0,
        }
    }

    /// The extent of the fragment above its baseline.
    pub fn ascent(&self) -> (a: Abs)
        ensures
            a == self@.ascent(),
    {
        match self {
            MathFragment::Glyph(g) => g.ascent,
            MathFragment::Frame(f) => f.ascent(),
            MathFragment::Align => 0,
        }
    }

    /// The extent of the fragment below its baseline.
    pub fn descent(&self) -> (d: Abs)
        ensures
            d == self@.descent(),
    {
        match self {
            MathFragment::Glyph(g) => g.descent,
            MathFragment::Frame(f) => f.descent(),
            MathFragment::Align => 0,
        }
    }

    /// Whether the fragment is an alignment point.
    pub fn is_align(&self) -> (b: bool)
        ensures
            b == (self@ is Align),
    {
        match self {
            MathFragment::Align => true,
            _ => false,
        }
    }

    /// The item the fragment places in a box, unless it is an alignment
    /// point.
    pub fn into_item(self) -> (item: Option<FrameItem>)
        ensures
            match item {
                Some(i) => !(self@ is Align) && i@ == self@.item(),
                None => self@ is Align,
            },
    {
        match self {
            MathFragment::Glyph(g) => Some(FrameItem::Glyph(g)),
            MathFragment::Frame(f) => Some(FrameItem::Group(f)),
            MathFragment::Align => None,
        }
    }
}

impl View for MathFragment {
    type V = FragmentModel;

    open spec fn view(&self) -> FragmentModel {
        self.model()
    }
}

/// The mathematical value of a [`MathRow`]: its fragments, left to right.
pub type RowModel = Seq<FragmentModel>;

/// The models of a sequence of fragments.
pub open spec fn fragment_models(fragments: Seq<MathFragment>) -> RowModel {
    Seq::new(fragments.len(), |i: int| fragments[i].model())
}

/// The largest ascent among the first `n` fragments, and at least zero.
pub open spec fn ascent_of(row: RowModel, n: nat) -> Abs
    decreases n,
{
    if n == 0 {
        0
    } else {
        larger_of(ascent_of(row, (n - 1) as nat), row[n - 1].ascent())
    }
}

/// The largest descent among the first `n` fragments, and at least zero.
pub open spec fn descent_of(row: RowModel, n: nat) -> Abs
    decreases n,
{
    if n == 0 {
        0
    } else {
        larger_of(descent_of(row, (n - 1) as nat), row[n - 1].descent())
    }
}

/// The widths of the first `n` fragments, added up.
pub open spec fn width_of(row: RowModel, n: nat) -> Abs
    decreases n,
{
    if n == 0 {
        0
    } else {
        clamp(width_of(row, (n - 1) as nat) + row[n - 1].width())
    }
}

/// How many of the first `n` fragments are alignment points.
pub open spec fn markers_in(row: RowModel, n: nat) -> nat
    decreases n,
{
    if n == 0 {
        0
    } else if row[n - 1] is Align {
        markers_in(row, (n - 1) as nat) + 1
    } else {
        markers_in(row, (n - 1) as nat)
    }
}

/// The width that the first `n` fragments give to segment `j` of the row.
/// Segment 0 ends at the first alignment point, segment 1 at the second,
/// and the last one at the end of the row.
pub open spec fn segment_width(row: RowModel, j: nat, n: nat) -> Abs
    decreases n,
{
    if n == 0 {
        0
    } else if !(row[n - 1] is Align) && markers_in(row, (n - 1) as nat) == j {
        clamp(segment_width(row, j, (n - 1) as nat) + row[n - 1].width())
    } else {
        segment_width(row, j, (n - 1) as nat)
    }
}

/// The extent of the row above its baseline.
pub open spec fn row_ascent(row: RowModel) -> Abs {
    ascent_of(row, row.len())
}

/// The extent of the row below its baseline.
pub open spec fn row_descent(row: RowModel) -> Abs {
    descent_of(row, row.len())
}

/// The height of the row.
pub open spec fn row_height(row: RowModel) -> Abs {
    clamp(row_ascent(row) + row_descent(row))
}

/// The natural width of the row.
pub open spec fn row_width(row: RowModel) -> Abs {
    width_of(row, row.len())
}

/// The number of segments of the row: one more than its alignment points.
pub open spec fn segments(row: RowModel) -> nat {
    markers_in(row, row.len()) + 1
}

/// Where the first fragment of an aligned row stands. A centred row that
/// has an alignment point ends its first segment at the first point of the
/// column; every other row starts at the left edge.
pub open spec fn start_x(row: RowModel, points: Seq<Abs>, align: Align) -> Abs {
    if align == Align::Center && points.len() > 0 && markers_in(row, row.len()) > 0 {
        clamp(points[0] - segment_width(row, 0, row.len()))
    } else {
        0
    }
}

/// The horizontal position behind the first `n` fragments of an aligned
/// row. A fragment moves it on by its width; the alignment point number `i`
/// moves it to the point number `i` of the column, where the column has one.
pub open spec fn cursor_x(row: RowModel, points: Seq<Abs>, x0: Abs, n: nat) -> Abs
    decreases n,
{
    if n == 0 {
        x0
    } else {
        let before = cursor_x(row, points, x0, (n - 1) as nat);
        if row[n - 1] is Align {
            let i = markers_in(row, (n - 1) as nat);
            if i < points.len() {
                points[i as int]
            } else {
                before
            }
        } else {
            clamp(before + row[n - 1].width())
        }
    }
}

/// The items that the first `n` fragments of an aligned row place: each
/// fragment at the cursor, with its own baseline on the baseline of the
/// row.
pub open spec fn placed(row: RowModel, points: Seq<Abs>, x0: Abs, ascent: Abs, n: nat) -> Seq<
    (Point, ItemModel),
>
    decreases n,
{
    if n == 0 {
        Seq::empty()
    } else {
        let before = placed(row, points, x0, ascent, (n - 1) as nat);
        if row[n - 1] is Align {
            before
        } else {
            before.push(
                (
                    Point {
                        x: cursor_x(row, points, x0, (n - 1) as nat),
                        y: clamp(ascent - row[n - 1].ascent()),
                    },
                    row[n - 1].item(),
                ),
            )
        }
    }
}

/// The box of a row whose alignment points stand at `points`.
pub open spec fn aligned_frame(row: RowModel, points: Seq<Abs>, align: Align) -> FrameModel {
    let x0 = start_x(row, points, align);
    FrameModel {
        size: Size { x: cursor_x(row, points, x0, row.len()), y: row_height(row) },
        baseline: row_ascent(row),
        items: placed(row, points, x0, row_ascent(row), row.len()),
    }
}

/// Neither the ascent nor the descent of the first `n` fragments of a row
/// is negative.
pub proof fn lemma_row_metrics_nonnegative(row: RowModel, n: nat)
    ensures
        ascent_of(row, n) >= 0,
        descent_of(row, n) >= 0,
    decreases n,
{
    if n > 0 {
        lemma_row_metrics_nonnegative(row, (n - 1) as nat);
    }
}

/// No row has a negative height.
pub proof fn lemma_row_height_nonnegative(row: RowModel)
    ensures
        row_height(row) >= 0,
{
    lemma_row_metrics_nonnegative(row, row.len());
}

/// A segment that the first `n` fragments have not reached is empty.
pub proof fn lemma_unreached_segment_is_empty(row: RowModel, j: nat, n: nat)
    requires
        j > markers_in(row, n),
    ensures
        segment_width(row, j, n) == 0,
    decreases n,
{
    if n > 0 {
        lemma_unreached_segment_is_empty(row, j, (n - 1) as nat);
    }
}

/// The first fragments of a row hold no more alignment points than the
/// whole row.
pub proof fn lemma_markers_grow(row: RowModel, n: nat, m: nat)
    requires
        n <= m,
    ensures
        markers_in(row, n) <= markers_in(row, m),
    decreases m,
{
    if n < m {
        lemma_markers_grow(row, n, (m - 1) as nat);
    }
}

/// Whether no fragment of the row has a negative width.
pub open spec fn nonnegative_widths(row: RowModel) -> bool {
    forall|i: int| 0 <= i < row.len() ==> (#[trigger] row[i]).width() >= 0
}

/// Where no fragment has a negative width, no segment has, and a segment
/// only grows as more fragments are counted.
pub proof fn lemma_segment_grows(row: RowModel, j: nat, n: nat, m: nat)
    requires
        nonnegative_widths(row),
        n <= m <= row.len(),
    ensures
        0 <= segment_width(row, j, n) <= segment_width(row, j, m),
    decreases m,
{
    if m > 0 {
        assert(row[m - 1].width() >= 0);
        if n < m {
            lemma_segment_grows(row, j, n, (m - 1) as nat);
        } else {
            lemma_segment_grows(row, j, (m - 1) as nat, (m - 1) as nat);
        }
    }
}

/// Behind its first `n` fragments, an aligned row has reached the point of
/// its last alignment point, or its start before the first, and the width
/// of the segment it is in.
pub proof fn lemma_aligned_width(row: RowModel, points: Seq<Abs>, x0: Abs, n: nat)
    requires
        nonnegative_widths(row),
        n <= row.len(),
        x0 >= 0,
        markers_in(row, row.len()) <= points.len(),
        forall|i: int| 0 <= i < points.len() ==> points[i] >= 0,
    ensures
        cursor_x(row, points, x0, n) == clamp(
            if markers_in(row, n) == 0 {
                x0
            } else {
                points[markers_in(row, n) - 1]
            } + segment_width(row, markers_in(row, n), n),
        ),
    decreases n,
{
    if n > 0 {
        let before = (n - 1) as nat;
        lemma_aligned_width(row, points, x0, before);
        lemma_markers_grow(row, n, row.len());
        lemma_segment_grows(row, markers_in(row, before), 0, before);
        assert(row[n - 1].width() >= 0);
        if row[n - 1] is Align {
            lemma_unreached_segment_is_empty(row, markers_in(row, n), before);
        }
    }
}

/// The metrics of a row that one pass over its fragments gathers.
pub struct RowMetrics {
    pub ascent: Abs,
    pub descent: Abs,
    pub width: Abs,
    pub first_segment: Abs,
    pub markers: usize,
}

/// A laid-out row of fragments.
#[derive(Debug, PartialEq, Eq)]
pub struct MathRow {
    pub fragments: Vec<MathFragment>,
}

impl View for MathRow {
    type V = RowModel;

    open spec fn view(&self) -> RowModel {
        fragment_models(self.fragments@)
    }
}

impl MathRow {
    /// The row without fragments.
    pub fn new() -> (row: MathRow)
        ensures
            row@ == Seq::<FragmentModel>::empty(),
    {
        let row = MathRow { fragments: Vec::new() };
        assert(row@ =~= Seq::<FragmentModel>::empty());
        row
    }

    /// The row of the given fragments.
    pub fn from_fragments(fragments: Vec<MathFragment>) -> (row: MathRow)
        ensures
            row@ == fragment_models(fragments@),
    {
        MathRow { fragments }
    }

    /// Appends a fragment on the right.
    pub fn push(&mut self, fragment: MathFragment)
        ensures
            final(self)@ == old(self)@.push(fragment@),
    {
        let ghost model = fragment@;
        self.fragments.push(fragment);
        assert(self@ =~= old(self)@.push(model));
    }

    /// The number of fragments.
    pub fn len(&self) -> (n: usize)
        ensures
            n == self@.len(),
    {
        self.fragments.len()
    }

    /// All metrics of the row, gathered in one pass.
    pub fn metrics(&self) -> (m: RowMetrics)
        ensures
            m.ascent == row_ascent(self@),
            m.descent == row_descent(self@),
            m.width == row_width(self@),
            m.first_segment == segment_width(self@, 0, self@.len()),
            m.markers == markers_in(self@, self@.len()),
    {
        let mut m = RowMetrics { ascent: 0, descent: 0, width: 0, first_segment: 0, markers: 0 };
        let mut i: usize = 0;
        while i < self.fragments.len()
            invariant
                i <= self.fragments.len(),
                m.ascent == ascent_of(self@, i as nat),
                m.descent == descent_of(self@, i as nat),
                m.width == width_of(self@, i as nat),
                m.first_segment == segment_width(self@, 0, i as nat),
                m.markers == markers_in(self@, i as nat),
                m.markers <= i,
            decreases self.fragments.len() - i,
        {
            let fragment = &self.fragments[i];
            assert(fragment@ == self@[i as int]);
            if fragment.is_align() {
                m.markers = m.markers + 1;
            } else {
                if m.markers == 0 {
                    m.first_segment = plus(m.first_segment, fragment.width());
                }
            }
            m.ascent = larger(m.ascent, fragment.ascent());
            m.descent = larger(m.descent, fragment.descent());
            m.width = plus(m.width, fragment.width());
            i += 1;
        }
        m
    }

    /// The extent of the row above its baseline.
    pub fn ascent(&self) -> (a: Abs)
        ensures
            a == row_ascent(self@),
    {
        self.metrics().ascent
    }

    /// The extent of the row below its baseline.
    pub fn descent(&self) -> (d: Abs)
        ensures
            d == row_descent(self@),
    {
        self.metrics().descent
    }

    /// The height of the row.
    pub fn height(&self) -> (h: Abs)
        ensures
            h == row_height(self@),
    {
        let m = self.metrics();
        plus(m.ascent, m.descent)
    }

    /// The natural width of the row.
    pub fn width(&self) -> (w: Abs)
        ensures
            w == row_width(self@),
    {
        self.metrics().width
    }

    /// Turns the row into a box in which the alignment points of the row
    /// stand at `points`.
    pub fn into_aligned_frame(self, points: &Vec<Abs>, align: Align) -> (frame: Frame)
        ensures
            frame@ == aligned_frame(self@, points@, align),
    {
        let ghost row = self@;
        let m = self.metrics();
        let x0: Abs = match align {
            Align::Center => {
                if points.len() > 0 && m.markers > 0 {
                    minus(points[0], m.first_segment)
                } else {
                    0
                }
            },
            Align::Left => 0,
        };
        let mut frame = Frame::new(Size { x: 0, y: plus(m.ascent, m.descent) });
        frame.set_baseline(m.ascent);
        let mut x: Abs = x0;
        let mut marker: usize = 0;
        let ghost fragments = self.fragments@;
        let count: usize = self.fragments.len();
        for fragment in it: self.fragments
            invariant
                it.seq() == fragments,
                fragments.len() == count,
                row == fragment_models(fragments),
                x == cursor_x(row, points@, x0, it.index() as nat),
                marker == markers_in(row, it.index() as nat),
                marker <= it.index(),
                frame@ == (FrameModel {
                    size: Size { x: 0, y: row_height(row) },
                    baseline: m.ascent,
                    items: placed(row, points@, x0, m.ascent, it.index() as nat),
                }),
        {
            assert(fragment@ == row[it.index() as int]);
            let width = fragment.width();
            let ascent = fragment.ascent();
            match fragment.into_item() {
                None => {
                    if marker < points.len() {
                        x = points[marker];
                    }
                    marker = marker + 1;
                },
                Some(item) => {
                    frame.push(Point { x, y: minus(m.ascent, ascent) }, item);
                    x = plus(x, width);
                },
            }
        }
        frame.set_width(x);
        frame
    }
}

} // verus!
