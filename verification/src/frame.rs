//! Boxes: sized composites of placed glyphs and child boxes.

use vstd::prelude::*;
use crate::length::{clamp, half, halved, larger, larger_of, minus, plus, Abs};
use crate::source::Span;

verus! {

/// A position inside a box, measured from its top-left corner.
#[derive(Clone, Copy, Debug, PartialEq, Eq, Structural)]
pub struct Point {
    pub x: Abs,
    pub y: Abs,
}

/// The extent of a box: `x` is its width, `y` its height.
#[derive(Clone, Copy, Debug, PartialEq, Eq, Structural)]
pub struct Size {
    pub x: Abs,
    pub y: Abs,
}

impl Size {
    /// The size of a box without extent.
    pub fn zero() -> (s: Size)
        ensures
            s == (Size { x: 0, y: 0 }),
    {
        Size { x: 0, y: 0 }
    }
}

/// A measured glyph.
#[derive(Clone, Copy, Debug, PartialEq, Eq, Structural)]
pub struct Glyph {
    pub c: char,
    pub width: Abs,
    pub ascent: Abs,
    pub descent: Abs,
    pub span: Span,
}

impl Glyph {
    /// The height of the glyph: its ascent and descent together.
    pub open spec fn extent(self) -> Abs {
        clamp(self.ascent + self.descent)
    }

    /// The glyph stretched downwards until it is `target` high but for
    /// `short_fall`. A glyph that is already that high stays as it is.
    pub open spec fn stretched(self, target: Abs, short_fall: Abs) -> Glyph {
        Glyph {
            descent: clamp(larger_of(self.extent(), clamp(target - short_fall)) - self.ascent),
            ..self
        }
    }

    /// The glyph moved so that its middle lies `axis` above the baseline.
    pub open spec fn centered(self, axis: Abs) -> Glyph {
        let ascent = clamp(halved(self.extent()) + axis);
        Glyph { ascent, descent: clamp(self.extent() - ascent), ..self }
    }

    /// The height of the glyph.
    /// The height of the box.
    pub fn height(&self) -> (h: Abs)
        ensures
            h == self.extent(),
    {
        plus(self.ascent, self.descent)
    }

    /// Stretches the glyph vertically to `target`, stopping `short_fall`
    /// short of it. Stretching never shrinks a glyph.
    pub fn stretch_vertical(self, target: Abs, short_fall: Abs) -> (g: Glyph)
        ensures
            g == self.stretched(target, short_fall),
    {
        let height = larger(self.height(), minus(target, short_fall));
        Glyph {
            c: self.c,
            width: self.width,
            ascent: self.ascent,
            descent: minus(height, self.ascent),
            span: self.span,
        }
    }

    /// Centers the glyph on the math axis, which lies `axis` above the
    /// baseline.
    pub fn center_on_axis(&mut self, axis: Abs)
        ensures
            *final(self) == old(self).centered(axis),
    {
        let height = self.height();
        let ascent = plus(half(height), axis);
        self.ascent = ascent;
        self.descent = minus(height, ascent);
    }
}

/// What a box can hold at a position.
#[derive(Debug, PartialEq, Eq)]
pub enum FrameItem {
    Glyph(Glyph),
    Group(Frame),
}

/// A sized box with a baseline and the items placed in it.
#[derive(Debug, PartialEq, Eq)]
pub struct Frame {
    pub size: Size,
    pub baseline: Abs,
    pub items: Vec<(Point, FrameItem)>,
}

/// The mathematical value of a [`FrameItem`].
#[verifier::ext_equal]
pub enum ItemModel {
    Glyph(Glyph),
    Group(FrameModel),
}

/// The mathematical value of a [`Frame`].
#[verifier::ext_equal]
pub struct FrameModel {
    pub size: Size,
    pub baseline: Abs,
    pub items: Seq<(Point, ItemModel)>,
}

impl FrameModel {
    /// The extent above the baseline.
    pub open spec fn ascent(self) -> Abs {
        self.baseline
    }

    /// The extent below the baseline.
    pub open spec fn descent(self) -> Abs {
        clamp(self.size.y - self.baseline)
    }

    /// The box without items: its baseline lies on its bottom edge.
    pub open spec fn blank(size: Size) -> FrameModel {
        FrameModel { size, baseline: size.y, items: Seq::empty() }
    }
}

impl FrameItem {
    /// The mathematical value of the item.
    pub open spec fn model(self) -> ItemModel
        decreases self,
    {
        match self {
            FrameItem::Glyph(g) => ItemModel::Glyph(g),
            FrameItem::Group(f) => ItemModel::Group(f.model()),
        }
    }
}

impl View for FrameItem {
    type V = ItemModel;

    open spec fn view(&self) -> ItemModel {
        self.model()
    }
}

impl View for Frame {
    type V = FrameModel;

    open spec fn view(&self) -> FrameModel {
        self.model()
    }
}

impl Frame {
    /// The mathematical value of the box.
    pub open spec fn model(self) -> FrameModel
        decreases self,
    {
        FrameModel {
            size: self.size,
            baseline: self.baseline,
            items: Seq::new(
                self.items@.len(),
                |i: int|
                    if 0 <= i < self.items@.len() {
                        (self.items@[i].0, self.items@[i].1.model())
                    } else {
                        arbitrary()
                    },
            ),
        }
    }

    /// An empty box of the given size.
    pub fn new(size: Size) -> (f: Frame)
        ensures
            f@ == FrameModel::blank(size),
    {
        let f = Frame { size, baseline: size.y, items: Vec::new() };
        assert(f@.items =~= Seq::empty());
        f
    }

    /// The extent of the box.
    pub fn size(&self) -> (s: Size)
        ensures
            s == self@.size,
    {
        self.size
    }

    /// The width of the box.
    pub fn width(&self) -> (w: Abs)
        ensures
            w == self@.size.x,
    {
        self.size.x
    }

    pub fn height(&self) -> (h: Abs)
        ensures
            h == self@.size.y,
    {
        self.size.y
    }

    /// The distance of the baseline from the top edge.
    pub fn baseline(&self) -> (b: Abs)
        ensures
            b == self@.baseline,
    {
        self.baseline
    }

    /// The extent above the baseline.
    pub fn ascent(&self) -> (a: Abs)
        ensures
            a == self@.ascent(),
    {
        self.baseline
    }

    /// The extent below the baseline.
    pub fn descent(&self) -> (d: Abs)
        ensures
            d == self@.descent(),
    {
        minus(self.size.y, self.baseline)
    }

    /// Moves the baseline to `baseline` below the top edge.
    pub fn set_baseline(&mut self, baseline: Abs)
        ensures
            final(self)@ == (FrameModel { baseline, ..old(self)@ }),
    {
        self.baseline = baseline;
    }

    /// Sets the width of the box; the items stay where they are.
    pub fn set_width(&mut self, width: Abs)
        ensures
            final(self)@ == (FrameModel {
                size: Size { x: width, y: old(self)@.size.y },
                ..old(self)@
            }),
    {
        self.size.x = width;
    }

    /// Places `item` at `pos`, behind the items already there.
    pub fn push(&mut self, pos: Point, item: FrameItem)
        ensures
            final(self)@ == (FrameModel {
                items: old(self)@.items.push((pos, item@)),
                ..old(self)@
            }),
    {
        let ghost model = item@;
        self.items.push((pos, item));
        assert(self@.items =~= old(self)@.items.push((pos, model)));
    }

    /// Places the box `frame` at `pos`.
    pub fn push_frame(&mut self, pos: Point, frame: Frame)
        ensures
            final(self)@ == (FrameModel {
                items: old(self)@.items.push((pos, ItemModel::Group(frame@))),
                ..old(self)@
            }),
    {
        self.push(pos, FrameItem::Group(frame));
    }
}

} // verus!
