//! Stacking rows into one column.

use vstd::prelude::*;
use crate::align::{alignment_model, alignments, row_models};
use crate::frame::{Frame, FrameModel, ItemModel, Point, Size};
use crate::length::{clamp, minus, plus, times, Abs};
use crate::row::{aligned_frame, Align, MathRow, RowModel};

verus! {

/// The boxes of the rows of a column whose alignment points stand at
/// `points`.
pub open spec fn aligned_frames(rows: Seq<RowModel>, points: Seq<Abs>, align: Align) -> Seq<
    FrameModel,
> {
    Seq::new(rows.len(), |i: int| aligned_frame(rows[i], points, align))
}

/// The heights of the first `n` boxes, added up.
pub open spec fn heights_sum(frames: Seq<FrameModel>, n: nat) -> Abs
    decreases n,
{
    if n == 0 {
        0
    } else {
        clamp(heights_sum(frames, (n - 1) as nat) + frames[n - 1].size.y)
    }
}

/// The space that `n` stacked boxes leave between them: `gap` between each
/// two neighbours.
pub open spec fn gaps_between(gap: Abs, n: nat) -> Abs {
    if n == 0 {
        0
    } else {
        clamp(gap * (n - 1))
    }
}

/// The height of a stack of boxes with `gap` between neighbours.
pub open spec fn stack_height(frames: Seq<FrameModel>, gap: Abs) -> Abs {
    clamp(heights_sum(frames, frames.len()) + gaps_between(gap, frames.len()))
}

/// The distance of box `n` of a stack from the top: the heights of the
/// boxes above it, each followed by `gap`.
pub open spec fn stack_offset(frames: Seq<FrameModel>, gap: Abs, n: nat) -> Abs
    decreases n,
{
    if n == 0 {
        0
    } else {
        clamp(
            stack_offset(frames, gap, (n - 1) as nat) + clamp(frames[n - 1].size.y + gap),
        )
    }
}

/// The distance of a box of a stack from the left edge. Where the column
/// has alignment points they place the content, and the box stands at the
/// edge. Elsewhere the box is aligned as a whole in the width of the
/// column.
pub open spec fn stack_x(frame: FrameModel, aligned: bool, width: Abs, align: Align) -> Abs {
    if aligned {
        0
    } else {
        align.offset(clamp(width - frame.size.x))
    }
}

/// The baseline of a stack: the baseline of box `baseline`, or the bottom
/// edge where the stack has no such box.
pub open spec fn stack_baseline(frames: Seq<FrameModel>, gap: Abs, baseline: nat) -> Abs {
    if baseline < frames.len() {
        clamp(stack_offset(frames, gap, baseline) + frames[baseline as int].baseline)
    } else {
        stack_height(frames, gap)
    }
}

/// The box of `frames` stacked top to bottom in a column of width `width`.
pub open spec fn stack_of(
    frames: Seq<FrameModel>,
    aligned: bool,
    width: Abs,
    align: Align,
    gap: Abs,
    baseline: nat,
) -> FrameModel {
    FrameModel {
        size: Size { x: width, y: stack_height(frames, gap) },
        baseline: stack_baseline(frames, gap, baseline),
        items: Seq::new(
            frames.len(),
            |i: int|
                (
                    Point {
                        x: stack_x(frames[i], aligned, width, align),
                        y: stack_offset(frames, gap, i as nat),
                    },
                    ItemModel::Group(frames[i]),
                ),
        ),
    }
}

/// The box of `rows` stacked top to bottom: their alignment points are
/// merged, each row becomes a box, and the boxes follow one another with
/// `gap` between them.
pub open spec fn stacked(rows: Seq<RowModel>, align: Align, gap: Abs, baseline: nat) -> FrameModel {
    let merged = alignment_model(rows);
    stack_of(
        aligned_frames(rows, merged.points, align),
        merged.points.len() > 0,
        merged.width,
        align,
        gap,
        baseline,
    )
}

/// The exact sum of the heights of the first `n` boxes.
pub open spec fn exact_heights(frames: Seq<FrameModel>, n: nat) -> int
    decreases n,
{
    if n == 0 {
        0
    } else {
        exact_heights(frames, (n - 1) as nat) + frames[n - 1].size.y
    }
}

/// The number of gaps between `n` boxes.
pub open spec fn gap_count(n: nat) -> int {
    if n == 0 {
        0
    } else {
        n - 1
    }
}

/// The heights of boxes none of which is negative add up to their exact
/// sum, as far as it can be represented.
pub proof fn lemma_heights_sum(frames: Seq<FrameModel>, n: nat)
    requires
        forall|k: int| 0 <= k < n ==> (#[trigger] frames[k]).size.y >= 0,
    ensures
        exact_heights(frames, n) >= 0,
        heights_sum(frames, n) == clamp(exact_heights(frames, n)),
    decreases n,
{
    if n > 0 {
        lemma_heights_sum(frames, (n - 1) as nat);
        assert(frames[n - 1].size.y >= 0);
    }
}

/// A stack is as high as its boxes together and the gaps between them:
/// with `n` boxes, `n - 1` gaps.
pub proof fn lemma_stack_height(frames: Seq<FrameModel>, gap: Abs)
    requires
        gap >= 0,
        forall|k: int| 0 <= k < frames.len() ==> (#[trigger] frames[k]).size.y >= 0,
    ensures
        stack_height(frames, gap) == clamp(
            exact_heights(frames, frames.len()) + gap * gap_count(frames.len()),
        ),
{
    lemma_heights_sum(frames, frames.len());
    let n = gap_count(frames.len());
    assert(gap * n >= 0) by (nonlinear_arith)
        requires
            gap >= 0,
            n >= 0,
    ;
}

/// The body that rows are stacked into holds one box for each row, top to
/// bottom. It is as wide as the merged alignment of the rows makes it, and
/// as high as the boxes together and the gaps between them. Each box is as
/// high as its row.
pub proof fn lemma_stacked(rows: Seq<RowModel>, align: Align, gap: Abs, baseline: nat)
    requires
        gap >= 0,
    ensures
        stacked(rows, align, gap, baseline).items.len() == rows.len(),
        stacked(rows, align, gap, baseline).size.x == alignment_model(rows).width,
        forall|k: int|
            0 <= k < rows.len() ==> (#[trigger] aligned_frames(
                rows,
                alignment_model(rows).points,
                align,
            )[k]).size.y == crate::row::row_height(rows[k]),
        stacked(rows, align, gap, baseline).size.y == clamp(
            exact_heights(
                aligned_frames(rows, alignment_model(rows).points, align),
                rows.len(),
            ) + gap * gap_count(rows.len()),
        ),
        rows.len() == 0 ==> stacked(rows, align, gap, baseline).size == (Size { x: 0, y: 0 }),
{
    let frames = aligned_frames(rows, alignment_model(rows).points, align);
    assert forall|k: int| 0 <= k < frames.len() implies (#[trigger] frames[k]).size.y >= 0 by {
        crate::row::lemma_row_height_nonnegative(rows[k]);
    }
    lemma_stack_height(frames, gap);
    if rows.len() == 0 {
        assert(gap * gap_count(0) == 0) by (nonlinear_arith);
    }
}

/// The models of a sequence of boxes.
pub open spec fn frame_models(frames: Seq<Frame>) -> Seq<FrameModel> {
    Seq::new(frames.len(), |i: int| frames[i]@)
}

/// Stacks `rows` top to bottom with `gap` between them. The baseline of the
/// result is the baseline of row number `baseline`.
pub fn stack(rows: Vec<MathRow>, align: Align, gap: Abs, baseline: usize) -> (frame: Frame)
    ensures
        frame@ == stacked(row_models(rows@), align, gap, baseline as nat),
{
    let ghost models = row_models(rows@);
    let merged = alignments(&rows);
    let ghost target = aligned_frames(models, merged.points@, align);
    let count: usize = rows.len();
    let ghost given = rows@;
    let mut frames: Vec<Frame> = Vec::new();
    let mut sum: Abs = 0;
    for row in it: rows
        invariant
            it.seq() == given,
            given.len() == count,
            models == row_models(given),
            target == aligned_frames(models, merged.points@, align),
            frames@.len() == it.index(),
            forall|k: int| 0 <= k < frames@.len() ==> (#[trigger] frames@[k])@ == target[k],
            sum == heights_sum(target, it.index() as nat),
    {
        assert(row@ == models[it.index() as int]);
        let aligned = row.into_aligned_frame(&merged.points, align);
        sum = plus(sum, aligned.height());
        frames.push(aligned);
    }
    assert(frame_models(frames@) =~= target);
    let between: Abs = if count == 0 {
        0
    } else {
        times(gap, count - 1)
    };
    let height: Abs = plus(sum, between);
    let width: Abs = merged.width;
    let has_points: bool = merged.points.len() > 0;
    let mut frame = Frame::new(Size { x: width, y: height });
    let mut y: Abs = 0;
    let mut i: usize = 0;
    let ghost boxes = frames@;
    for aligned in it: frames
        invariant
            it.seq() == boxes,
            boxes.len() == count,
            target == frame_models(boxes),
            i == it.index(),
            height == stack_height(target, gap),
            y == stack_offset(target, gap, i as nat),
            frame@.size == (Size { x: width, y: height }),
            frame@.baseline == if baseline < i {
                stack_baseline(target, gap, baseline as nat)
            } else {
                height
            },
            frame@.items == stack_of(
                target,
                has_points,
                width,
                align,
                gap,
                baseline as nat,
            ).items.take(i as int),
    {
        assert(aligned@ == target[i as int]);
        let x: Abs = if has_points {
            0
        } else {
            align.position(minus(width, aligned.width()))
        };
        if i == baseline {
            frame.set_baseline(plus(y, aligned.baseline()));
        }
        let ghost before = frame@.items;
        let pos = Point { x, y };
        y = plus(y, plus(aligned.height(), gap));
        frame.push_frame(pos, aligned);
        assert(frame@.items =~= stack_of(
            target,
            has_points,
            width,
            align,
            gap,
            baseline as nat,
        ).items.take(i + 1));
        i = i + 1;
    }
    assert(frame@.items =~= stack_of(
        target,
        has_points,
        width,
        align,
        gap,
        baseline as nat,
    ).items);
    frame
}

} // verus!
