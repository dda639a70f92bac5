//! What is laid out: the content of cells, and the vector, matrix and case
//! elements built from it.

use vstd::prelude::*;
use crate::context::GlyphInfo;
use crate::delimiter::Delimiter;
use crate::source::Span;

verus! {

/// One piece of the content of a cell.
#[derive(Debug, PartialEq, Eq)]
pub enum Piece {
    /// A glyph with its metrics, relative to the font size.
    Glyph(GlyphInfo),
    /// An alignment point, written `&`.
    Align,
    /// A reference that cannot be resolved: it cannot be laid out.
    Unresolved,
    /// A nested vector.
    Vector(VecElem),
    /// A nested matrix.
    Matrix(MatElem),
    /// A nested case distinction.
    Cases(CasesElem),
}

/// The content of one cell: its pieces from left to right, and the place
/// in the source that it came from.
#[derive(Debug, PartialEq, Eq)]
pub struct Content {
    pub pieces: Vec<Piece>,
    pub span: Span,
}

/// A column vector.
#[derive(Debug, PartialEq, Eq)]
pub struct VecElem {
    /// The delimiter to use. `None` leaves the body bare.
    pub delim: Option<Delimiter>,
    /// The elements of the vector.
    pub children: Vec<Content>,
    pub span: Span,
}

/// A matrix.
#[derive(Debug, PartialEq, Eq)]
pub struct MatElem {
    /// The delimiter to use. `None` leaves the body bare.
    pub delim: Option<Delimiter>,
    /// The rows of the matrix, each as long as every other.
    pub rows: Vec<Vec<Content>>,
    pub span: Span,
}

/// A case distinction.
#[derive(Debug, PartialEq, Eq)]
pub struct CasesElem {
    /// The configured delimiter.
    pub delim: Delimiter,
    /// The branches of the case distinction.
    pub children: Vec<Content>,
    pub span: Span,
}

/// One argument of a matrix: a single cell, or an array of cells.
#[derive(Debug, PartialEq, Eq)]
pub enum Arg {
    Cell(Content),
    Array(Vec<Content>),
}

impl Span {
    /// The span of content that stands nowhere in the source.
    pub fn detached() -> (s: Span)
        ensures
            s == (Span { id: 0 }),
    {
        Span { id: 0 }
    }
}

impl Content {
    /// Whether the content has no pieces. Such content has no extent.
    pub open spec fn is_blank(self) -> bool {
        self.pieces@.len() == 0
    }

    /// Content without pieces.
    pub fn empty() -> (c: Content)
        ensures
            c.is_blank(),
            c.span == (Span { id: 0 }),
    {
        Content { pieces: Vec::new(), span: Span::detached() }
    }

    /// Content made of `pieces`.
    pub fn new(pieces: Vec<Piece>, span: Span) -> (c: Content)
        ensures
            c.pieces == pieces,
            c.span == span,
    {
        Content { pieces, span }
    }

    /// A single glyph.
    pub fn glyph(info: GlyphInfo, span: Span) -> (c: Content)
        ensures
            c.pieces@ == seq![Piece::Glyph(info)],
            c.span == span,
    {
        let mut pieces: Vec<Piece> = Vec::new();
        pieces.push(Piece::Glyph(info));
        assert(pieces@ =~= seq![Piece::Glyph(info)]);
        Content { pieces, span }
    }
}

impl VecElem {
    /// A vector of `children` in parentheses.
    pub fn new(children: Vec<Content>, span: Span) -> (e: VecElem)
        ensures
            e.delim == Some(Delimiter::Paren),
            e.children == children,
            e.span == span,
    {
        VecElem { delim: Some(Delimiter::Paren), children, span }
    }

    /// The same vector with another delimiter, or with none.
    pub fn with_delim(self, delim: Option<Delimiter>) -> (e: VecElem)
        ensures
            e.delim == delim,
            e.children == self.children,
            e.span == self.span,
    {
        VecElem { delim, children: self.children, span: self.span }
    }
}

impl CasesElem {
    /// A case distinction with the branches `children`, configured with a
    /// brace.
    pub fn new(children: Vec<Content>, span: Span) -> (e: CasesElem)
        ensures
            e.delim == Delimiter::Brace,
            e.children == children,
            e.span == span,
    {
        CasesElem { delim: Delimiter::Brace, children, span }
    }

    /// The same case distinction configured with another delimiter.
    pub fn with_delim(self, delim: Delimiter) -> (e: CasesElem)
        ensures
            e.delim == delim,
            e.children == self.children,
            e.span == self.span,
    {
        CasesElem { delim, children: self.children, span: self.span }
    }
}

/// Whether one of the first `n` arguments is an array.
pub open spec fn any_array(args: Seq<Arg>, n: nat) -> bool
    decreases n,
{
    if n == 0 {
        false
    } else {
        args[n - 1] is Array || any_array(args, (n - 1) as nat)
    }
}

/// The cells that an argument stands for where the arguments are read as
/// rows: the elements of an array, or the one cell.
pub open spec fn arg_cells(arg: Arg) -> Seq<Content> {
    match arg {
        Arg::Cell(c) => seq![c],
        Arg::Array(v) => v@,
    }
}

/// The length of the longest row among the first `n` arguments.
pub open spec fn longest_row(args: Seq<Arg>, n: nat) -> nat
    decreases n,
{
    if n == 0 {
        0
    } else {
        let before = longest_row(args, (n - 1) as nat);
        if arg_cells(args[n - 1]).len() > before {
            arg_cells(args[n - 1]).len()
        } else {
            before
        }
    }
}

/// Whether `row` is `cells` filled up on the right with blank cells to the
/// length `width`.
pub open spec fn is_padded(row: Seq<Content>, cells: Seq<Content>, width: nat) -> bool {
    &&& cells.len() <= width
    &&& row.len() == width
    &&& forall|j: int| 0 <= j < cells.len() ==> row[j] == cells[j]
    &&& forall|j: int| cells.len() <= j < width ==> (#[trigger] row[j]).is_blank()
}

/// Whether `rows` are the rows that the arguments `args` of a matrix stand
/// for. Where an argument is an array, every argument is one row, filled
/// up with blank cells to the length of the longest. Where none is, all
/// arguments together are the one row.
pub open spec fn is_normal_form(rows: Seq<Vec<Content>>, args: Seq<Arg>) -> bool {
    if any_array(args, args.len()) {
        &&& rows.len() == args.len()
        &&& forall|i: int|
            0 <= i < args.len() ==> is_padded(
                (#[trigger] rows[i])@,
                arg_cells(args[i]),
                longest_row(args, args.len()),
            )
    } else {
        &&& rows.len() == 1
        &&& rows[0]@.len() == args.len()
        &&& forall|j: int| 0 <= j < args.len() ==> args[j] == Arg::Cell(#[trigger] rows[0]@[j])
    }
}

/// Whether every row is `width` long.
pub open spec fn is_rectangular(rows: Seq<Vec<Content>>, width: nat) -> bool {
    forall|i: int| 0 <= i < rows.len() ==> (#[trigger] rows[i])@.len() == width
}

/// The number of columns of a matrix: the length of its first row.
pub open spec fn column_count(rows: Seq<Vec<Content>>) -> nat {
    if rows.len() == 0 {
        0
    } else {
        rows[0]@.len()
    }
}

/// No row among the first `m` arguments is longer than the longest among
/// the first `n`, for `m <= n`.
pub proof fn lemma_longest_row_bounds(args: Seq<Arg>, k: int, n: nat)
    requires
        0 <= k < n,
    ensures
        arg_cells(args[k]).len() <= longest_row(args, n),
    decreases n,
{
    if k < n - 1 {
        lemma_longest_row_bounds(args, k, (n - 1) as nat);
    }
}

/// Where no argument is an array, each one is a cell.
pub proof fn lemma_no_array(args: Seq<Arg>, k: int, n: nat)
    requires
        0 <= k < n,
        !any_array(args, n),
    ensures
        args[k] is Cell,
    decreases n,
{
    if k < n - 1 {
        lemma_no_array(args, k, (n - 1) as nat);
    }
}

fn has_array(args: &Vec<Arg>) -> (b: bool)
    ensures
        b == any_array(args@, args@.len()),
{
    let mut found = false;
    let mut i: usize = 0;
    while i < args.len()
        invariant
            i <= args.len(),
            found == any_array(args@, i as nat),
        decreases args.len() - i,
    {
        match &args[i] {
            Arg::Array(_) => {
                found = true;
            },
            Arg::Cell(_) => {},
        }
        i += 1;
    }
    found
}

fn pad(row: Vec<Content>, width: usize) -> (padded: Vec<Content>)
    requires
        row@.len() <= width,
    ensures
        is_padded(padded@, row@, width as nat),
{
    let mut padded = row;
    while padded.len() < width
        invariant
            row@.len() <= padded@.len() <= width,
            forall|j: int| 0 <= j < row@.len() ==> padded@[j] == row@[j],
            forall|j: int| row@.len() <= j < padded@.len() ==> (#[trigger] padded@[j]).is_blank(),
        decreases width - padded.len(),
    {
        padded.push(Content::empty());
    }
    padded
}

impl MatElem {
    /// Whether every row is as long as the first.
    pub open spec fn rectangular(self) -> bool {
        is_rectangular(self.rows@, column_count(self.rows@))
    }

    /// The matrix that the arguments `args` stand for, in parentheses.
    ///
    /// Where one of the arguments is an array, every argument is a row: an
    /// array gives its elements, a single cell a row of one. The rows are
    /// then filled up on the right with blank cells to the length of the
    /// longest. Where no argument is an array, all of them together are
    /// the one row of the matrix.
    pub fn new(args: Vec<Arg>, span: Span) -> (m: MatElem)
        ensures
            m.delim == Some(Delimiter::Paren),
            m.span == span,
            is_normal_form(m.rows@, args@),
            m.rectangular(),
            is_rectangular(
                m.rows@,
                if any_array(args@, args@.len()) {
                    longest_row(args@, args@.len())
                } else {
                    args@.len() as nat
                },
            ),
    {
        let arrays = has_array(&args);
        let count: usize = args.len();
        let ghost given = args@;
        let mut rows: Vec<Vec<Content>> = Vec::new();
        if arrays {
            let mut raw: Vec<Vec<Content>> = Vec::new();
            let mut width: usize = 0;
            for arg in it: args
                invariant
                    it.seq() == given,
                    given.len() == count,
                    raw@.len() == it.index(),
                    width == longest_row(given, it.index() as nat),
                    forall|i: int| 0 <= i < raw@.len() ==> (#[trigger] raw@[i])@ == arg_cells(given[i]),
            {
                let row: Vec<Content> = match arg {
                    Arg::Cell(c) => {
                        let mut single: Vec<Content> = Vec::new();
                        single.push(c);
                        assert(single@ =~= seq![c]);
                        single
                    },
                    Arg::Array(v) => v,
                };
                if row.len() > width {
                    width = row.len();
                }
                raw.push(row);
            }
            let ghost cells = raw@;
            for row in it: raw
                invariant
                    it.seq() == cells,
                    cells.len() == count,
                    given.len() == count,
                    width == longest_row(given, given.len()),
                    forall|i: int| 0 <= i < cells.len() ==> (#[trigger] cells[i])@ == arg_cells(given[i]),
                    rows@.len() == it.index(),
                    forall|i: int|
                        0 <= i < rows@.len() ==> is_padded(
                            (#[trigger] rows@[i])@,
                            arg_cells(given[i]),
                            width as nat,
                        ),
            {
                proof {
                    lemma_longest_row_bounds(given, it.index() as int, given.len());
                }
                let padded = pad(row, width);
                rows.push(padded);
            }
        } else {
            let mut row: Vec<Content> = Vec::new();
            for arg in it: args
                invariant
                    it.seq() == given,
                    given.len() == count,
                    !any_array(given, given.len()),
                    row@.len() == it.index(),
                    forall|j: int| 0 <= j < row@.len() ==> given[j] == Arg::Cell(#[trigger] row@[j]),
            {
                proof {
                    lemma_no_array(given, it.index() as int, given.len());
                }
                match arg {
                    Arg::Cell(c) => {
                        row.push(c);
                    },
                    Arg::Array(_) => {},
                }
            }
            rows.push(row);
        }
        MatElem { delim: Some(Delimiter::Paren), rows, span }
    }

    /// The same matrix with another delimiter, or with none.
    pub fn with_delim(self, delim: Option<Delimiter>) -> (m: MatElem)
        ensures
            m.delim == delim,
            m.rows == self.rows,
            m.span == self.span,
    {
        MatElem { delim, rows: self.rows, span: self.span }
    }

    /// The number of rows.
    pub fn row_count(&self) -> (n: usize)
        ensures
            n == self.rows@.len(),
    {
        self.rows.len()
    }

    /// The number of columns: the length of the first row.
    pub fn col_count(&self) -> (n: usize)
        ensures
            n == column_count(self.rows@),
    {
        if self.rows.len() == 0 {
            0
        } else {
            self.rows[0].len()
        }
    }
}

} // verus!
