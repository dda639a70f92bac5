//! Source locations and the failures a layout can end in.

use vstd::prelude::*;

verus! {

/// The place in the source text that an element or a cell came from.
#[derive(Clone, Copy, Debug, PartialEq, Eq, Hash, Structural)]
pub struct Span {
    pub id: u64,
}

/// Why a layout was abandoned.
#[derive(Clone, Copy, Debug, PartialEq, Eq, Structural)]
pub enum LayoutError {
    /// The content of a cell could not be measured. `span` is the cell.
    LayoutFailure { span: Span },
    /// The active font has no glyph for a delimiter character.
    GlyphFailure { span: Span, glyph: char },
}

impl LayoutError {
    /// The source location the failure is reported at.
    pub open spec fn location(self) -> Span {
        match self {
            LayoutError::LayoutFailure { span } => span,
            LayoutError::GlyphFailure { span, .. } => span,
        }
    }

    /// The source location the failure is reported at.
    pub fn span(&self) -> (s: Span)
        ensures
            s == self.location(),
    {
        match self {
            LayoutError::LayoutFailure { span } => *span,
            LayoutError::GlyphFailure { span, .. } => *span,
        }
    }
}

} // verus!
