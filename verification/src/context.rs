//! The ambient context of a layout: the font, the stack of styles and the
//! stream of fragments that the layout writes to.

use vstd::prelude::*;
use crate::frame::Glyph;
use crate::length::{em_at, scale, scaled, Abs, Em, EM_STEPS};
use crate::row::{fragment_models, MathFragment, RowModel};
use crate::source::{LayoutError, Span};

verus! {

/// The size at which math is set.
#[derive(Clone, Copy, Debug, PartialEq, Eq, Structural)]
pub enum MathSize {
    /// Second-level sub- and superscripts.
    ScriptScript,
    /// Sub- and superscripts.
    Script,
    /// Math in text.
    Text,
    /// Math on its own line.
    Display,
}

/// A text style for math.
#[derive(Clone, Copy, Debug, PartialEq, Eq, Structural)]
pub struct MathStyle {
    pub size: MathSize,
    pub cramped: bool,
}

impl MathStyle {
    /// The reduced style that the denominator of a fraction is set in: one
    /// size smaller, and cramped.
    pub open spec fn denominator(self) -> MathStyle {
        MathStyle {
            size: match self.size {
                MathSize::Display => MathSize::Text,
                MathSize::Text => MathSize::Script,
                MathSize::Script => MathSize::ScriptScript,
                MathSize::ScriptScript => MathSize::ScriptScript,
            },
            cramped: true,
        }
    }

    /// The style that the denominator of a fraction is set in.
    pub fn for_denominator(self) -> (s: MathStyle)
        ensures
            s == self.denominator(),
    {
        MathStyle {
            size: match self.size {
                MathSize::Display => MathSize::Text,
                MathSize::Text => MathSize::Script,
                MathSize::Script => MathSize::ScriptScript,
                MathSize::ScriptScript => MathSize::ScriptScript,
            },
            cramped: true,
        }
    }
}

/// The metrics of one glyph, relative to the font size.
#[derive(Clone, Copy, Debug, PartialEq, Eq, Structural)]
pub struct GlyphInfo {
    pub c: char,
    pub width: Em,
    pub ascent: Em,
    pub descent: Em,
}

/// The first of the first `n` entries of a glyph table that is for `c`.
pub open spec fn find_glyph(glyphs: Seq<GlyphInfo>, c: char, n: nat) -> Option<GlyphInfo>
    decreases n,
{
    if n == 0 {
        None
    } else {
        match find_glyph(glyphs, c, (n - 1) as nat) {
            Some(info) => Some(info),
            None => if glyphs[n - 1].c == c {
                Some(glyphs[n - 1])
            } else {
                None
            },
        }
    }
}

/// An entry that was found among the first `n` is found among the first
/// `m`, for every larger `m`.
pub proof fn lemma_find_glyph_stable(glyphs: Seq<GlyphInfo>, c: char, n: nat, m: nat)
    requires
        n <= m,
        find_glyph(glyphs, c, n) is Some,
    ensures
        find_glyph(glyphs, c, m) == find_glyph(glyphs, c, n),
    decreases m,
{
    if n < m {
        lemma_find_glyph_stable(glyphs, c, n, (m - 1) as nat);
    }
}

/// The entry that is found for `c` is an entry for `c`.
pub proof fn lemma_find_glyph_matches(glyphs: Seq<GlyphInfo>, c: char, n: nat)
    ensures
        find_glyph(glyphs, c, n) matches Some(info) ==> info.c == c,
    decreases n,
{
    if n > 0 {
        lemma_find_glyph_matches(glyphs, c, (n - 1) as nat);
    }
}

/// What the layout needs to know of the active font.
#[derive(Debug, PartialEq, Eq)]
pub struct Font {
    /// The height of the math axis above the baseline.
    pub axis_height: Em,
    /// The size of script style, in percent of the text size.
    pub script_percent: u32,
    /// The size of second-level script style, in percent of the text size.
    pub script_script_percent: u32,
    /// The glyphs that can serve as delimiters.
    pub glyphs: Vec<GlyphInfo>,
}

impl Font {
    /// The metrics of the glyph for `c`, if the font has one.
    pub open spec fn lookup(self, c: char) -> Option<GlyphInfo> {
        find_glyph(self.glyphs@, c, self.glyphs@.len())
    }

    /// The size of `size`, in percent of the text size.
    pub open spec fn percent(self, size: MathSize) -> u32 {
        match size {
            MathSize::Display => 100,
            MathSize::Text => 100,
            MathSize::Script => self.script_percent,
            MathSize::ScriptScript => self.script_script_percent,
        }
    }

    /// The metrics of the glyph for `c`, if the font has one.
    pub fn glyph(&self, c: char) -> (info: Option<GlyphInfo>)
        ensures
            info == self.lookup(c),
    {
        let mut i: usize = 0;
        while i < self.glyphs.len()
            invariant
                i <= self.glyphs.len(),
                find_glyph(self.glyphs@, c, i as nat) is None,
            decreases self.glyphs.len() - i,
        {
            if self.glyphs[i].c == c {
                proof {
                    lemma_find_glyph_stable(
                        self.glyphs@,
                        c,
                        (i + 1) as nat,
                        self.glyphs@.len(),
                    );
                }
                return Some(self.glyphs[i]);
            }
            i += 1;
        }
        None
    }
}

/// What a layout depends on: the font, the font size and the current
/// style.
pub struct Env {
    pub font: Font,
    pub base_size: u32,
    pub style: MathStyle,
}

impl Env {
    /// The font size in the current style.
    pub open spec fn size(self) -> Abs {
        scaled(self.base_size as Abs, self.font.percent(self.style.size), 100)
    }

    /// A font-relative length at the current size.
    pub open spec fn em(self, em: Em) -> Abs {
        scaled(self.size(), em, EM_STEPS)
    }

    /// The height of the math axis at the current size.
    pub open spec fn axis(self) -> Abs {
        self.em(self.font.axis_height)
    }

    /// The same surroundings in another style.
    pub open spec fn with_style(self, style: MathStyle) -> Env {
        Env { style, ..self }
    }

    /// The same surroundings in the reduced style of a denominator.
    pub open spec fn reduced(self) -> Env {
        self.with_style(self.style.denominator())
    }

    /// A glyph with the given metrics at the current size.
    pub open spec fn measured(self, info: GlyphInfo, span: Span) -> Glyph {
        Glyph {
            c: info.c,
            width: self.em(info.width),
            ascent: self.em(info.ascent),
            descent: self.em(info.descent),
            span,
        }
    }

    /// The glyph of the font for `c` at the current size.
    pub open spec fn glyph(self, c: char, span: Span) -> Result<Glyph, LayoutError> {
        match self.font.lookup(c) {
            Some(info) => Ok(self.measured(info, span)),
            None => Err(LayoutError::GlyphFailure { span, glyph: c }),
        }
    }
}

/// The context that a layout runs in.
#[derive(Debug, PartialEq, Eq)]
pub struct MathContext {
    /// The active font.
    pub font: Font,
    /// The font size of text style.
    pub base_size: u32,
    /// The current style.
    pub style: MathStyle,
    /// The styles that were current before, the oldest first.
    pub saved: Vec<MathStyle>,
    /// The fragments laid out so far.
    pub fragments: Vec<MathFragment>,
}

impl MathContext {
    /// A context without output, in the given style.
    pub fn new(font: Font, base_size: u32, style: MathStyle) -> (ctx: MathContext)
        ensures
            ctx.font == font,
            ctx.base_size == base_size,
            ctx.style == style,
            ctx.saved@.len() == 0,
            ctx.output() == Seq::<crate::row::FragmentModel>::empty(),
    {
        let ctx = MathContext { font, base_size, style, saved: Vec::new(), fragments: Vec::new() };
        assert(ctx.output() =~= Seq::<crate::row::FragmentModel>::empty());
        ctx
    }

    /// What a layout in this context depends on.
    pub open spec fn env(self) -> Env {
        Env { font: self.font, base_size: self.base_size, style: self.style }
    }

    /// The fragments laid out so far.
    pub open spec fn output(self) -> RowModel {
        fragment_models(self.fragments@)
    }

    /// Whether `other` has the font, the font size and the saved styles of
    /// this context.
    pub open spec fn same_setting(self, other: MathContext) -> bool {
        &&& self.font == other.font
        &&& self.base_size == other.base_size
        &&& self.saved@ == other.saved@
    }

    /// The font size in the current style.
    pub fn size(&self) -> (s: Abs)
        ensures
            s == self.env().size(),
    {
        let percent: u32 = match self.style.size {
            MathSize::Display => 100,
            MathSize::Text => 100,
            MathSize::Script => self.font.script_percent,
            MathSize::ScriptScript => self.font.script_script_percent,
        };
        scale(self.base_size as Abs, percent, 100)
    }

    /// A font-relative length at the current size.
    pub fn em(&self, em: Em) -> (a: Abs)
        ensures
            a == self.env().em(em),
    {
        em_at(em, self.size())
    }

    /// The height of the math axis at the current size.
    pub fn axis_height(&self) -> (a: Abs)
        ensures
            a == self.env().axis(),
    {
        self.em(self.font.axis_height)
    }

    /// A glyph with the given metrics at the current size.
    pub fn measure(&self, info: GlyphInfo, span: Span) -> (g: Glyph)
        ensures
            g == self.env().measured(info, span),
    {
        Glyph {
            c: info.c,
            width: self.em(info.width),
            ascent: self.em(info.ascent),
            descent: self.em(info.descent),
            span,
        }
    }

    /// The glyph of the font for `c` at the current size. Fails where the
    /// font has no such glyph.
    pub fn glyph(&self, c: char, span: Span) -> (r: Result<Glyph, LayoutError>)
        ensures
            r == self.env().glyph(c, span),
    {
        match self.font.glyph(c) {
            Some(info) => Ok(self.measure(info, span)),
            None => Err(LayoutError::GlyphFailure { span, glyph: c }),
        }
    }

    /// Makes `style` the current style and remembers the one it replaces.
    pub fn style(&mut self, style: MathStyle)
        ensures
            final(self).style == style,
            final(self).saved@ == old(self).saved@.push(old(self).style),
            final(self).font == old(self).font,
            final(self).base_size == old(self).base_size,
            final(self).fragments == old(self).fragments,
    {
        self.saved.push(self.style);
        self.style = style;
    }

    /// Returns to the style that was current before the last call of
    /// [`MathContext::style`].
    pub fn unstyle(&mut self)
        requires
            old(self).saved@.len() > 0,
        ensures
            final(self).style == old(self).saved@.last(),
            final(self).saved@ == old(self).saved@.drop_last(),
            final(self).font == old(self).font,
            final(self).base_size == old(self).base_size,
            final(self).fragments == old(self).fragments,
    {
        match self.saved.pop() {
            Some(style) => {
                self.style = style;
            },
            None => {},
        }
    }

    /// Appends a fragment to the output.
    pub fn push(&mut self, fragment: MathFragment)
        ensures
            final(self).output() == old(self).output().push(fragment@),
            final(self).style == old(self).style,
            old(self).same_setting(*final(self)),
    {
        let ghost model = fragment@;
        self.fragments.push(fragment);
        assert(self.output() =~= old(self).output().push(model));
    }
}

} // verus!
