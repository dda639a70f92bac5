//! The delimiters that can enclose a vector or a matrix.

use vstd::prelude::*;
use vstd::string::StrSliceExecFns;

verus! {

/// A vector / matrix delimiter.
#[derive(Debug, Copy, Clone, Eq, PartialEq, Hash, Structural)]
pub enum Delimiter {
    /// Delimit with parentheses.
    Paren,
    /// Delimit with brackets.
    Bracket,
    /// Delimit with curly braces.
    Brace,
    /// Delimit with vertical bars.
    Bar,
    /// Delimit with double vertical bars.
    DoubleBar,
}

/// A token that names no delimiter.
#[derive(Debug, Copy, Clone, Eq, PartialEq, Structural)]
pub struct UnknownDelimiter {}

impl UnknownDelimiter {
    /// The diagnostic for the rejected token, listing every accepted one.
    pub fn message(&self) -> (m: &'static str)
        ensures
            m@ == "expected \"(\", \"[\", \"{\", \"|\", or \"||\""@,
    {
        "expected \"(\", \"[\", \"{\", \"|\", or \"||\""
    }
}

impl Delimiter {
    /// The character that opens the delimited body.
    pub open spec fn opening(self) -> char {
        match self {
            Delimiter::Paren => '(',
            Delimiter::Bracket => '[',
            Delimiter::Brace => '{',
            Delimiter::Bar => '|',
            Delimiter::DoubleBar => '\u{2016}',
        }
    }

    /// The character that closes the delimited body.
    pub open spec fn closing(self) -> char {
        match self {
            Delimiter::Paren => ')',
            Delimiter::Bracket => ']',
            Delimiter::Brace => '}',
            Delimiter::Bar => '|',
            Delimiter::DoubleBar => '\u{2016}',
        }
    }

    /// The token that selects this delimiter in a configuration.
    pub open spec fn token_chars(self) -> Seq<char> {
        match self {
            Delimiter::Paren => seq!['('],
            Delimiter::Bracket => seq!['['],
            Delimiter::Brace => seq!['{'],
            Delimiter::Bar => seq!['|'],
            Delimiter::DoubleBar => seq!['|', '|'],
        }
    }

    /// The delimiter's opening character.
    pub fn open(self) -> (c: char)
        ensures
            c == self.opening(),
    {
        match self {
            Delimiter::Paren => '(',
            Delimiter::Bracket => '[',
            Delimiter::Brace => '{',
            Delimiter::Bar => '|',
            Delimiter::DoubleBar => '\u{2016}',
        }
    }

    /// The delimiter's closing character.
    pub fn close(self) -> (c: char)
        ensures
            c == self.closing(),
    {
        match self {
            Delimiter::Paren => ')',
            Delimiter::Bracket => ']',
            Delimiter::Brace => '}',
            Delimiter::Bar => '|',
            Delimiter::DoubleBar => '\u{2016}',
        }
    }

    /// The token that selects this delimiter.
    pub fn token(self) -> (t: &'static str)
        ensures
            t@ == self.token_chars(),
    {
        proof {
            reveal_strlit("(");
            reveal_strlit("[");
            reveal_strlit("{");
            reveal_strlit("|");
            reveal_strlit("||");
        }
        let t = match self {
            Delimiter::Paren => "(",
            Delimiter::Bracket => "[",
            Delimiter::Brace => "{",
            Delimiter::Bar => "|",
            Delimiter::DoubleBar => "||",
        };
        assert(t@ =~= self.token_chars());
        t
    }

    /// Looks a configuration token up in the table of delimiters.
    pub fn from_token(token: &str) -> (r: Result<Delimiter, UnknownDelimiter>)
        ensures
            match r {
                Ok(d) => token@ == d.token_chars(),
                Err(_) => forall|d: Delimiter| token@ != #[trigger] d.token_chars(),
            },
    {
        let n: usize = token.unicode_len();
        if n == 1 {
            let c: char = token.get_char(0);
            if c == '(' {
                assert(token@ =~= Delimiter::Paren.token_chars());
                Ok(Delimiter::Paren)
            } else if c == '[' {
                assert(token@ =~= Delimiter::Bracket.token_chars());
                Ok(Delimiter::Bracket)
            } else if c == '{' {
                assert(token@ =~= Delimiter::Brace.token_chars());
                Ok(Delimiter::Brace)
            } else if c == '|' {
                assert(token@ =~= Delimiter::Bar.token_chars());
                Ok(Delimiter::Bar)
            } else {
                assert forall|d: Delimiter| token@ != #[trigger] d.token_chars() by {
                    assert(d.token_chars().len() == 2 || d.token_chars()[0] != c);
                }
                Err(UnknownDelimiter {  })
            }
        } else if n == 2 {
            let a: char = token.get_char(0);
            let b: char = token.get_char(1);
            if a == '|' && b == '|' {
                assert(token@ =~= Delimiter::DoubleBar.token_chars());
                Ok(Delimiter::DoubleBar)
            } else {
                assert forall|d: Delimiter| token@ != #[trigger] d.token_chars() by {
                    assert(d.token_chars().len() == 1 || d.token_chars()[0] != a
                        || d.token_chars()[1] != b);
                }
                Err(UnknownDelimiter {  })
            }
        } else {
            assert forall|d: Delimiter| token@ != #[trigger] d.token_chars() by {
                assert(d.token_chars().len() == 1 || d.token_chars().len() == 2);
            }
            Err(UnknownDelimiter {  })
        }
    }
}

/// No two delimiters open with the same character, and none closes with
/// the character another one closes with.
pub proof fn lemma_delimiter_pairs_distinct(a: Delimiter, b: Delimiter)
    requires
        a != b,
    ensures
        a.opening() != b.opening(),
        a.closing() != b.closing(),
        a.token_chars() != b.token_chars(),
{
    assert(a.token_chars().len() != b.token_chars().len() || a.token_chars()[0]
        != b.token_chars()[0]);
}

/// The bars are symmetric: the same glyph stands on both sides. Every other
/// delimiter closes with a character of its own.
pub proof fn lemma_delimiter_symmetry(d: Delimiter)
    ensures
        d.opening() == d.closing() <==> (d == Delimiter::Bar || d == Delimiter::DoubleBar),
{
}

} // verus!
