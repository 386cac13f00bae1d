//! The two quotes that can enclose a string literal.

use vstd::prelude::*;

verus! {

/// The quote that encloses a string literal.
#[derive(Clone, Copy, Debug, PartialEq, Eq, Structural)]
pub enum QuoteStyle {
    Double,
    Single,
}

impl QuoteStyle {
    /// The quote as a character.
    pub open spec fn quote_char(self) -> char {
        match self {
            QuoteStyle::Double => '"',
            QuoteStyle::Single => '\'',
        }
    }

    /// The other of the two quotes.
    pub open spec fn opposite(self) -> QuoteStyle {
        match self {
            QuoteStyle::Double => QuoteStyle::Single,
            QuoteStyle::Single => QuoteStyle::Double,
        }
    }

    /// The quote as a one-character text.
    pub fn as_string(self) -> (r: &'static str)
        ensures
            r@ == seq![self.quote_char()],
    {
        match self {
            QuoteStyle::Double => {
                proof {
                    reveal_strlit("\"");
                }
                "\""
            },
            QuoteStyle::Single => {
                proof {
                    reveal_strlit("'");
                }
                "'"
            },
        }
    }

    /// The quote as the byte that stands for it in UTF-8.
    pub fn as_byte(self) -> (r: u8)
        ensures
            r == self.quote_char() as u8,
    {
        match self {
            QuoteStyle::Double => '"' as u8,
            QuoteStyle::Single => '\'' as u8,
        }
    }

    /// The quote that the byte stands for, if it stands for one.
    pub fn from_byte(byte: u8) -> (r: Option<QuoteStyle>)
        ensures
            r == Some(QuoteStyle::Double) <==> byte == '"' as u8,
            r == Some(QuoteStyle::Single) <==> byte == '\'' as u8,
    {
        if byte == '"' as u8 {
            Some(QuoteStyle::Double)
        } else if byte == '\'' as u8 {
            Some(QuoteStyle::Single)
        } else {
            None
        }
    }

    /// Given the current quote, it returns the other one.
    pub fn other(self) -> (r: QuoteStyle)
        ensures
            r == self.opposite(),
    {
        match self {
            QuoteStyle::Double => QuoteStyle::Single,
            QuoteStyle::Single => QuoteStyle::Double,
        }
    }
}

impl Default for QuoteStyle {
    fn default() -> (r: QuoteStyle)
        ensures
            r == QuoteStyle::Double,
    {
        QuoteStyle::Double
    }
}

/// `c` is one of the two quotes.
pub open spec fn is_quote(c: char) -> bool {
    c == '"' || c == '\''
}

/// `text` has at least two characters, and a quote at each end.
pub open spec fn is_quoted(text: Seq<char>) -> bool {
    text.len() >= 2 && is_quote(text[0]) && is_quote(text.last())
}

/// What stands between the quotes of `text`.
pub open spec fn content(text: Seq<char>) -> Seq<char> {
    text.subrange(1, text.len() - 1)
}

/// `inner` between two quotes of the given style.
pub open spec fn enclosed(inner: Seq<char>, quote: QuoteStyle) -> Seq<char> {
    seq![quote.quote_char()] + inner + seq![quote.quote_char()]
}

/// Puts the text between two quotes of the given style.
pub fn enclose(inner: &str, quote: QuoteStyle) -> (r: String)
    ensures
        r@ == enclosed(inner@, quote),
{
    let mut r = String::new();
    r.append(quote.as_string());
    r.append(inner);
    r.append(quote.as_string());
    proof {
        assert(r@ =~= enclosed(inner@, quote));
    }
    r
}

} // verus!
