//! Which quotes a literal has, and which it should have.

use vstd::prelude::*;

use crate::quote::content;
use crate::quote::QuoteStyle;
use crate::text::byte_occurrences;
use crate::text::occurrences;

verus! {

/// Data structure of convenience to store some information about the
/// string that has been processed
#[derive(Clone, Copy, Debug, PartialEq, Eq, Structural)]
pub struct StringInformation {
    /// Currently used quote
    pub current_quote: QuoteStyle,
    /// This is the quote that is calculated and eventually used inside the string.
    /// It could be different from the one inside the formatter options
    pub preferred_quote: QuoteStyle,
    /// It flags if the raw content has quotes (single or double). The raw content is the
    /// content of a string literal without the quotes
    pub raw_content_has_quotes: bool,
}

/// The quote that a quoted text starts with.
pub open spec fn current_quote(text: Seq<char>) -> QuoteStyle {
    if text[0] == '"' {
        QuoteStyle::Double
    } else {
        QuoteStyle::Single
    }
}

/// The quote to enclose `inner` with: `chosen`, unless it occurs in `inner` more often than the
/// other one.
pub open spec fn preferred_quote(inner: Seq<char>, chosen: QuoteStyle) -> QuoteStyle {
    if occurrences(inner, chosen.quote_char()) > occurrences(
        inner,
        chosen.opposite().quote_char(),
    ) {
        chosen.opposite()
    } else {
        chosen
    }
}

/// A quote of either kind occurs in `inner`.
pub open spec fn has_quotes(inner: Seq<char>) -> bool {
    inner.contains('"') || inner.contains('\'')
}

/// What there is to know about a quoted text when `chosen` is the quote it should have.
pub open spec fn string_information(text: Seq<char>, chosen: QuoteStyle) -> StringInformation {
    StringInformation {
        current_quote: current_quote(text),
        preferred_quote: preferred_quote(content(text), chosen),
        raw_content_has_quotes: has_quotes(content(text)),
    }
}

/// How often each of two different bytes occurs.
pub(crate) fn count_bytes(bytes: &[u8], first: u8, second: u8) -> (r: (usize, usize))
    requires
        first != second,
    ensures
        r.0 == byte_occurrences(bytes@, first),
        r.1 == byte_occurrences(bytes@, second),
{
    let mut first_count: usize = 0;
    let mut second_count: usize = 0;
    let mut i: usize = 0;
    let n: usize = bytes.len();
    proof {
        assert(bytes@.skip(0) =~= bytes@);
    }
    while i < n
        invariant
            first != second,
            i <= n,
            n == bytes@.len(),
            first_count <= i,
            second_count <= i,
            first_count + byte_occurrences(bytes@.skip(i as int), first) == byte_occurrences(
                bytes@,
                first,
            ),
            second_count + byte_occurrences(bytes@.skip(i as int), second) == byte_occurrences(
                bytes@,
                second,
            ),
        decreases n - i,
    {
        proof {
            assert(bytes@.skip(i as int).drop_first() =~= bytes@.skip(i + 1));
        }
        let current_character: u8 = bytes[i];
        if current_character == first {
            first_count = first_count + 1;
        } else if current_character == second {
            second_count = second_count + 1;
        }
        i = i + 1;
    }
    (first_count, second_count)
}

} // verus!
