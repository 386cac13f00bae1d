//! Identifiers and display widths, which rest on the tables of the Unicode standard.

use vstd::prelude::*;
use vstd::utf8::*;

use crate::text::is_ascii_char;
use crate::text::is_ascii_digit_char;

verus! {

/// `c` is an ASCII letter, an underscore or a dollar sign.
pub open spec fn is_ascii_ident_start(c: char) -> bool {
    'a' <= c <= 'z' || 'A' <= c <= 'Z' || c == '_' || c == '$'
}

/// `c` can start an identifier, or is an ASCII digit.
pub open spec fn is_ascii_ident_part(c: char) -> bool {
    is_ascii_ident_start(c) || is_ascii_digit_char(c)
}

/// `s` is not empty, and as far as its characters are ASCII they can stand where they do in an
/// identifier.
pub open spec fn has_ident_shape(s: Seq<char>) -> bool {
    &&& s.len() > 0
    &&& is_ascii_char(s[0]) ==> is_ascii_ident_start(s[0])
    &&& forall|i: int| 0 <= i < s.len() && is_ascii_char(s[i]) ==> is_ascii_ident_part(#[trigger] s[i])
}

/// What `biome_unicode_table`'s `is_js_ident` says of a text.
pub uninterp spec fn js_ident(s: Seq<char>) -> bool;

/// What holds of the verdict on whether `s` is an identifier.
pub open spec fn is_ident_verdict(s: Seq<char>, verdict: bool) -> bool {
    &&& verdict ==> has_ident_shape(s)
    &&& is_ascii_chars(s) && has_ident_shape(s) ==> verdict
}

/// Calls `biome_unicode_table::is_js_ident`.
///
/// Nothing here proves what the contract claims of it: that the verdict depends on the text
/// alone; that an identifier is not empty, that its ASCII characters are letters, digits,
/// underscores and dollar signs, and that it does not start with a digit; and that an ASCII text
/// of that shape is an identifier. Which other characters an identifier may have is left unsaid.
#[verifier::external_body]
pub(crate) fn is_js_ident(s: &str) -> (r: bool)
    ensures
        r == js_ident(s@),
        is_ident_verdict(s@, r),
{
    biome_unicode_table::is_js_ident(s)
}

/// What `unicode_width`'s `UnicodeWidthStr::width` says of a text: its width in columns.
pub uninterp spec fn display_width(s: Seq<char>) -> usize;

/// Calls `unicode_width::UnicodeWidthStr::width`.
///
/// Nothing here proves what the contract claims of it: that the width depends on the text
/// alone, and that an ASCII text without line feeds is as wide as it is long. The width of other
/// text is left unsaid.
#[verifier::external_body]
pub(crate) fn text_width(s: &str) -> (r: usize)
    ensures
        r == display_width(s@),
        is_ascii_chars(s@) && !s@.contains('\n') ==> r == s@.len(),
{
    unicode_width::UnicodeWidthStr::width(s)
}

} // verus!
