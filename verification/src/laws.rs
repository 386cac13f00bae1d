//! What holds of the formatting of string literals as a whole.

use vstd::prelude::*;

use crate::escape::escapes_of;
use crate::escape::has_bare;
use crate::escape::is_readable;
use crate::escape::replaced;
use crate::escape::requoted;
use crate::escape::starts_with_escape;
use crate::information::has_quotes;
use crate::information::preferred_quote;
use crate::information::string_information;
use crate::normaliser::directive;
use crate::normaliser::normalised;
use crate::normaliser::quotes_dropped;
use crate::normaliser::string_literal;
use crate::options::QuoteProperties;
use crate::options::SourceFileKind;
use crate::quote::content;
use crate::quote::enclosed;
use crate::quote::is_quote;
use crate::quote::is_quoted;
use crate::quote::QuoteStyle;
use crate::text::is_ascii_digit_char;
use crate::text::lemma_occurrences_contains;
use crate::text::occurrences;
use crate::token::StringLiteralParentKind;
use crate::unicode::has_ident_shape;
use crate::unicode::is_ident_verdict;

verus! {

/// A part of the string that a literal denotes.
pub enum StringElement {
    /// A character that stands for itself, or a quote.
    Character(char),
    /// An escape, by the character it takes, of anything but a quote.
    Escape(char),
}

/// What a literal with the content `s` denotes: its characters, with quotes that are escaped
/// among them, and its other escapes.
pub open spec fn string_elements(s: Seq<char>) -> Seq<StringElement>
    decreases s.len(),
{
    if s.len() == 0 {
        seq![]
    } else if starts_with_escape(s) {
        seq![
            if is_quote(s[1]) {
                StringElement::Character(s[1])
            } else {
                StringElement::Escape(s[1])
            },
        ] + string_elements(s.skip(2))
    } else {
        seq![StringElement::Character(s[0])] + string_elements(s.skip(1))
    }
}

/// `s` without the backslashes that stand directly before quotes.
pub open spec fn without_quote_backslashes(s: Seq<char>) -> Seq<char>
    decreases s.len(),
{
    if s.len() == 0 {
        seq![]
    } else if starts_with_escape(s) && is_quote(s[1]) {
        without_quote_backslashes(s.skip(1))
    } else {
        seq![s[0]] + without_quote_backslashes(s.skip(1))
    }
}

/// No two backslashes in `s` are neighbours.
pub open spec fn backslashes_stand_alone(s: Seq<char>) -> bool {
    forall|i: int| 0 <= i < s.len() - 1 && #[trigger] s[i] == '\\' ==> s[i + 1] != '\\'
}

/// How many backslashes stand directly before position `i`.
pub open spec fn backslashes_before(s: Seq<char>, i: int) -> nat
    decreases i,
{
    if i <= 0 || s[i - 1] != '\\' {
        0
    } else {
        1 + backslashes_before(s, i - 1)
    }
}

/// `text` is a literal on its own: the same quote stands at both ends, every backslash between
/// them takes a character, that quote is escaped wherever it occurs between them, and there are
/// no carriage returns.
pub open spec fn is_well_formed(text: Seq<char>) -> bool {
    &&& is_quoted(text)
    &&& text[0] == text.last()
    &&& is_readable(content(text))
    &&& !has_bare(content(text), text[0])
}

/// The literal that `text` becomes when it stays quoted.
pub open spec fn formatted_literal(text: Seq<char>, chosen: QuoteStyle) -> Seq<char> {
    replaced(text, string_literal(text, string_information(text, chosen)))
}

/// The directive that `text` becomes.
pub open spec fn formatted_directive(text: Seq<char>, chosen: QuoteStyle) -> Seq<char> {
    replaced(text, directive(text, string_information(text, chosen)))
}

/// The preferred quote occurs in the content no more often than the other one, and it is the
/// chosen one where both occur equally often.
pub proof fn law_preferred_quote_is_rarer(inner: Seq<char>, chosen: QuoteStyle)
    ensures
        ({
            let preferred = preferred_quote(inner, chosen);
            &&& occurrences(inner, preferred.quote_char()) <= occurrences(
                inner,
                preferred.opposite().quote_char(),
            )
            &&& occurrences(inner, preferred.quote_char()) == occurrences(
                inner,
                preferred.opposite().quote_char(),
            ) ==> preferred == chosen
        }),
{
}

/// A formatted literal has as many escapes of the quote that encloses it as its content has of
/// these quotes, which is no more than it would have with the other quote. Where its quotes
/// change, no other quote is escaped.
pub proof fn law_preferred_quote_needs_fewest_escapes(
    text: Seq<char>,
    chosen: QuoteStyle,
    quotes_change: bool,
)
    requires
        is_quoted(text),
        is_readable(content(text)),
    ensures
        ({
            let inner = content(text);
            let preferred = preferred_quote(inner, chosen);
            let other = preferred.opposite();
            let formatted = content(formatted_literal(text, chosen));
            &&& escapes_of(formatted, preferred.quote_char()) == occurrences(
                inner,
                preferred.quote_char(),
            )
            &&& escapes_of(formatted, preferred.quote_char()) <= escapes_of(
                requoted(inner, other, quotes_change),
                other.quote_char(),
            )
            &&& text[0] != preferred.quote_char() ==> escapes_of(formatted, other.quote_char())
                == 0
        }),
{
    let inner = content(text);
    let info = string_information(text, chosen);
    let preferred = info.preferred_quote;
    lemma_formatted_content(text, chosen);
    lemma_requoted_escapes(inner, preferred, info.current_quote != preferred);
    lemma_requoted_escapes(inner, preferred.opposite(), quotes_change);
}

/// A literal that stays quoted starts with the preferred quote, and ends with it too if its
/// quotes matched before.
pub proof fn law_literal_gets_preferred_quote(text: Seq<char>, chosen: QuoteStyle)
    requires
        is_quoted(text),
    ensures
        is_quoted(formatted_literal(text, chosen)),
        formatted_literal(text, chosen)[0] == preferred_quote(content(text), chosen).quote_char(),
        text[0] == text.last() ==> formatted_literal(text, chosen).last() == preferred_quote(
            content(text),
            chosen,
        ).quote_char(),
{
}

/// Between the quotes of a literal that stays quoted, every quote of the kind that encloses it
/// is escaped.
pub proof fn law_inner_quotes_are_escaped(text: Seq<char>, chosen: QuoteStyle)
    requires
        is_quoted(text),
        is_readable(content(text)),
    ensures
        !has_bare(
            content(formatted_literal(text, chosen)),
            preferred_quote(content(text), chosen).quote_char(),
        ),
{
    let info = string_information(text, chosen);
    lemma_formatted_content(text, chosen);
    lemma_requoted_escapes(
        content(text),
        info.preferred_quote,
        info.current_quote != info.preferred_quote,
    );
}

/// A well-formed literal that stays quoted stays well-formed.
pub proof fn law_literal_stays_well_formed(text: Seq<char>, chosen: QuoteStyle)
    requires
        is_well_formed(text),
    ensures
        is_well_formed(formatted_literal(text, chosen)),
{
    let info = string_information(text, chosen);
    law_literal_gets_preferred_quote(text, chosen);
    law_inner_quotes_are_escaped(text, chosen);
    lemma_formatted_content(text, chosen);
    lemma_requoted_is_readable(
        content(text),
        info.preferred_quote,
        info.current_quote != info.preferred_quote,
    );
}

/// In a well-formed literal an odd number of backslashes stands before every inner quote of the
/// kind that encloses it, and an even number before the closing quote.
pub proof fn law_backslashes_of_a_well_formed_literal(text: Seq<char>)
    requires
        is_well_formed(text),
    ensures
        ({
            let inner = content(text);
            &&& forall|i: int|
                0 <= i < inner.len() && inner[i] == text[0] ==> #[trigger] backslashes_before(
                    inner,
                    i,
                ) % 2 == 1
            &&& backslashes_before(inner, inner.len() as int) % 2 == 0
        }),
{
    let inner = content(text);
    assert forall|i: int| 0 <= i < inner.len() && inner[i] == text[0] implies #[trigger]
        backslashes_before(inner, i) % 2 == 1 by {
        lemma_backslashes_before(inner, text[0], i);
    }
    lemma_backslashes_before(inner, text[0], inner.len() as int);
}

/// A literal that stays quoted denotes the same string before and after: but for the quotes
/// that enclose it, only backslashes that take quotes come or go.
pub proof fn law_string_value_is_kept(text: Seq<char>, chosen: QuoteStyle)
    requires
        is_quoted(text),
        is_readable(content(text)),
    ensures
        string_elements(content(formatted_literal(text, chosen))) == string_elements(
            content(text),
        ),
{
    let info = string_information(text, chosen);
    lemma_formatted_content(text, chosen);
    lemma_requoted_elements(
        content(text),
        info.preferred_quote,
        info.current_quote != info.preferred_quote,
    );
}

/// Where no two backslashes are neighbours, the content of a literal that stays quoted is the same
/// before and after but for the backslashes directly before quotes.
pub proof fn law_only_backslashes_before_quotes_change(text: Seq<char>, chosen: QuoteStyle)
    requires
        is_quoted(text),
        is_readable(content(text)),
        backslashes_stand_alone(content(text)),
    ensures
        without_quote_backslashes(content(formatted_literal(text, chosen)))
            == without_quote_backslashes(content(text)),
{
    let info = string_information(text, chosen);
    lemma_formatted_content(text, chosen);
    lemma_requoted_without_quote_backslashes(
        content(text),
        info.preferred_quote,
        info.current_quote != info.preferred_quote,
    );
}

/// No character of a literal that stays quoted is lost or added, but for backslashes and
/// carriage returns.
pub proof fn law_no_character_is_lost(text: Seq<char>, chosen: QuoteStyle, c: char)
    requires
        is_quoted(text),
        c != '\\' && c != '\r',
    ensures
        occurrences(content(formatted_literal(text, chosen)), c) == occurrences(content(text), c),
{
    let info = string_information(text, chosen);
    lemma_formatted_content(text, chosen);
    lemma_requoted_occurrences(
        content(text),
        info.preferred_quote,
        info.current_quote != info.preferred_quote,
        c,
    );
}

/// A well-formed literal that has the preferred quotes already stands, needless escapes and
/// all.
pub proof fn law_literal_stands_where_quotes_stay(text: Seq<char>, chosen: QuoteStyle)
    requires
        is_well_formed(text),
        text[0] == preferred_quote(content(text), chosen).quote_char(),
    ensures
        string_literal(text, string_information(text, chosen)) is None,
{
    lemma_requoted_without_bare(
        content(text),
        string_information(text, chosen).preferred_quote,
    );
}

/// Formatting a formatted literal changes nothing.
pub proof fn law_formatting_a_literal_twice(text: Seq<char>, chosen: QuoteStyle)
    requires
        is_quoted(text),
        is_readable(content(text)),
    ensures
        string_literal(
            formatted_literal(text, chosen),
            string_information(formatted_literal(text, chosen), chosen),
        ) is None,
{
    let inner = content(text);
    let info = string_information(text, chosen);
    let quote = info.preferred_quote;
    let change = info.current_quote != quote;
    let once = formatted_literal(text, chosen);
    lemma_formatted_content(text, chosen);
    law_literal_gets_preferred_quote(text, chosen);
    lemma_requoted_occurrences(inner, quote, change, '"');
    lemma_requoted_occurrences(inner, quote, change, '\'');
    lemma_requoted_is_readable(inner, quote, change);
    lemma_requoted_escapes(inner, quote, change);
    assert(string_information(once, chosen).preferred_quote == quote);
    lemma_requoted_without_bare(content(once), quote);
}

/// Content without quotes and carriage returns gives the same literal whichever quotes enclose
/// it: the content, unchanged, between two chosen quotes.
pub proof fn law_same_content_same_literal(
    inner: Seq<char>,
    current: QuoteStyle,
    chosen: QuoteStyle,
)
    requires
        !has_quotes(inner),
        !inner.contains('\r'),
    ensures
        formatted_literal(enclosed(inner, current), chosen) == enclosed(inner, chosen),
{
    let text = enclosed(inner, current);
    assert(content(text) =~= inner);
    lemma_occurrences_contains(inner, '"');
    lemma_occurrences_contains(inner, '\'');
    lemma_requoted_without_quotes(inner, chosen, current != chosen);
}

/// A directive keeps its content to the letter.
pub proof fn law_directive_keeps_content(text: Seq<char>, chosen: QuoteStyle)
    requires
        is_quoted(text),
    ensures
        is_quoted(formatted_directive(text, chosen)),
        content(formatted_directive(text, chosen)) == content(text),
{
    let quote = string_information(text, chosen).preferred_quote;
    assert(content(enclosed(content(text), quote)) =~= content(text));
}

/// A directive with quotes in its content keeps its own quotes; any other one gets the chosen
/// quote.
pub proof fn law_directive_quotes(text: Seq<char>, chosen: QuoteStyle)
    requires
        is_quoted(text),
    ensures
        has_quotes(content(text)) ==> formatted_directive(text, chosen) == text,
        !has_quotes(content(text)) ==> formatted_directive(text, chosen)[0]
            == chosen.quote_char(),
        !has_quotes(content(text)) && text[0] == text.last() ==> formatted_directive(text, chosen)
            == enclosed(content(text), chosen),
{
    let inner = content(text);
    lemma_occurrences_contains(inner, '"');
    lemma_occurrences_contains(inner, '\'');
    if text[0] == text.last() && text[0] == chosen.quote_char() {
        assert(text =~= enclosed(inner, chosen));
    }
}

/// Formatting a formatted directive changes nothing.
pub proof fn law_formatting_a_directive_twice(text: Seq<char>, chosen: QuoteStyle)
    requires
        is_quoted(text),
    ensures
        directive(
            formatted_directive(text, chosen),
            string_information(formatted_directive(text, chosen), chosen),
        ) is None,
{
    law_directive_keeps_content(text, chosen);
    law_directive_quotes(text, chosen);
}

/// Where quotes are preserved, and in expressions and directives, every literal stays quoted.
pub proof fn law_quotes_stay(
    text: Seq<char>,
    parent_kind: StringLiteralParentKind,
    quote_properties: QuoteProperties,
    chosen: QuoteStyle,
    file_source: SourceFileKind,
    number: Option<Seq<char>>,
    is_identifier: bool,
)
    requires
        is_quoted(text),
        quote_properties == QuoteProperties::Preserve || parent_kind
            == StringLiteralParentKind::Expression || parent_kind
            == StringLiteralParentKind::Directive,
    ensures
        is_quoted(
            replaced(
                text,
                normalised(
                    text,
                    parent_kind,
                    string_information(text, chosen),
                    quotes_dropped(
                        content(text),
                        parent_kind,
                        quote_properties,
                        file_source,
                        number,
                        is_identifier,
                    ),
                ),
            ),
        ),
{
    law_literal_gets_preferred_quote(text, chosen);
    law_directive_keeps_content(text, chosen);
}

/// In TypeScript, a member whose name starts with a digit keeps its quotes.
pub proof fn law_typescript_numbers_stay_quoted(
    inner: Seq<char>,
    quote_properties: QuoteProperties,
    number: Option<Seq<char>>,
    is_identifier: bool,
)
    requires
        inner.len() > 0,
        is_ascii_digit_char(inner[0]),
        is_ident_verdict(inner, is_identifier),
    ensures
        !quotes_dropped(
            inner,
            StringLiteralParentKind::Member,
            quote_properties,
            SourceFileKind::TypeScript,
            number,
            is_identifier,
        ),
{
}

/// Quotes are dropped only around what has the shape of an identifier or, in a member of a
/// JavaScript file, around a number that reads exactly as it is written.
pub proof fn law_dropped_quotes_leave_a_name_or_number(
    inner: Seq<char>,
    parent_kind: StringLiteralParentKind,
    quote_properties: QuoteProperties,
    file_source: SourceFileKind,
    number: Option<Seq<char>>,
    is_identifier: bool,
)
    requires
        is_ident_verdict(inner, is_identifier),
        quotes_dropped(inner, parent_kind, quote_properties, file_source, number, is_identifier),
    ensures
        has_ident_shape(inner) || {
            &&& parent_kind == StringLiteralParentKind::Member
            &&& file_source == SourceFileKind::JavaScript
            &&& inner.len() > 0
            &&& is_ascii_digit_char(inner[0])
            &&& number == Some(inner)
        },
{
}

/// Only members depend on the kind of the source file and on the number that the content
/// denotes.
pub proof fn law_only_members_depend_on_file_and_number(
    inner: Seq<char>,
    parent_kind: StringLiteralParentKind,
    quote_properties: QuoteProperties,
    is_identifier: bool,
    file_source: SourceFileKind,
    number: Option<Seq<char>>,
    other_file_source: SourceFileKind,
    other_number: Option<Seq<char>>,
)
    requires
        parent_kind != StringLiteralParentKind::Member,
    ensures
        quotes_dropped(inner, parent_kind, quote_properties, file_source, number, is_identifier)
            == quotes_dropped(
            inner,
            parent_kind,
            quote_properties,
            other_file_source,
            other_number,
            is_identifier,
        ),
{
}

/// What stands between the quotes of a formatted literal.
proof fn lemma_formatted_content(text: Seq<char>, chosen: QuoteStyle)
    requires
        is_quoted(text),
    ensures
        ({
            let info = string_information(text, chosen);
            content(formatted_literal(text, chosen)) == requoted(
                content(text),
                info.preferred_quote,
                info.current_quote != info.preferred_quote,
            )
        }),
{
    let info = string_information(text, chosen);
    let quote = info.preferred_quote;
    let new = requoted(content(text), quote, info.current_quote != quote);
    assert(content(enclosed(content(text), quote)) =~= content(text));
    assert(content(enclosed(new, quote)) =~= new);
}

/// How many characters the first character or escape of `s` has.
spec fn first_length(s: Seq<char>) -> int {
    if starts_with_escape(s) {
        2
    } else {
        1
    }
}

/// What becomes of the first character or escape of readable content, and of the rest.
proof fn lemma_requoted_unfolds(s: Seq<char>, quote: QuoteStyle, quotes_change: bool)
    requires
        s.len() > 0,
        is_readable(s),
    ensures
        ({
            let n = first_length(s);
            let e = s[n - 1];
            let r = requoted(s, quote, quotes_change);
            let tail = requoted(s.skip(n), quote, quotes_change);
            let unescaped = n == 2 && quotes_change && e == quote.opposite().quote_char();
            &&& n <= s.len()
            &&& is_readable(s.skip(n))
            &&& e != '\r'
            &&& r.len() > 0
            &&& starts_with_escape(r) <==> (n == 2 && !unescaped || e == quote.quote_char())
            &&& starts_with_escape(r) ==> r[1] == e && r.skip(2) == tail
            &&& !starts_with_escape(r) ==> r[0] == e && e != '\\' && r.skip(1) == tail
        }),
{
    let n = first_length(s);
    let r = requoted(s, quote, quotes_change);
    let tail = requoted(s.skip(n), quote, quotes_change);
    if starts_with_escape(r) {
        assert(r.skip(2) =~= tail);
    } else {
        assert(r.skip(1) =~= tail);
    }
}

/// How often `c`, which is no backslash, occurs in `s`: in its first character or escape, and in
/// the rest.
proof fn lemma_occurrences_unfold(s: Seq<char>, c: char)
    requires
        s.len() > 0,
        c != '\\',
    ensures
        occurrences(s, c) == occurrences(s.skip(first_length(s)), c) + if s[first_length(s) - 1]
            == c {
            1nat
        } else {
            0nat
        },
{
    assert(s.skip(1) =~= s.drop_first());
    if starts_with_escape(s) {
        assert(s.skip(2) =~= s.drop_first().drop_first());
        assert(occurrences(s.drop_first(), c) == occurrences(s.drop_first().drop_first(), c)
            + if s[1] == c {
            1nat
        } else {
            0nat
        });
    }
}

/// In requoted content the quote that encloses it is escaped wherever it occurs, and the other
/// one nowhere if the quotes change.
proof fn lemma_requoted_escapes(s: Seq<char>, quote: QuoteStyle, quotes_change: bool)
    requires
        is_readable(s),
    ensures
        !has_bare(requoted(s, quote, quotes_change), quote.quote_char()),
        escapes_of(requoted(s, quote, quotes_change), quote.quote_char()) == occurrences(
            s,
            quote.quote_char(),
        ),
        quotes_change ==> escapes_of(
            requoted(s, quote, quotes_change),
            quote.opposite().quote_char(),
        ) == 0,
    decreases s.len(),
{
    if s.len() > 0 {
        lemma_requoted_unfolds(s, quote, quotes_change);
        lemma_requoted_escapes(s.skip(first_length(s)), quote, quotes_change);
        lemma_occurrences_unfold(s, quote.quote_char());
    }
}

/// Requoting keeps content readable.
proof fn lemma_requoted_is_readable(s: Seq<char>, quote: QuoteStyle, quotes_change: bool)
    requires
        is_readable(s),
    ensures
        is_readable(requoted(s, quote, quotes_change)),
    decreases s.len(),
{
    if s.len() > 0 {
        lemma_requoted_unfolds(s, quote, quotes_change);
        lemma_requoted_is_readable(s.skip(first_length(s)), quote, quotes_change);
    }
}

/// Requoting keeps what the content denotes.
proof fn lemma_requoted_elements(s: Seq<char>, quote: QuoteStyle, quotes_change: bool)
    requires
        is_readable(s),
    ensures
        string_elements(requoted(s, quote, quotes_change)) == string_elements(s),
    decreases s.len(),
{
    if s.len() > 0 {
        lemma_requoted_unfolds(s, quote, quotes_change);
        lemma_requoted_elements(s.skip(first_length(s)), quote, quotes_change);
    }
}

/// Requoting keeps the content but for the backslashes directly before quotes.
proof fn lemma_requoted_without_quote_backslashes(
    s: Seq<char>,
    quote: QuoteStyle,
    quotes_change: bool,
)
    requires
        is_readable(s),
        backslashes_stand_alone(s),
    ensures
        without_quote_backslashes(requoted(s, quote, quotes_change)) == without_quote_backslashes(
            s,
        ),
    decreases s.len(),
{
    reveal_with_fuel(without_quote_backslashes, 3);
    if s.len() > 0 {
        let n = first_length(s);
        let r = requoted(s, quote, quotes_change);
        lemma_requoted_unfolds(s, quote, quotes_change);
        assert forall|i: int| 0 <= i < s.skip(n).len() - 1 && #[trigger] s.skip(n)[i]
            == '\\' implies s.skip(n)[i + 1] != '\\' by {
            assert(s[i + n] == '\\');
        }
        lemma_requoted_without_quote_backslashes(s.skip(n), quote, quotes_change);
        if n == 2 {
            assert(s[0] == '\\');
            assert(s.skip(1).skip(1) =~= s.skip(2));
        }
        if starts_with_escape(r) {
            assert(r.skip(1).skip(1) =~= r.skip(2));
        }
    }
}

/// How often a character occurs in two texts, one behind the other.
proof fn lemma_occurrences_concat(a: Seq<char>, b: Seq<char>, c: char)
    ensures
        occurrences(a + b, c) == occurrences(a, c) + occurrences(b, c),
    decreases a.len(),
{
    if a.len() == 0 {
        assert(a + b =~= b);
    } else {
        assert((a + b).drop_first() =~= a.drop_first() + b);
        lemma_occurrences_concat(a.drop_first(), b, c);
    }
}

/// Requoting adds and removes nothing but backslashes and carriage returns.
proof fn lemma_requoted_occurrences(
    s: Seq<char>,
    quote: QuoteStyle,
    quotes_change: bool,
    c: char,
)
    requires
        c != '\\' && c != '\r',
    ensures
        occurrences(requoted(s, quote, quotes_change), c) == occurrences(s, c),
    decreases s.len(),
{
    reveal_with_fuel(occurrences, 3);
    if s.len() > 0 {
        let n: int = if starts_with_escape(s) && s[1] != '\r' {
            2
        } else {
            1
        };
        let tail = requoted(s.skip(n), quote, quotes_change);
        let e = s[n - 1];
        lemma_requoted_occurrences(s.skip(n), quote, quotes_change, c);
        lemma_occurrences_concat(s.take(n), s.skip(n), c);
        assert(s.take(n) + s.skip(n) =~= s);
        lemma_occurrences_concat(seq![e], tail, c);
        lemma_occurrences_concat(seq!['\\', e], tail, c);
        assert(seq!['\\', e].drop_first() =~= seq![e]);
        assert(seq![e].drop_first() =~= seq![]);
        if n == 2 {
            assert(s.take(n) =~= seq!['\\', e]);
        } else {
            assert(s.take(n) =~= seq![e]);
        }
    }
}

/// Where quotes stay, requoting changes nothing in content in which they are escaped.
proof fn lemma_requoted_without_bare(s: Seq<char>, quote: QuoteStyle)
    requires
        is_readable(s),
        !has_bare(s, quote.quote_char()),
    ensures
        requoted(s, quote, false) == s,
    decreases s.len(),
{
    if s.len() > 0 {
        lemma_requoted_without_bare(s.skip(first_length(s)), quote);
    }
    assert(requoted(s, quote, false) =~= s);
}

/// Requoting changes nothing in content without quotes and carriage returns.
proof fn lemma_requoted_without_quotes(s: Seq<char>, quote: QuoteStyle, quotes_change: bool)
    requires
        !has_quotes(s),
        !s.contains('\r'),
    ensures
        requoted(s, quote, quotes_change) == s,
    decreases s.len(),
{
    if s.len() > 0 {
        let n = first_length(s);
        let rest = s.skip(n);
        assert(s.contains(s[0]));
        assert(s.contains(s[n - 1]));
        assert forall|c: char| #[trigger] rest.contains(c) implies s.contains(c) by {
            let i = choose|i: int| 0 <= i < rest.len() && rest[i] == c;
            assert(s[i + n] == c);
        }
        lemma_requoted_without_quotes(rest, quote, quotes_change);
    }
    assert(requoted(s, quote, quotes_change) =~= s);
}

/// The backslashes before a position of `s`, counted from behind the first `n` characters.
proof fn lemma_backslashes_before_skip(s: Seq<char>, n: int, i: int)
    requires
        0 <= n <= i <= s.len(),
    ensures
        backslashes_before(s.skip(n), i - n) <= i - n,
        backslashes_before(s, i) == if backslashes_before(s.skip(n), i - n) == i - n {
            (i - n) + backslashes_before(s, n)
        } else {
            backslashes_before(s.skip(n), i - n) as int
        },
    decreases i,
{
    if i > n {
        assert(s.skip(n)[i - n - 1] == s[i - 1]);
        lemma_backslashes_before_skip(s, n, i - 1);
    }
}

/// Before an escaped character that is no backslash stands an odd number of backslashes, and
/// before the end an even one.
proof fn lemma_backslashes_before(s: Seq<char>, c: char, i: int)
    requires
        c != '\\',
        is_readable(s),
        !has_bare(s, c),
        0 <= i <= s.len(),
        i < s.len() ==> s[i] == c,
    ensures
        backslashes_before(s, i) % 2 == (if i < s.len() {
            1int
        } else {
            0int
        }),
    decreases s.len(),
{
    reveal_with_fuel(backslashes_before, 3);
    if s.len() > 0 {
        let n = first_length(s);
        if i >= n {
            lemma_backslashes_before(s.skip(n), c, i - n);
            lemma_backslashes_before_skip(s, n, i);
        }
    }
}

} // verus!
