//! What holds of the texts that literals get, in every construct, file and configuration.

use std::borrow::Cow;

use vstd::prelude::*;
use vstd::utf8::is_ascii_chars;

use crate::escape::is_readable;
use crate::escape::replaced;
use crate::escape::replacement;
use crate::escape::requoted;
use crate::information::string_information;
use crate::information::StringInformation;
use crate::laws::formatted_literal;
use crate::laws::is_well_formed;
use crate::laws::law_literal_stays_well_formed;
use crate::laws::law_string_value_is_kept;
use crate::laws::string_elements;
use crate::literal::CleanedStringLiteralText;
use crate::literal::FormatLiteralStringToken;
use crate::normaliser::directive;
use crate::normaliser::number_can_stand;
use crate::normaliser::number_view;
use crate::normaliser::string_literal;
use crate::normaliser::swapped;
use crate::normaliser::LiteralStringNormaliser;
use crate::options::source_file_kind;
use crate::options::JsFormatOptions;
use crate::options::Language;
use crate::options::QuoteProperties;
use crate::options::SourceFileKind;
use crate::quote::content;
use crate::quote::enclosed;
use crate::quote::is_quoted;
use crate::quote::QuoteStyle;
use crate::requoting::has_whole_line_ends;
use crate::requoting::law_requoting_ignores_the_kind_of_line_end;
use crate::requoting::without_carriage_returns;
use crate::text::lemma_occurrences_contains;
use crate::text::occurrences;
use crate::token::JsSyntaxToken;
use crate::token::StringLiteralParentKind;
use crate::unicode::display_width;
use crate::unicode::is_ident_verdict;
use crate::unicode::js_ident;

verus! {

/// What stands between the first and the last character of the token's text.
pub open spec fn inner_text(token: JsSyntaxToken) -> Seq<char> {
    token.text_trimmed@.subrange(1, token.text_trimmed@.len() - 1)
}

/// `c` is an ASCII letter, an ASCII digit, an underscore or a dollar sign.
pub open spec fn is_name_char(c: char) -> bool {
    'a' <= c <= 'z' || 'A' <= c <= 'Z' || '0' <= c <= '9' || c == '_' || c == '$'
}

/// `s` is a name in ASCII: not empty, of name characters, and with no digit in front.
pub open spec fn is_ascii_name(s: Seq<char>) -> bool {
    &&& s.len() > 0
    &&& !('0' <= s[0] <= '9')
    &&& forall|i: int| 0 <= i < s.len() ==> is_name_char(#[trigger] s[i])
}

/// Counting a character is counting it in the multiset of the characters.
pub proof fn law_occurrences_are_a_count(s: Seq<char>, c: char)
    ensures
        occurrences(s, c) == s.to_multiset().count(c),
    decreases s.len(),
{
    broadcast use vstd::seq_lib::group_to_multiset_ensures;

    if s.len() > 0 {
        assert(s.remove(0) =~= s.drop_first());
        law_occurrences_are_a_count(s.drop_first(), c);
        assert(s.drop_first().to_multiset() =~= s.to_multiset().remove(s[0]));
        assert(s.contains(s[0]));
    }
}

/// Any content between any two quotes is a literal's text, and only such texts are.
pub proof fn law_literals_are_contents_between_quotes(
    inner: Seq<char>,
    first: QuoteStyle,
    last: QuoteStyle,
    text: Seq<char>,
)
    ensures
        is_quoted(seq![first.quote_char()] + inner + seq![last.quote_char()]),
        content(seq![first.quote_char()] + inner + seq![last.quote_char()]) == inner,
        enclosed(inner, first) == seq![first.quote_char()] + inner + seq![first.quote_char()],
        is_quoted(text) ==> {
            &&& text.len() >= 2
            &&& text[0] == '"' || text[0] == '\''
            &&& text.last() == '"' || text.last() == '\''
            &&& seq![text[0]] + content(text) + seq![text.last()] == text
        },
{
    let made = seq![first.quote_char()] + inner + seq![last.quote_char()];
    assert(content(made) =~= inner);
    if is_quoted(text) {
        assert(seq![text[0]] + content(text) + seq![text.last()] =~= text);
    }
}

/// Borrowed text replaces nothing, and owned text replaces the old text with itself.
pub proof fn law_owned_text_replaces(text: Cow<str>, old: Seq<char>)
    ensures
        text is Borrowed ==> replacement(text) is None && replaced(old, replacement(text)) == old,
        text is Owned ==> replacement(text) == Some(text@) && replaced(old, replacement(text))
            == text@,
{
}

/// Every token with a quote at each end can be normalised.
pub proof fn law_every_literal_can_be_normalised(normaliser: LiteralStringNormaliser)
    requires
        is_quoted(normaliser.token.token.text_trimmed@),
    ensures
        normaliser.token.token.wf(),
        normaliser.wf(),
{
}

/// The current quote is the one that the text starts with. The preferred quote is the chosen one,
/// unless it occurs in the content more often than the other one. The content has quotes where one
/// of either kind occurs in it.
pub proof fn law_information_of_a_literal(text: Seq<char>, chosen: QuoteStyle)
    requires
        is_quoted(text),
    ensures
        ({
            let info = string_information(text, chosen);
            let counts = text.subrange(1, text.len() - 1).to_multiset();
            let double = counts.count('"');
            let single = counts.count('\'');
            &&& info.current_quote.quote_char() == text[0]
            &&& double < single ==> info.preferred_quote == QuoteStyle::Double
            &&& single < double ==> info.preferred_quote == QuoteStyle::Single
            &&& single == double ==> info.preferred_quote == chosen
            &&& info.raw_content_has_quotes <==> double + single > 0
        }),
{
    let inner = text.subrange(1, text.len() - 1);
    law_occurrences_are_a_count(inner, '"');
    law_occurrences_are_a_count(inner, '\'');
    lemma_occurrences_contains(inner, '"');
    lemma_occurrences_contains(inner, '\'');
}

/// A literal whose quotes are swapped stands where it starts with the preferred quote, and is the
/// given content between preferred quotes otherwise.
pub proof fn law_swapped_quotes(text: Seq<char>, inner: Seq<char>, preferred: QuoteStyle)
    requires
        is_quoted(text),
    ensures
        swapped(text, inner, preferred) is None <==> text[0] == preferred.quote_char(),
        swapped(text, inner, preferred) matches Some(new) ==> new == seq![preferred.quote_char()]
            + inner + seq![preferred.quote_char()],
{
}

/// Whatever is said of its quotes, a directive stands where its content is said to have quotes or
/// it starts with the preferred quote; else its content stands between preferred quotes.
pub proof fn law_directive_for_any_information(text: Seq<char>, info: StringInformation)
    requires
        is_quoted(text),
    ensures
        directive(text, info) is None <==> info.raw_content_has_quotes || text[0]
            == info.preferred_quote.quote_char(),
        directive(text, info) matches Some(new) ==> new == seq![
            info.preferred_quote.quote_char(),
        ] + text.subrange(1, text.len() - 1) + seq![info.preferred_quote.quote_char()],
{
}

/// Whatever is said of its quotes, a literal stands where it starts with the preferred quote and
/// requoting changes nothing; else its requoted content stands between preferred quotes.
pub proof fn law_literal_for_any_information(text: Seq<char>, info: StringInformation)
    requires
        is_quoted(text),
    ensures
        ({
            let inner = text.subrange(1, text.len() - 1);
            let quote = info.preferred_quote;
            let new = requoted(inner, quote, info.current_quote != quote);
            &&& string_literal(text, info) is None <==> text[0] == quote.quote_char() && new
                == inner
            &&& string_literal(text, info) matches Some(r) ==> r == seq![quote.quote_char()] + new
                + seq![quote.quote_char()]
        }),
{
}

/// A formatted literal starts with the quote that occurs in its content less often, or with the
/// chosen one if both occur equally often. Between its quotes stands the requoted content. It ends
/// with the quote it starts with, unless it stands and its quotes did not match.
pub proof fn law_formatted_literal_is_requoted(text: Seq<char>, chosen: QuoteStyle)
    requires
        is_quoted(text),
    ensures
        ({
            let inner = text.subrange(1, text.len() - 1);
            let double = inner.to_multiset().count('"');
            let single = inner.to_multiset().count('\'');
            let quote = if double < single {
                QuoteStyle::Double
            } else if single < double {
                QuoteStyle::Single
            } else {
                chosen
            };
            let new = requoted(inner, quote, text[0] != quote.quote_char());
            let r = formatted_literal(text, chosen);
            &&& r.len() == new.len() + 2
            &&& r[0] == quote.quote_char()
            &&& r.subrange(1, r.len() - 1) == new
            &&& r.last() == quote.quote_char() || r == text
            &&& text[0] == text.last() ==> r.last() == quote.quote_char()
            &&& text[0] == quote.quote_char() && new == inner ==> r == text
        }),
{
    let inner = text.subrange(1, text.len() - 1);
    let info = string_information(text, chosen);
    let quote = info.preferred_quote;
    law_information_of_a_literal(text, chosen);
    law_literal_for_any_information(text, info);
    let new = requoted(inner, quote, text[0] != quote.quote_char());
    let r = formatted_literal(text, chosen);
    if r != text {
        assert(r.subrange(1, r.len() - 1) =~= new);
    }
}

/// A literal with line ends `\r\n` gets the text that it gets with line ends `\n`.
pub proof fn law_formatted_literal_ignores_the_kind_of_line_end(
    text: Seq<char>,
    chosen: QuoteStyle,
)
    requires
        is_quoted(text),
        text[0] == text.last(),
        has_whole_line_ends(text),
    ensures
        is_quoted(without_carriage_returns(text)),
        formatted_literal(text, chosen) == formatted_literal(
            without_carriage_returns(text),
            chosen,
        ),
{
    let kept = |c: char| c != '\r';
    let inner = text.subrange(1, text.len() - 1);
    let quote = seq![text[0]];
    let other = without_carriage_returns(text);
    let new = without_carriage_returns(inner);
    assert(text =~= quote + inner + quote);
    Seq::filter_distributes_over_add(quote + inner, quote, kept);
    Seq::filter_distributes_over_add(quote, inner, kept);
    assert(quote.filter(kept) =~= quote) by {
        reveal(Seq::filter);
        assert(quote.drop_last() =~= seq![]);
        assert(quote.drop_last().filter(kept) =~= seq![]);
    }
    assert(other =~= quote + new + quote);
    assert(other.subrange(1, other.len() - 1) =~= new);
    assert forall|i: int| 0 <= i < inner.len() && #[trigger] inner[i] == '\r' implies i + 1
        < inner.len() && inner[i + 1] == '\n' by {
        assert(text[i + 1] == '\r');
    }
    lemma_count_without_carriage_returns(inner, '"');
    lemma_count_without_carriage_returns(inner, '\'');
    law_formatted_literal_is_requoted(text, chosen);
    law_formatted_literal_is_requoted(other, chosen);
    law_requoting_ignores_the_kind_of_line_end(inner, QuoteStyle::Double, true);
    law_requoting_ignores_the_kind_of_line_end(inner, QuoteStyle::Double, false);
    law_requoting_ignores_the_kind_of_line_end(inner, QuoteStyle::Single, true);
    law_requoting_ignores_the_kind_of_line_end(inner, QuoteStyle::Single, false);
    let a = formatted_literal(text, chosen);
    let b = formatted_literal(other, chosen);
    assert(a =~= seq![a[0]] + a.subrange(1, a.len() - 1) + seq![a.last()]);
    assert(b =~= seq![b[0]] + b.subrange(1, b.len() - 1) + seq![b.last()]);
}

/// How often a character other than a carriage return occurs does not depend on carriage returns.
proof fn lemma_count_without_carriage_returns(s: Seq<char>, c: char)
    requires
        c != '\r',
    ensures
        without_carriage_returns(s).to_multiset().count(c) == s.to_multiset().count(c),
    decreases s.len(),
{
    broadcast use vstd::seq_lib::group_to_multiset_ensures;

    reveal(Seq::filter);
    if s.len() > 0 {
        let front = s.drop_last();
        lemma_count_without_carriage_returns(front, c);
        assert(s =~= front.push(s.last()));
    } else {
        assert(without_carriage_returns(s) =~= s);
    }
}

/// In an expression a literal stays a literal, in every file, whatever the number its content
/// denotes and whether or not quotes are preserved. It is quoted with the preferred quote, and it
/// denotes the same string.
pub proof fn law_expression_stays_a_literal(
    normaliser: LiteralStringNormaliser,
    file_source: SourceFileKind,
    number_text: Option<&str>,
)
    requires
        normaliser.wf(),
        normaliser.token.parent_kind == StringLiteralParentKind::Expression,
    ensures
        ({
            let text = normaliser.token.token.text_trimmed@;
            let inner = inner_text(*normaliser.token.token);
            let chosen = normaliser.chosen_quote_style.quote_char();
            let double = inner.to_multiset().count('"');
            let single = inner.to_multiset().count('\'');
            let r = normaliser.result(file_source, number_text);
            &&& r == formatted_literal(text, normaliser.chosen_quote_style)
            &&& r.len() >= 2
            &&& double < single ==> r[0] == '"'
            &&& single < double ==> r[0] == '\''
            &&& single == double ==> r[0] == chosen
            &&& text[0] == text.last() ==> r.last() == r[0]
            &&& is_readable(inner) ==> string_elements(r.subrange(1, r.len() - 1))
                == string_elements(inner)
            &&& is_well_formed(text) ==> is_well_formed(r)
        }),
{
    let text = normaliser.token.token.text_trimmed@;
    let chosen = normaliser.chosen_quote_style;
    law_formatted_literal_is_requoted(text, chosen);
    if is_readable(content(text)) {
        law_string_value_is_kept(text, chosen);
    }
    if is_well_formed(text) {
        law_literal_stays_well_formed(text, chosen);
    }
}

/// A directive with a quote in its content stands, in every file. Any other one gets the chosen
/// quote, with its content as it is written, unless it starts with that quote already.
pub proof fn law_directive_gets_the_chosen_quote(
    normaliser: LiteralStringNormaliser,
    file_source: SourceFileKind,
    number_text: Option<&str>,
)
    requires
        normaliser.wf(),
        normaliser.token.parent_kind == StringLiteralParentKind::Directive,
    ensures
        ({
            let text = normaliser.token.token.text_trimmed@;
            let inner = inner_text(*normaliser.token.token);
            let chosen = normaliser.chosen_quote_style.quote_char();
            let r = normaliser.result(file_source, number_text);
            let has_quote = inner.contains('"') || inner.contains('\'');
            &&& has_quote ==> r == text
            &&& !has_quote && text[0] == text.last() ==> r == seq![chosen] + inner + seq![chosen]
            &&& !has_quote && text[0] == chosen ==> r == text
            &&& !has_quote && text[0] != chosen ==> r == seq![chosen] + inner + seq![chosen]
        }),
{
    let text = normaliser.token.token.text_trimmed@;
    let inner = inner_text(*normaliser.token.token);
    lemma_occurrences_contains(inner, '"');
    lemma_occurrences_contains(inner, '\'');
    assert(seq![text[0]] + inner + seq![text.last()] =~= text);
}

/// An import attribute loses its quotes where they are not preserved and its content is an
/// identifier, in every file. Otherwise it stays a literal.
pub proof fn law_import_attribute_is_unquoted_where_it_is_a_name(
    normaliser: LiteralStringNormaliser,
    file_source: SourceFileKind,
    number_text: Option<&str>,
)
    requires
        normaliser.wf(),
        normaliser.token.parent_kind == StringLiteralParentKind::ImportAttribute,
    ensures
        ({
            let text = normaliser.token.token.text_trimmed@;
            let inner = inner_text(*normaliser.token.token);
            let preserved = normaliser.chosen_quote_properties == QuoteProperties::Preserve;
            let r = normaliser.result(file_source, number_text);
            &&& !preserved && js_ident(inner) ==> r == inner
            &&& preserved || !js_ident(inner) ==> r == formatted_literal(
                text,
                normaliser.chosen_quote_style,
            )
        }),
{
}

/// In a JavaScript file a member loses its quotes where they are not preserved and its content
/// starts with a digit and is what the number that it denotes prints as.
pub proof fn law_member_is_unquoted_where_it_is_a_number(
    normaliser: LiteralStringNormaliser,
    number_text: Option<&str>,
)
    requires
        normaliser.wf(),
        normaliser.token.parent_kind == StringLiteralParentKind::Member,
        normaliser.chosen_quote_properties == QuoteProperties::AsNeeded,
        inner_text(*normaliser.token.token).len() > 0,
        '0' <= inner_text(*normaliser.token.token)[0] <= '9',
        number_text is Some,
        number_text->Some_0@ == inner_text(*normaliser.token.token),
    ensures
        normaliser.result(SourceFileKind::JavaScript, number_text) == inner_text(
            *normaliser.token.token,
        ),
        number_can_stand(
            inner_text(*normaliser.token.token),
            SourceFileKind::JavaScript,
            number_view(number_text),
        ),
{
}

/// A member loses its quotes where they are not preserved and its content is an identifier, in
/// every file.
pub proof fn law_member_is_unquoted_where_it_is_a_name(
    normaliser: LiteralStringNormaliser,
    file_source: SourceFileKind,
    number_text: Option<&str>,
)
    requires
        normaliser.wf(),
        normaliser.token.parent_kind == StringLiteralParentKind::Member,
        normaliser.chosen_quote_properties == QuoteProperties::AsNeeded,
    ensures
        js_ident(inner_text(*normaliser.token.token)) ==> normaliser.result(
            file_source,
            number_text,
        ) == inner_text(*normaliser.token.token),
{
}

/// A member stays a literal where its quotes are preserved, and where its content is no identifier
/// and one of these holds: the file is a TypeScript file, the content does not start with a digit,
/// or the number that it denotes prints otherwise.
pub proof fn law_member_stays_a_literal(
    normaliser: LiteralStringNormaliser,
    file_source: SourceFileKind,
    number_text: Option<&str>,
)
    requires
        normaliser.wf(),
        normaliser.token.parent_kind == StringLiteralParentKind::Member,
    ensures
        ({
            let text = normaliser.token.token.text_trimmed@;
            let inner = inner_text(*normaliser.token.token);
            let preserved = normaliser.chosen_quote_properties == QuoteProperties::Preserve;
            let starts_with_digit = inner.len() > 0 && '0' <= inner[0] <= '9';
            let prints_alike = number_text is Some && number_text->Some_0@ == inner;
            let is_number = starts_with_digit && prints_alike && file_source
                != SourceFileKind::TypeScript;
            &&& preserved || !js_ident(inner) && !is_number ==> normaliser.result(
                file_source,
                number_text,
            ) == formatted_literal(text, normaliser.chosen_quote_style)
            &&& !is_number ==> !number_can_stand(inner, file_source, number_view(number_text))
        }),
{
}

/// The file and the number that the content denotes make no difference outside members, and the
/// number makes none in TypeScript files.
pub proof fn law_only_javascript_members_depend_on_the_number(
    normaliser: LiteralStringNormaliser,
    file_source: SourceFileKind,
    number_text: Option<&str>,
    other_file_source: SourceFileKind,
    other_number_text: Option<&str>,
)
    requires
        normaliser.wf(),
        normaliser.token.parent_kind != StringLiteralParentKind::Member || file_source
            == SourceFileKind::TypeScript && other_file_source == SourceFileKind::TypeScript,
    ensures
        normaliser.result(file_source, number_text) == normaliser.result(
            other_file_source,
            other_number_text,
        ),
{
}

/// With what is known of identifiers: where quotes are not preserved, import attributes and members
/// lose them around every name in ASCII, in every file. They stay around empty content and around
/// content that starts with a digit or has another ASCII character than a name can have, but for
/// the numbers in members of JavaScript files.
pub proof fn law_names_are_unquoted(
    normaliser: LiteralStringNormaliser,
    file_source: SourceFileKind,
    number_text: Option<&str>,
)
    requires
        normaliser.wf(),
        normaliser.chosen_quote_properties == QuoteProperties::AsNeeded,
        normaliser.token.parent_kind == StringLiteralParentKind::ImportAttribute
            || normaliser.token.parent_kind == StringLiteralParentKind::Member,
    ensures
        ({
            let text = normaliser.token.token.text_trimmed@;
            let inner = inner_text(*normaliser.token.token);
            let known = normaliser.asks_for_identifier(file_source, number_view(number_text))
                ==> is_ident_verdict(inner, js_ident(inner));
            let is_number = {
                &&& normaliser.token.parent_kind == StringLiteralParentKind::Member
                &&& file_source == SourceFileKind::JavaScript
                &&& inner.len() > 0 && '0' <= inner[0] <= '9'
                &&& number_text is Some && number_text->Some_0@ == inner
            };
            let has_stranger = exists|i: int|
                0 <= i < inner.len() && inner[i] < '\u{80}' && !is_name_char(#[trigger] inner[i]);
            let r = normaliser.result(file_source, number_text);
            &&& known && is_ascii_name(inner) ==> r == inner
            &&& known && !is_number && (inner.len() == 0 || '0' <= inner[0] <= '9' || has_stranger)
                ==> r == formatted_literal(text, normaliser.chosen_quote_style)
        }),
{
    let inner = inner_text(*normaliser.token.token);
    if is_ascii_name(inner) {
        assert(forall|i: int| 0 <= i < inner.len() ==> is_name_char(#[trigger] inner[i]));
        assert(is_ascii_chars(inner));
    }
}

/// Cleaning a literal under options normalises it, with the quote of the options for tokens of its
/// kind, with their quote properties, and in the kind of file that they name.
pub proof fn law_cleaning_normalises<'a>(
    literal: &'a FormatLiteralStringToken<'a>,
    options: JsFormatOptions,
    number_text: Option<&str>,
    normaliser: LiteralStringNormaliser<'a>,
    file_source: SourceFileKind,
)
    requires
        normaliser.token == literal,
        normaliser.chosen_quote_properties == options.quote_properties,
        literal.token.kind is JsStringLiteral ==> normaliser.chosen_quote_style
            == options.quote_style,
        literal.token.kind is JsxStringLiteral ==> normaliser.chosen_quote_style
            == options.jsx_quote_style,
        file_source is JavaScript <==> options.source_type.language is JavaScript,
    ensures
        literal.cleaned(options, number_text) == normaliser.result(file_source, number_text),
        source_file_kind(options.source_type.language) == file_source,
{
}

/// The literal of a JSX attribute depends on the quote for JSX alone, and any other literal on the
/// quote for the program alone.
pub proof fn law_tokens_have_one_quote_option<'a>(
    literal: &'a FormatLiteralStringToken<'a>,
    options: JsFormatOptions,
    other_options: JsFormatOptions,
    number_text: Option<&str>,
)
    requires
        options.quote_properties == other_options.quote_properties,
        options.source_type == other_options.source_type,
        literal.token.kind is JsxStringLiteral ==> options.jsx_quote_style
            == other_options.jsx_quote_style,
        literal.token.kind is JsStringLiteral ==> options.quote_style
            == other_options.quote_style,
    ensures
        literal.cleaned(options, number_text) == literal.cleaned(other_options, number_text),
{
}

/// A literal without quotes in its content that stays quoted starts with the quote that the options
/// have for its kind of token.
pub proof fn law_cleaned_text_starts_with_the_configured_quote<'a>(
    literal: &'a FormatLiteralStringToken<'a>,
    options: JsFormatOptions,
    number_text: Option<&str>,
)
    requires
        literal.token.wf(),
        !inner_text(*literal.token).contains('"'),
        !inner_text(*literal.token).contains('\''),
        literal.parent_kind == StringLiteralParentKind::Expression || literal.parent_kind
            == StringLiteralParentKind::Directive || options.quote_properties
            == QuoteProperties::Preserve,
    ensures
        ({
            let text = literal.token.text_trimmed@;
            let r = literal.cleaned(options, number_text);
            &&& r.len() >= 2
            &&& literal.token.kind is JsxStringLiteral ==> r[0]
                == options.jsx_quote_style.quote_char()
            &&& literal.token.kind is JsStringLiteral ==> r[0] == options.quote_style.quote_char()
            &&& text[0] == text.last() ==> r.last() == r[0]
        }),
{
    let text = literal.token.text_trimmed@;
    let inner = inner_text(*literal.token);
    law_formatted_literal_is_requoted(text, options.quote_style);
    law_formatted_literal_is_requoted(text, options.jsx_quote_style);
    law_occurrences_are_a_count(inner, '"');
    law_occurrences_are_a_count(inner, '\'');
    lemma_occurrences_contains(inner, '"');
    lemma_occurrences_contains(inner, '\'');
}

/// In an expression the cleaned text is the formatted literal, and in a directive it is the
/// directive with its own quotes or with those of the options; in every file.
pub proof fn law_cleaned_expressions_and_directives<'a>(
    literal: &'a FormatLiteralStringToken<'a>,
    options: JsFormatOptions,
    number_text: Option<&str>,
    chosen: QuoteStyle,
)
    requires
        literal.token.wf(),
        literal.token.kind is JsxStringLiteral ==> chosen == options.jsx_quote_style,
        literal.token.kind is JsStringLiteral ==> chosen == options.quote_style,
    ensures
        ({
            let text = literal.token.text_trimmed@;
            let inner = inner_text(*literal.token);
            let quote = chosen.quote_char();
            let has_quote = inner.contains('"') || inner.contains('\'');
            let r = literal.cleaned(options, number_text);
            &&& literal.parent_kind == StringLiteralParentKind::Expression ==> r
                == formatted_literal(text, chosen)
            &&& literal.parent_kind == StringLiteralParentKind::Directive ==> {
                &&& has_quote ==> r == text
                &&& !has_quote && text[0] == text.last() ==> r == seq![quote] + inner + seq![quote]
                &&& !has_quote && text[0] == quote ==> r == text
                &&& !has_quote && text[0] != quote ==> r == seq![quote] + inner + seq![quote]
            }
        }),
{
    let normaliser = literal.normaliser(options);
    if literal.parent_kind == StringLiteralParentKind::Directive {
        law_directive_gets_the_chosen_quote(
            normaliser,
            source_file_kind(options.source_type.language),
            number_text,
        );
    }
}

/// Where the options do not preserve quotes, a number in a member of a JavaScript file and an
/// identifier in a member or an import attribute of any file is cleaned to its content.
pub proof fn law_cleaned_names_and_numbers<'a>(
    literal: &'a FormatLiteralStringToken<'a>,
    options: JsFormatOptions,
    number_text: Option<&str>,
)
    requires
        literal.token.wf(),
        options.quote_properties == QuoteProperties::AsNeeded,
    ensures
        ({
            let inner = inner_text(*literal.token);
            let is_member = literal.parent_kind == StringLiteralParentKind::Member;
            let is_attribute = literal.parent_kind == StringLiteralParentKind::ImportAttribute;
            let prints_alike = number_text is Some && number_text->Some_0@ == inner;
            let starts_with_digit = inner.len() > 0 && '0' <= inner[0] <= '9';
            let r = literal.cleaned(options, number_text);
            &&& (is_member || is_attribute) && js_ident(inner) ==> r == inner
            &&& is_member && options.source_type.language == Language::JavaScript
                && starts_with_digit && prints_alike ==> r == inner
        }),
{
}

/// The width of a cleaned text is that of the text, and a borrowed text is the token's own.
pub proof fn law_cleaned_width(cleaned: CleanedStringLiteralText)
    requires
        cleaned.wf(),
    ensures
        cleaned.width == display_width(cleaned.text@),
        cleaned.text is Borrowed ==> cleaned.text@ == cleaned.token.text_trimmed@,
{
}

} // verus!
