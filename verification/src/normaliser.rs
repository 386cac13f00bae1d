//! The text that a string literal gets in the formatted source.

use std::borrow::Cow;

use vstd::prelude::*;

use crate::escape::normalize_string;
use crate::escape::replaced;
use crate::escape::replacement;
use crate::escape::requoted;
use crate::information::string_information;
use crate::information::StringInformation;
use crate::literal::FormatLiteralStringToken;
use crate::options::QuoteProperties;
use crate::options::SourceFileKind;
use crate::quote::content;
use crate::quote::enclose;
use crate::quote::enclosed;
use crate::quote::is_quoted;
use crate::quote::QuoteStyle;
use crate::text::between_ends;
use crate::text::is_ascii_digit_char;
use crate::text::lemma_encode_scalar;
use crate::text::same_text;
use crate::text::starts_with_digit;
use crate::token::JsSyntaxToken;
use crate::token::StringLiteralParentKind;
use crate::unicode::is_ident_verdict;
use crate::unicode::is_js_ident;
use crate::unicode::js_ident;

verus! {

/// What becomes of the literal `text` when `inner` is its content and `preferred` its quote: it
/// stands where it starts with that quote already.
pub open spec fn swapped(text: Seq<char>, inner: Seq<char>, preferred: QuoteStyle) -> Option<
    Seq<char>,
> {
    if text[0] == preferred.quote_char() {
        None
    } else {
        Some(enclosed(inner, preferred))
    }
}

/// What becomes of the directive `text`. With quotes in its content it stands.
pub open spec fn directive(text: Seq<char>, info: StringInformation) -> Option<Seq<char>> {
    if info.raw_content_has_quotes {
        None
    } else {
        swapped(text, content(text), info.preferred_quote)
    }
}

/// What the content of `text` becomes between preferred quotes.
pub open spec fn requoted_content(text: Seq<char>, info: StringInformation) -> Seq<char> {
    requoted(
        content(text),
        info.preferred_quote,
        info.current_quote != info.preferred_quote,
    )
}

/// What becomes of the literal `text` that stays a literal.
pub open spec fn string_literal(text: Seq<char>, info: StringInformation) -> Option<Seq<char>> {
    if requoted_content(text, info) == content(text) {
        swapped(text, content(text), info.preferred_quote)
    } else {
        Some(enclosed(requoted_content(text, info), info.preferred_quote))
    }
}

/// A quoted member name `inner` can stand as a number: it starts with a digit and reads, as a
/// number, exactly as it is written. `number` is the text of the number that it denotes, if it
/// denotes one. In TypeScript, number-like members have a different meaning from numbers.
pub open spec fn number_can_stand(
    inner: Seq<char>,
    file_source: SourceFileKind,
    number: Option<Seq<char>>,
) -> bool {
    &&& inner.len() > 0
    &&& is_ascii_digit_char(inner[0])
    &&& file_source == SourceFileKind::JavaScript
    &&& number == Some(inner)
}

/// The quotes around `inner` go.
pub open spec fn quotes_dropped(
    inner: Seq<char>,
    parent_kind: StringLiteralParentKind,
    quote_properties: QuoteProperties,
    file_source: SourceFileKind,
    number: Option<Seq<char>>,
    is_identifier: bool,
) -> bool {
    &&& quote_properties == QuoteProperties::AsNeeded
    &&& match parent_kind {
        StringLiteralParentKind::ImportAttribute => is_identifier,
        StringLiteralParentKind::Member => number_can_stand(inner, file_source, number)
            || is_identifier,
        _ => false,
    }
}

/// What becomes of the literal `text`: `None` where it stands.
pub open spec fn normalised(
    text: Seq<char>,
    parent_kind: StringLiteralParentKind,
    info: StringInformation,
    dropped: bool,
) -> Option<Seq<char>> {
    if parent_kind == StringLiteralParentKind::Directive {
        directive(text, info)
    } else if dropped {
        Some(content(text))
    } else {
        string_literal(text, info)
    }
}

/// The text of a number as a sequence of characters.
pub open spec fn number_view(number_text: Option<&str>) -> Option<Seq<char>> {
    match number_text {
        Some(s) => Some(s@),
        None => None,
    }
}

/// Struct of convenience used to manipulate the string. It saves some state in order to apply
/// the normalise process.
pub struct LiteralStringNormaliser<'token> {
    /// The current token
    pub token: &'token FormatLiteralStringToken<'token>,
    /// The quote that was set inside the configuration
    pub chosen_quote_style: QuoteStyle,
    /// When properties in objects are quoted that was set inside the configuration
    pub chosen_quote_properties: QuoteProperties,
}

impl<'token> LiteralStringNormaliser<'token> {
    /// The token's text starts and ends with a quote.
    pub open spec fn wf(self) -> bool {
        self.token.token.wf()
    }

    /// The text of the token.
    pub open spec fn text(self) -> Seq<char> {
        self.token.token.text()
    }

    /// What there is to know about the token's quotes.
    pub open spec fn information(self) -> StringInformation {
        string_information(self.text(), self.chosen_quote_style)
    }

    /// The quotes of the literal go.
    pub open spec fn drops_quotes(
        self,
        file_source: SourceFileKind,
        number: Option<Seq<char>>,
    ) -> bool {
        quotes_dropped(
            content(self.text()),
            self.token.parent_kind,
            self.chosen_quote_properties,
            file_source,
            number,
            js_ident(content(self.text())),
        )
    }

    /// Whether the quotes go depends on whether the content is an identifier.
    pub open spec fn asks_for_identifier(
        self,
        file_source: SourceFileKind,
        number: Option<Seq<char>>,
    ) -> bool {
        &&& self.chosen_quote_properties == QuoteProperties::AsNeeded
        &&& match self.token.parent_kind {
            StringLiteralParentKind::ImportAttribute => true,
            StringLiteralParentKind::Member => !number_can_stand(
                content(self.text()),
                file_source,
                number,
            ),
            _ => false,
        }
    }

    /// What becomes of the literal: `None` where it stands.
    pub open spec fn outcome(
        self,
        file_source: SourceFileKind,
        number: Option<Seq<char>>,
    ) -> Option<Seq<char>> {
        normalised(
            self.text(),
            self.token.parent_kind,
            self.information(),
            self.drops_quotes(file_source, number),
        )
    }

    /// The text that the literal gets.
    pub open spec fn result(self, file_source: SourceFileKind, number_text: Option<&str>) -> Seq<
        char,
    > {
        replaced(self.text(), self.outcome(file_source, number_view(number_text)))
    }

    pub fn new(
        token: &'token FormatLiteralStringToken<'token>,
        chosen_quote_style: QuoteStyle,
        chosen_quote_properties: QuoteProperties,
    ) -> (r: Self)
        ensures
            r.token == token,
            r.chosen_quote_style == chosen_quote_style,
            r.chosen_quote_properties == chosen_quote_properties,
    {
        Self { token, chosen_quote_style, chosen_quote_properties }
    }

    fn get_token(&self) -> (r: &'token JsSyntaxToken)
        ensures
            r == self.token.token,
    {
        self.token.token()
    }

    /// Returns the string without its quotes.
    pub fn raw_content(&self) -> (r: &'token str)
        requires
            self.wf(),
        ensures
            r@ == content(self.text()),
    {
        between_ends(self.get_token().text_trimmed.as_str())
    }

    pub fn is_preserve_quote_properties(&self) -> (r: bool)
        ensures
            r == (self.chosen_quote_properties == QuoteProperties::Preserve),
    {
        self.chosen_quote_properties == QuoteProperties::Preserve
    }

    /// The token's text where it starts with the preferred quote, and else `content_to_use`
    /// between preferred quotes.
    pub fn swap_quotes(&self, content_to_use: &str, str_info: &StringInformation) -> (r: Cow<
        'token,
        str,
    >)
        requires
            self.wf(),
        ensures
            replacement(r) == swapped(self.text(), content_to_use@, str_info.preferred_quote),
            r is Borrowed ==> r@ == self.text(),
    {
        let preferred_quote = str_info.preferred_quote;
        let original: &'token str = self.get_token().text_trimmed.as_str();
        proof {
            lemma_encode_scalar(original@[0]);
        }
        if original.as_bytes()[0] == preferred_quote.as_byte() {
            Cow::Borrowed(original)
        } else {
            Cow::Owned(enclose(content_to_use, preferred_quote))
        }
    }

    /// Prepares the content for the preferred quote and encloses it with that quote.
    pub fn normalise_string_literal(&self, string_information: StringInformation) -> (r: Cow<
        'token,
        str,
    >)
        requires
            self.wf(),
        ensures
            replacement(r) == string_literal(self.text(), string_information),
            r is Borrowed ==> r@ == self.text(),
    {
        let preferred_quote = string_information.preferred_quote;
        let polished_raw_content = normalize_string(
            self.raw_content(),
            preferred_quote,
            string_information.current_quote != preferred_quote,
        );

        match polished_raw_content {
            Cow::Borrowed(raw_content) => self.swap_quotes(raw_content, &string_information),
            Cow::Owned(s) => {
                // content is owned, meaning we allocated a new string,
                // so we force replacing quotes, regardless
                Cow::Owned(enclose(s.as_str(), preferred_quote))
            },
        }
    }

    pub fn normalise_directive(&self, string_information: &StringInformation) -> (r: Cow<
        'token,
        str,
    >)
        requires
            self.wf(),
        ensures
            replacement(r) == directive(self.text(), *string_information),
            r is Borrowed ==> r@ == self.text(),
    {
        // In directives, unnecessary escapes should be preserved.
        // See https://github.com/prettier/prettier/issues/1555
        // Thus we don't normalise the string.
        //
        // Since the string is not normalised, we should not change the quotes,
        // if the directive contains some quotes.
        //
        // Note that we could change the quotes if the preferred quote is escaped.
        // However, Prettier doesn't go that far.
        if string_information.raw_content_has_quotes {
            Cow::Borrowed(self.get_token().text_trimmed.as_str())
        } else {
            self.swap_quotes(self.raw_content(), string_information)
        }
    }

    /// Whether the content, quoted as a member name, can stand as a number. `number_text` is
    /// what double-precision arithmetic prints for the number that the content denotes; `None`
    /// where the content denotes no number.
    pub fn can_remove_number_quotes_by_file_type(
        &self,
        file_source: SourceFileKind,
        number_text: Option<&str>,
    ) -> (r: bool)
        requires
            self.wf(),
        ensures
            r == number_can_stand(content(self.text()), file_source, number_view(number_text)),
    {
        let text_to_check = self.raw_content();

        if starts_with_digit(text_to_check) {
            if let Some(printed) = number_text {
                // In TypeScript, numbers like members have different meaning from numbers.
                // Hence, if we see a number, we bail straightaway
                if file_source == SourceFileKind::TypeScript {
                    return false;
                }
                // Rule out inexact floats and octal literals
                return same_text(printed, text_to_check);
            }
            return false;
        }
        false
    }

    /// The content without its quotes where they can go, and the quoted literal otherwise.
    pub fn unquote_or_normalise(
        &self,
        can_remove_quotes: bool,
        string_information: StringInformation,
    ) -> (r: Cow<'token, str>)
        requires
            self.wf(),
        ensures
            can_remove_quotes ==> replacement(r) == Some(content(self.text())),
            !can_remove_quotes ==> replacement(r) == string_literal(self.text(), string_information),
            r is Borrowed ==> r@ == self.text(),
    {
        if can_remove_quotes {
            Cow::Owned(self.raw_content().to_owned())
        } else {
            self.normalise_string_literal(string_information)
        }
    }

    pub fn normalise_import_attribute(&self, string_information: StringInformation) -> (r: Cow<
        'token,
        str,
    >)
        requires
            self.wf(),
        ensures
            replacement(r) == (if self.chosen_quote_properties == QuoteProperties::AsNeeded
                && js_ident(content(self.text())) {
                Some(content(self.text()))
            } else {
                string_literal(self.text(), string_information)
            }),
            r is Borrowed ==> r@ == self.text(),
            self.chosen_quote_properties == QuoteProperties::AsNeeded ==> is_ident_verdict(
                content(self.text()),
                js_ident(content(self.text())),
            ),
    {
        let quoteless = self.raw_content();
        let can_remove_quotes = !self.is_preserve_quote_properties() && is_js_ident(quoteless);
        self.unquote_or_normalise(can_remove_quotes, string_information)
    }

    /// `number_text` is what double-precision arithmetic prints for the number that the content
    /// denotes; `None` where the content denotes no number.
    pub fn normalise_type_member(
        &self,
        string_information: StringInformation,
        file_source: SourceFileKind,
        number_text: Option<&str>,
    ) -> (r: Cow<'token, str>)
        requires
            self.wf(),
        ensures
            replacement(r) == (if self.chosen_quote_properties == QuoteProperties::AsNeeded && (
            number_can_stand(content(self.text()), file_source, number_view(number_text))
                || js_ident(content(self.text()))) {
                Some(content(self.text()))
            } else {
                string_literal(self.text(), string_information)
            }),
            r is Borrowed ==> r@ == self.text(),
            self.chosen_quote_properties == QuoteProperties::AsNeeded && !number_can_stand(
                content(self.text()),
                file_source,
                number_view(number_text),
            ) ==> is_ident_verdict(content(self.text()), js_ident(content(self.text()))),
    {
        let quoteless = self.raw_content();
        let can_remove_quotes = !self.is_preserve_quote_properties() && (
        self.can_remove_number_quotes_by_file_type(file_source, number_text) || is_js_ident(
            quoteless,
        ));
        self.unquote_or_normalise(can_remove_quotes, string_information)
    }

    /// The text that the literal gets; borrowed exactly where it is the token's own.
    /// `number_text` is what double-precision arithmetic prints for the number that the content
    /// denotes; `None` where the content denotes no number. Only members depend on it.
    pub fn normalise_text(&self, file_source: SourceFileKind, number_text: Option<&str>) -> (r: Cow<
        'token,
        str,
    >)
        requires
            self.wf(),
        ensures
            r@ == self.result(file_source, number_text),
            replacement(r) == self.outcome(file_source, number_view(number_text)),
            r is Borrowed <==> r@ == self.text(),
            self.asks_for_identifier(file_source, number_view(number_text)) ==> is_ident_verdict(
                content(self.text()),
                js_ident(content(self.text())),
            ),
    {
        let str_info = self.token.compute_string_information(self.chosen_quote_style);
        let r = match self.token.parent_kind {
            StringLiteralParentKind::Expression => self.normalise_string_literal(str_info),
            StringLiteralParentKind::Directive => self.normalise_directive(&str_info),
            StringLiteralParentKind::ImportAttribute => self.normalise_import_attribute(str_info),
            StringLiteralParentKind::Member => {
                self.normalise_type_member(str_info, file_source, number_text)
            },
        };
        proof {
            lemma_replacement_differs(
                self.text(),
                self.token.parent_kind,
                str_info,
                self.drops_quotes(file_source, number_view(number_text)),
            );
        }
        r
    }
}

/// Text that replaces a literal differs from it.
pub(crate) proof fn lemma_replacement_differs(
    text: Seq<char>,
    parent_kind: StringLiteralParentKind,
    info: StringInformation,
    dropped: bool,
)
    requires
        is_quoted(text),
    ensures
        normalised(text, parent_kind, info, dropped) != Some(text),
{
    let quote = info.preferred_quote;
    assert(enclosed(content(text), quote)[0] == quote.quote_char());
    assert(content(enclosed(requoted_content(text, info), quote)) =~= requoted_content(
        text,
        info,
    ));
}

} // verus!
