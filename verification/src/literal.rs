//! Formatting of the token of a string literal.

use std::borrow::Cow;

use vstd::prelude::*;
use vstd::utf8::is_ascii_chars;

use crate::escape::replacement;
use crate::information::count_bytes;
use crate::information::string_information;
use crate::information::StringInformation;
use crate::normaliser::number_view;
use crate::normaliser::LiteralStringNormaliser;
use crate::options::source_file_kind;
use crate::options::JsFormatOptions;
use crate::options::SourceFileKind;
use crate::quote::content;
use crate::quote::QuoteStyle;
use crate::text::between_ends;
use crate::text::lemma_encode_scalar;
use crate::text::lemma_occurrences_contains;
use crate::text::lemma_occurrences_encoded;
use crate::token::JsSyntaxKind;
use crate::token::JsSyntaxToken;
use crate::token::StringLiteralParentKind;
use crate::unicode::display_width;
use crate::unicode::is_ident_verdict;
use crate::unicode::js_ident;
use crate::unicode::text_width;

verus! {

/// Data structure of convenience to format string literals
pub struct FormatLiteralStringToken<'token> {
    /// The current token
    pub token: &'token JsSyntaxToken,
    /// The parent that holds the token
    pub parent_kind: StringLiteralParentKind,
}

/// A literal's text once it is normalised, with its width.
pub struct CleanedStringLiteralText<'a> {
    /// The token that the text replaces.
    pub token: &'a JsSyntaxToken,
    /// The text; borrowed where it is the token's own.
    pub text: Cow<'a, str>,
    /// How many columns the text takes.
    pub width: usize,
}

/// The quote that the options choose for a token of the given kind.
pub open spec fn chosen_quote_style(kind: JsSyntaxKind, options: JsFormatOptions) -> QuoteStyle {
    match kind {
        JsSyntaxKind::JsxStringLiteral => options.jsx_quote_style,
        JsSyntaxKind::JsStringLiteral => options.quote_style,
    }
}

impl<'a> CleanedStringLiteralText<'a> {
    /// The width is that of the text, and borrowed text is the token's own.
    pub open spec fn wf(self) -> bool {
        &&& self.width == display_width(self.text@)
        &&& self.text is Borrowed ==> self.text@ == self.token.text()
    }

    /// How many columns the text takes.
    pub fn width(&self) -> (r: usize)
        ensures
            r == self.width,
    {
        self.width
    }
}

impl<'token> FormatLiteralStringToken<'token> {
    pub fn new(token: &'token JsSyntaxToken, parent_kind: StringLiteralParentKind) -> (r: Self)
        ensures
            r.token == token,
            r.parent_kind == parent_kind,
    {
        Self { token, parent_kind }
    }

    pub fn token(&self) -> (r: &'token JsSyntaxToken)
        ensures
            r == self.token,
    {
        self.token
    }

    /// The text that the literal gets under the options, with its width. `number_text` is what
    /// double-precision arithmetic prints for the number that the content denotes; `None` where
    /// the content denotes no number. Only members depend on it.
    pub fn clean_text(
        &'token self,
        options: &JsFormatOptions,
        number_text: Option<&str>,
    ) -> (r: CleanedStringLiteralText<'token>)
        requires
            self.token.wf(),
        ensures
            r.wf(),
            r.token == self.token,
            r.text@ == self.cleaned(*options, number_text),
            replacement(r.text) == self.normaliser(*options).outcome(
                source_file_kind(options.source_type.language),
                number_view(number_text),
            ),
            r.text is Borrowed <==> r.text@ == self.token.text(),
            is_ascii_chars(r.text@) && !r.text@.contains('\n') ==> r.width == r.text@.len(),
            self.normaliser(*options).asks_for_identifier(
                source_file_kind(options.source_type.language),
                number_view(number_text),
            ) ==> is_ident_verdict(content(self.token.text()), js_ident(content(self.token.text()))),
    {
        let token = self.token();
        let chosen_quote_style = match token.kind {
            JsSyntaxKind::JsxStringLiteral => options.jsx_quote_style,
            JsSyntaxKind::JsStringLiteral => options.quote_style,
        };
        let chosen_quote_properties = options.quote_properties;

        let string_cleaner = LiteralStringNormaliser::new(
            self,
            chosen_quote_style,
            chosen_quote_properties,
        );

        let content = string_cleaner.normalise_text(
            SourceFileKind::from(options.source_type),
            number_text,
        );
        let normalized_text_width: usize = match &content {
            Cow::Borrowed(s) => text_width(s),
            Cow::Owned(s) => text_width(s.as_str()),
        };

        CleanedStringLiteralText { token, text: content, width: normalized_text_width }
    }

    /// The normaliser that the options give the literal.
    pub open spec fn normaliser(&'token self, options: JsFormatOptions) -> LiteralStringNormaliser<
        'token,
    > {
        LiteralStringNormaliser {
            token: self,
            chosen_quote_style: chosen_quote_style(self.token.kind, options),
            chosen_quote_properties: options.quote_properties,
        }
    }

    /// The text that the literal gets under the options.
    pub open spec fn cleaned(
        &'token self,
        options: JsFormatOptions,
        number_text: Option<&str>,
    ) -> Seq<char> {
        self.normaliser(options).result(
            source_file_kind(options.source_type.language),
            number_text,
        )
    }

    /// This function determines which quotes should be used inside to enclose the string.
    ///
    /// # How it works
    ///
    /// The function determines the preferred quote and alternate quote.
    /// The preferred quote is the one that comes from the formatter options. The alternate quote
    /// is the other one.
    ///
    /// We check how many preferred quotes we have inside the content. If this number is greater
    /// than the number of alternate quotes that we have inside the content,
    /// then we swap them, so we can reduce the number of escaped quotes.
    ///
    /// For example, let's suppose that the preferred quote is double, and we have a string like
    /// this:
    /// ```js
    /// (" content \"\"\" don't ")
    /// ```
    /// Excluding the quotes at the start and at the end, we have three double quotes and one
    /// single quote. If we decided to keep them like this, we would have three escaped quotes.
    ///
    /// But then, we choose the single quote as preferred quote and we would have only one quote
    /// that is escaped, resulting into a string like this:
    /// ```js
    /// (' content """ don\'t ')
    /// ```
    pub fn compute_string_information(&self, chosen_quote: QuoteStyle) -> (r: StringInformation)
        requires
            self.token.wf(),
        ensures
            r == string_information(self.token.text(), chosen_quote),
    {
        let literal = self.token().text_trimmed.as_str();
        let alternate_quote = chosen_quote.other();
        let chosen_quote_byte: u8 = chosen_quote.as_byte();
        let alternate_quote_byte: u8 = alternate_quote.as_byte();

        let quoteless = between_ends(literal);
        let (chosen_quote_count, alternate_quote_count) = count_bytes(
            quoteless.as_bytes(),
            chosen_quote_byte,
            alternate_quote_byte,
        );
        proof {
            let inner = content(literal@);
            lemma_occurrences_encoded(inner, chosen_quote.quote_char());
            lemma_occurrences_encoded(inner, alternate_quote.quote_char());
            lemma_occurrences_contains(inner, '"');
            lemma_occurrences_contains(inner, '\'');
            lemma_encode_scalar(literal@[0]);
        }

        let current_quote = match QuoteStyle::from_byte(literal.as_bytes()[0]) {
            Some(quote) => quote,
            None => QuoteStyle::default(),
        };

        StringInformation {
            current_quote,
            preferred_quote: if chosen_quote_count > alternate_quote_count {
                alternate_quote
            } else {
                chosen_quote
            },
            raw_content_has_quotes: chosen_quote_count > 0 || alternate_quote_count > 0,
        }
    }
}

} // verus!
