use std::borrow::Cow;

use js_string_utils::literal::FormatLiteralStringToken;
use js_string_utils::normaliser::LiteralStringNormaliser;
use js_string_utils::options::QuoteProperties;
use js_string_utils::options::SourceFileKind;
use js_string_utils::quote::QuoteStyle;
use js_string_utils::token::JsSyntaxKind;
use js_string_utils::token::JsSyntaxToken;
use js_string_utils::token::StringLiteralParentKind;

fn generate_syntax_token(input: &str) -> JsSyntaxToken {
    JsSyntaxToken::new(JsSyntaxKind::JsStringLiteral, input.to_string()).unwrap()
}

fn number_text(input: &str) -> Option<String> {
    let parsed = input[1..input.len() - 1].parse::<f64>().ok()?;
    Some(parsed.to_string())
}

enum AsToken {
    Directive,
    String,
    Member,
}

impl AsToken {
    fn into_token(self, token: &JsSyntaxToken) -> FormatLiteralStringToken<'_> {
        match self {
            Self::Directive => {
                FormatLiteralStringToken::new(token, StringLiteralParentKind::Directive)
            }
            Self::String => {
                FormatLiteralStringToken::new(token, StringLiteralParentKind::Expression)
            }
            Self::Member => FormatLiteralStringToken::new(token, StringLiteralParentKind::Member),
        }
    }
}

fn assert_borrowed_token(
    input: &str,
    quote: QuoteStyle,
    quote_properties: QuoteProperties,
    as_token: AsToken,
    source: SourceFileKind,
) {
    let token = generate_syntax_token(input);
    let string_token = as_token.into_token(&token);
    let string_cleaner = LiteralStringNormaliser::new(&string_token, quote, quote_properties);
    let content = string_cleaner.normalise_text(source, number_text(input).as_deref());
    assert!(matches!(content, Cow::Borrowed(_)));
    assert_eq!(content, Cow::Borrowed(input))
}

fn assert_owned_token(
    input: &str,
    output: &str,
    quote: QuoteStyle,
    quote_properties: QuoteProperties,
    as_token: AsToken,
    source: SourceFileKind,
) {
    let token = generate_syntax_token(input);
    let string_token = as_token.into_token(&token);
    let string_cleaner = LiteralStringNormaliser::new(&string_token, quote, quote_properties);
    let content = string_cleaner.normalise_text(source, number_text(input).as_deref());
    let owned: Cow<str> = Cow::Owned(output.to_string());
    assert_eq!(content, owned)
}

#[test]
fn string_borrowed() {
    let quote = QuoteStyle::Double;
    let quote_properties = QuoteProperties::AsNeeded;
    let inputs = [r#""content""#, r#""content with single ' quote ""#];
    for input in inputs {
        assert_borrowed_token(
            input,
            quote,
            quote_properties,
            AsToken::String,
            SourceFileKind::JavaScript,
        )
    }
}

#[test]
fn string_owned() {
    let quote = QuoteStyle::Double;
    let quote_properties = QuoteProperties::AsNeeded;
    let inputs = [
        (r#"" content \"\"\"\" '' ""#, r#"' content """" \'\' '"#),
        (r#"" content ''''' \" ""#, r#"" content ''''' \" ""#),
        (r#""\"''""#, r#""\"''""#),
    ];
    for (input, output) in inputs {
        assert_owned_token(
            input,
            output,
            quote,
            quote_properties,
            AsToken::String,
            SourceFileKind::JavaScript,
        )
    }
}

#[test]
fn directive_borrowed() {
    let quote = QuoteStyle::Double;
    let quote_properties = QuoteProperties::AsNeeded;
    let inputs = [r#""use strict '""#];
    for input in inputs {
        assert_borrowed_token(
            input,
            quote,
            quote_properties,
            AsToken::Directive,
            SourceFileKind::JavaScript,
        )
    }
}

#[test]
fn directive_owned() {
    let quote = QuoteStyle::Double;
    let quote_properties = QuoteProperties::AsNeeded;
    let inputs = [(r#"' use strict '"#, r#"" use strict ""#)];
    for (input, output) in inputs {
        assert_owned_token(
            input,
            output,
            quote,
            quote_properties,
            AsToken::Directive,
            SourceFileKind::JavaScript,
        )
    }
}

#[test]
fn member_borrowed() {
    let quote = QuoteStyle::Double;
    let quote_properties = QuoteProperties::AsNeeded;
    let inputs = [r#""cant @ be moved""#, r#""1674""#, r#""33n""#];
    for input in inputs {
        assert_borrowed_token(
            input,
            quote,
            quote_properties,
            AsToken::Member,
            SourceFileKind::TypeScript,
        )
    }
}

#[test]
fn member_owned() {
    let quote = QuoteStyle::Double;
    let quote_properties = QuoteProperties::AsNeeded;
    let inputs = [(r#""string""#, r#"string"#)];
    for (input, output) in inputs {
        assert_owned_token(
            input,
            output,
            quote,
            quote_properties,
            AsToken::Member,
            SourceFileKind::TypeScript,
        )
    }
}
