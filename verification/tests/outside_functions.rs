use js_string_utils::literal::FormatLiteralStringToken;
use js_string_utils::options::JsFileSource;
use js_string_utils::options::JsFormatOptions;
use js_string_utils::options::Language;
use js_string_utils::options::QuoteProperties;
use js_string_utils::quote::QuoteStyle;
use js_string_utils::token::JsSyntaxKind;
use js_string_utils::token::JsSyntaxToken;
use js_string_utils::token::StringLiteralParentKind;

/// All texts over the alphabet that have at most the given length.
fn texts(alphabet: &[char], length: usize) -> Vec<String> {
    let mut all = vec![String::new()];
    let mut start = 0;
    for _ in 0..length {
        let end = all.len();
        for i in start..end {
            for c in alphabet {
                let mut text = all[i].clone();
                text.push(*c);
                all.push(text);
            }
        }
        start = end;
    }
    all
}

fn options() -> JsFormatOptions {
    JsFormatOptions {
        quote_style: QuoteStyle::Double,
        jsx_quote_style: QuoteStyle::Double,
        quote_properties: QuoteProperties::AsNeeded,
        source_type: JsFileSource { language: Language::JavaScript },
    }
}

#[test]
fn ascii_identifiers() {
    let ascii: Vec<char> = (0..128u8).map(char::from).collect();
    for inner in texts(&ascii, 2) {
        let text = format!("\"{}\"", inner);
        let token = JsSyntaxToken::new(JsSyntaxKind::JsStringLiteral, text).unwrap();
        let literal =
            FormatLiteralStringToken::new(&token, StringLiteralParentKind::ImportAttribute);
        let is_part = |c: char| c.is_ascii_alphanumeric() || c == '_' || c == '$';
        let is_identifier = !inner.is_empty()
            && inner.chars().all(is_part)
            && !inner.starts_with(|c: char| c.is_ascii_digit());
        let cleaned = literal.clean_text(&options(), None);
        assert_eq!(cleaned.text == inner, is_identifier);
    }
}

#[test]
fn ascii_widths() {
    let ascii: Vec<char> = (0..128u8).map(char::from).filter(|c| *c != '\n').collect();
    for inner in texts(&ascii, 2) {
        let text = format!("\"{}\"", inner);
        let token = JsSyntaxToken::new(JsSyntaxKind::JsStringLiteral, text).unwrap();
        let literal = FormatLiteralStringToken::new(&token, StringLiteralParentKind::Directive);
        let cleaned = literal.clean_text(&options(), None);
        assert_eq!(cleaned.width(), cleaned.text.chars().count());
    }
}
