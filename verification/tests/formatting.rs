use std::borrow::Cow;

use js_string_utils::information::StringInformation;
use js_string_utils::literal::FormatLiteralStringToken;
use js_string_utils::normaliser::LiteralStringNormaliser;
use js_string_utils::options::JsFileSource;
use js_string_utils::options::JsFormatOptions;
use js_string_utils::options::Language;
use js_string_utils::options::QuoteProperties;
use js_string_utils::options::SourceFileKind;
use js_string_utils::quote::enclose;
use js_string_utils::quote::QuoteStyle;
use js_string_utils::text::between_ends;
use js_string_utils::text::same_text;
use js_string_utils::text::starts_with_digit;
use js_string_utils::token::JsSyntaxKind;
use js_string_utils::token::JsSyntaxToken;
use js_string_utils::token::StringLiteralParentKind;

fn token(text: &str) -> JsSyntaxToken {
    JsSyntaxToken::new(JsSyntaxKind::JsStringLiteral, text.to_string()).unwrap()
}

fn options(quote_style: QuoteStyle, language: Language) -> JsFormatOptions {
    JsFormatOptions {
        quote_style,
        jsx_quote_style: QuoteStyle::Single,
        quote_properties: QuoteProperties::AsNeeded,
        source_type: JsFileSource { language },
    }
}

fn number_text(text: &str) -> Option<String> {
    let parsed = text[1..text.len() - 1].parse::<f64>().ok()?;
    Some(parsed.to_string())
}

/// The text that a literal gets, and whether it is the token's own.
fn format(
    text: &str,
    parent_kind: StringLiteralParentKind,
    options: &JsFormatOptions,
) -> (String, bool) {
    let token = token(text);
    let literal = FormatLiteralStringToken::new(&token, parent_kind);
    let cleaned = literal.clean_text(options, number_text(text).as_deref());
    let borrowed = matches!(cleaned.text, Cow::Borrowed(_));
    (cleaned.text.to_string(), borrowed)
}

fn expression(text: &str, quote_style: QuoteStyle) -> (String, bool) {
    let options = options(quote_style, Language::JavaScript);
    format(text, StringLiteralParentKind::Expression, &options)
}

fn directive(text: &str, quote_style: QuoteStyle) -> (String, bool) {
    let options = options(quote_style, Language::JavaScript);
    format(text, StringLiteralParentKind::Directive, &options)
}

fn member(text: &str, language: Language) -> (String, bool) {
    let options = options(QuoteStyle::Double, language);
    format(text, StringLiteralParentKind::Member, &options)
}

fn import_attribute(text: &str) -> (String, bool) {
    let options = options(QuoteStyle::Double, Language::JavaScript);
    format(text, StringLiteralParentKind::ImportAttribute, &options)
}

fn information(text: &str, chosen: QuoteStyle) -> StringInformation {
    let token = token(text);
    let literal = FormatLiteralStringToken::new(&token, StringLiteralParentKind::Expression);
    literal.compute_string_information(chosen)
}

#[test]
fn tokens_have_a_quote_at_each_end() {
    let new = |text: &str| JsSyntaxToken::new(JsSyntaxKind::JsStringLiteral, text.to_string());
    assert!(new("").is_none());
    assert!(new("\"").is_none());
    assert!(new("abc").is_none());
    assert!(new("`abc`").is_none());
    assert!(new("\"abc").is_none());
    assert!(new("abc'").is_none());
    assert!(new("''").is_some());
    assert!(new("\"é'").is_some());
}

#[test]
fn information_of_a_literal() {
    assert_eq!(
        information(r#"" content \"\"\" don't ""#, QuoteStyle::Double),
        StringInformation {
            current_quote: QuoteStyle::Double,
            preferred_quote: QuoteStyle::Single,
            raw_content_has_quotes: true,
        }
    );
    assert_eq!(
        information(r#"'é "" '' '"#, QuoteStyle::Single),
        StringInformation {
            current_quote: QuoteStyle::Single,
            preferred_quote: QuoteStyle::Single,
            raw_content_has_quotes: true,
        }
    );
    assert_eq!(
        information("''", QuoteStyle::Double),
        StringInformation {
            current_quote: QuoteStyle::Single,
            preferred_quote: QuoteStyle::Double,
            raw_content_has_quotes: false,
        }
    );
}

#[test]
fn preferred_quote_is_the_rarer_one() {
    let text = r#"'"" '"#;
    assert_eq!(information(text, QuoteStyle::Double).preferred_quote, QuoteStyle::Single);
    assert_eq!(information(text, QuoteStyle::Single).preferred_quote, QuoteStyle::Single);
    let equal = r#"'"\''"#;
    assert_eq!(information(equal, QuoteStyle::Double).preferred_quote, QuoteStyle::Double);
    assert_eq!(information(equal, QuoteStyle::Single).preferred_quote, QuoteStyle::Single);
}

#[test]
fn preferred_quote_needs_fewest_escapes() {
    let (text, _) = expression(r#"' "a" "b" '"#, QuoteStyle::Double);
    assert_eq!(text.matches('\\').count(), 0);
    let (text, _) = expression(r#"" ''' \" ""#, QuoteStyle::Single);
    assert_eq!(text.matches('\\').count(), 1);
}

#[test]
fn literal_gets_the_preferred_quote() {
    assert_eq!(expression("'abc'", QuoteStyle::Double), (r#""abc""#.to_string(), false));
    assert_eq!(expression("\"abc\"", QuoteStyle::Single), ("'abc'".to_string(), false));
    assert_eq!(expression("''", QuoteStyle::Double), ("\"\"".to_string(), false));
    assert_eq!(expression("'é日'", QuoteStyle::Double), ("\"é日\"".to_string(), false));
}

#[test]
fn literal_with_unmatched_quotes_stands() {
    assert_eq!(expression("\"abc'", QuoteStyle::Double), ("\"abc'".to_string(), true));
    assert_eq!(expression("\"abc'", QuoteStyle::Single), ("'abc'".to_string(), false));
}

#[test]
fn escapes_follow_the_quotes() {
    // The escape of the quote that no longer encloses the literal goes.
    assert_eq!(expression(r#"'it\'s'"#, QuoteStyle::Double), (r#""it's""#.to_string(), false));
    // The quote that encloses the literal now gets an escape.
    assert_eq!(expression(r#"'"\''"#, QuoteStyle::Double), (r#""\"'""#.to_string(), false));
    // Escapes that nothing needs are kept.
    assert_eq!(expression(r#"'\d'"#, QuoteStyle::Double), (r#""\d""#.to_string(), false));
}

#[test]
fn literals_stand_where_the_quotes_stay() {
    for text in [r#""\d""#, r#""it\'s""#, r#""\'\d""#, r#""\''""#, r#""\'\'\"""#, r#""\é\日""#] {
        assert_eq!(expression(text, QuoteStyle::Double), (text.to_string(), true));
    }
    for text in [r#"'\d'"#, r#"'say \"hi'"#, r#"'\"\''"#] {
        assert_eq!(expression(text, QuoteStyle::Single), (text.to_string(), true));
    }
}

#[test]
fn no_character_is_lost() {
    assert_eq!(expression(r#"'\'\''"#, QuoteStyle::Double).0, r#""''""#);
    assert_eq!(expression(r#""\"\"""#, QuoteStyle::Single).0, r#"'""'"#);
    assert_eq!(expression("'\\'\n\\\n\t'", QuoteStyle::Double).0, "\"'\n\\\n\t\"");
    assert_eq!(expression("'\\\u{122}\\\u{127}'", QuoteStyle::Double).0, "\"\\\u{122}\\\u{127}\"");
}

#[test]
fn line_ends_become_line_feeds() {
    let double = QuoteStyle::Double;
    assert_eq!(expression("\"a\\\r\nb\"", double), ("\"a\\\nb\"".to_string(), false));
    assert_eq!(expression("'a\r\nb'", double), ("\"a\nb\"".to_string(), false));
    assert_eq!(expression("\"a\rb\"", double), ("\"a\rb\"".to_string(), true));
}

#[test]
fn backslash_at_the_end_stands() {
    assert_eq!(expression("\"a\\\"", QuoteStyle::Double), ("\"a\\\"".to_string(), true));
    assert_eq!(expression("'a\\'", QuoteStyle::Double), ("\"a\\\"".to_string(), false));
}

#[test]
fn content_that_needs_no_change_stands() {
    for text in [r#""a\n""#, r#""\\""#, r#""\u{1F600}\x41\0""#, r#""\"it's\"\\ ''""#, "\"a\\\nb\""] {
        assert_eq!(expression(text, QuoteStyle::Double), (text.to_string(), true));
    }
}

#[test]
fn same_content_gives_the_same_literal() {
    for inner in ["", "abc", r#"a\n\t\\"#, r#"\u0041\x41"#, "日本\\\n本"] {
        for quote in [QuoteStyle::Double, QuoteStyle::Single] {
            let expected = enclose(inner, quote);
            assert_eq!(expression(&enclose(inner, QuoteStyle::Double), quote).0, expected);
            assert_eq!(expression(&enclose(inner, QuoteStyle::Single), quote).0, expected);
        }
    }
}

#[test]
fn quotes_behind_escaped_backslashes_are_escaped() {
    assert_eq!(expression(r#"'\\" \' '"#, QuoteStyle::Double).0, r#""\\\" ' ""#);
    assert_eq!(expression(r#"'\\"\'\''"#, QuoteStyle::Double).0, r#""\\\"''""#);
    assert_eq!(expression(r#"'\\\"\' \\'"#, QuoteStyle::Double).0, r#""\\\"' \\""#);
}

#[test]
fn inner_quotes_are_escaped() {
    let (text, _) = expression(r#"'a " b \' c'"#, QuoteStyle::Double);
    assert_eq!(text, r#""a \" b ' c""#);
}

#[test]
fn string_value_is_kept() {
    for text in [
        r#"'say "hi", don"t \'x\' y'"#,
        r#""a \" b ''""#,
        r#"'it\'s'"#,
        r#"'a	b "c'"#,
        r#""\"\"\"""#,
    ] {
        for quote in [QuoteStyle::Double, QuoteStyle::Single] {
            let (result, _) = expression(text, quote);
            let value = |literal: &str| {
                let inner = literal[1..literal.len() - 1].to_string();
                inner.replace("\\'", "'").replace("\\\"", "\"")
            };
            assert_eq!(value(&result), value(text));
        }
    }
}

#[test]
fn frequent_quotes_do_not_enclose_the_literal() {
    let (text, _) = expression(r#"" content \"\"\" don't ""#, QuoteStyle::Double);
    assert_eq!(text, r#"' content """ don\'t '"#);
}

#[test]
fn formatting_a_literal_twice() {
    for text in [
        "'abc'",
        r#"'a "b" c'"#,
        r#""a \" b ''""#,
        r#"'"'"#,
        r#"'it\'s "x"'"#,
        r#"'a\n\\"'"#,
        r#"'\d\n'"#,
    ] {
        for quote in [QuoteStyle::Double, QuoteStyle::Single] {
            let (once, _) = expression(text, quote);
            assert_eq!(expression(&once, quote), (once.clone(), true));
        }
    }
}

#[test]
fn borrowed_text_is_the_tokens_own() {
    for text in ["'abc'", "\"abc\"", r#"'a "b" c'"#, r#""it\'s""#, "'x'"] {
        for quote in [QuoteStyle::Double, QuoteStyle::Single] {
            let (result, borrowed) = expression(text, quote);
            assert_eq!(borrowed, result == text);
            let (result, borrowed) = directive(text, quote);
            assert_eq!(borrowed, result == text);
        }
    }
}

#[test]
fn directive_keeps_content() {
    assert_eq!(directive(r#"'\d\n'"#, QuoteStyle::Double), (r#""\d\n""#.to_string(), false));
    assert_eq!(directive(r#"'it\'s'"#, QuoteStyle::Double), (r#"'it\'s'"#.to_string(), true));
    assert_eq!(directive(r#"'a "b"'"#, QuoteStyle::Double), (r#"'a "b"'"#.to_string(), true));
}

#[test]
fn directive_gets_the_chosen_quote() {
    assert_eq!(directive("\"use asm\"", QuoteStyle::Single), ("'use asm'".to_string(), false));
    assert_eq!(directive("\"use asm\"", QuoteStyle::Double), ("\"use asm\"".to_string(), true));
}

#[test]
fn formatting_a_directive_twice() {
    for text in ["'use asm'", r#"'\d'"#, r#"'a "b"'"#, "\"x'"] {
        let (once, _) = directive(text, QuoteStyle::Double);
        assert_eq!(directive(&once, QuoteStyle::Double), (once.clone(), true));
    }
}

#[test]
fn import_attribute_drops_quotes_of_identifiers() {
    assert_eq!(import_attribute("\"type\""), ("type".to_string(), false));
    assert_eq!(import_attribute("'$a_1'"), ("$a_1".to_string(), false));
    assert_eq!(import_attribute("'été'"), ("été".to_string(), false));
    assert_eq!(import_attribute("'a-b'"), ("\"a-b\"".to_string(), false));
    assert_eq!(import_attribute("\"\""), ("\"\"".to_string(), true));
    assert_eq!(import_attribute("\"1a\""), ("\"1a\"".to_string(), true));
    // Numbers do not stand in import attributes.
    assert_eq!(import_attribute("\"1\""), ("\"1\"".to_string(), true));
}

#[test]
fn numbers_stand_in_javascript_members() {
    let js = Language::JavaScript;
    assert_eq!(member("\"1674\"", js), ("1674".to_string(), false));
    assert_eq!(member("'0.5'", js), ("0.5".to_string(), false));
    assert_eq!(member("\"010\"", js), ("\"010\"".to_string(), true));
    assert_eq!(member("\"1e3\"", js), ("\"1e3\"".to_string(), true));
    assert_eq!(member("\"1.\"", js), ("\"1.\"".to_string(), true));
    assert_eq!(member("\"33n\"", js), ("\"33n\"".to_string(), true));
    assert_eq!(member("\"-1\"", js), ("\"-1\"".to_string(), true));
    assert_eq!(
        member("\"9007199254740993\"", js),
        ("\"9007199254740993\"".to_string(), true)
    );
}

#[test]
fn typescript_numbers_stay_quoted() {
    let ts = Language::TypeScript { definition_file: false };
    assert_eq!(member("\"1674\"", ts), ("\"1674\"".to_string(), true));
    assert_eq!(member("'0.5'", ts), ("\"0.5\"".to_string(), false));
    assert_eq!(member("'a'", ts), ("a".to_string(), false));
}

#[test]
fn number_check_takes_the_printed_number() {
    let token = token("\"12\"");
    let literal = FormatLiteralStringToken::new(&token, StringLiteralParentKind::Member);
    let normaliser =
        LiteralStringNormaliser::new(&literal, QuoteStyle::Double, QuoteProperties::AsNeeded);
    let js = SourceFileKind::JavaScript;
    assert!(normaliser.can_remove_number_quotes_by_file_type(js, Some("12")));
    assert!(!normaliser.can_remove_number_quotes_by_file_type(js, Some("12.0")));
    assert!(!normaliser.can_remove_number_quotes_by_file_type(js, None));
    let ts = SourceFileKind::TypeScript;
    assert!(!normaliser.can_remove_number_quotes_by_file_type(ts, Some("12")));
}

#[test]
fn only_members_depend_on_file_and_number() {
    let token = token("\"12\"");
    for kind in [
        StringLiteralParentKind::Expression,
        StringLiteralParentKind::Directive,
        StringLiteralParentKind::ImportAttribute,
    ] {
        let literal = FormatLiteralStringToken::new(&token, kind);
        let normaliser =
            LiteralStringNormaliser::new(&literal, QuoteStyle::Double, QuoteProperties::AsNeeded);
        assert_eq!(
            normaliser.normalise_text(SourceFileKind::JavaScript, Some("12")),
            normaliser.normalise_text(SourceFileKind::TypeScript, None)
        );
    }
}

#[test]
fn preserved_quotes_stay() {
    let mut options = options(QuoteStyle::Double, Language::JavaScript);
    options.quote_properties = QuoteProperties::Preserve;
    for kind in [StringLiteralParentKind::Member, StringLiteralParentKind::ImportAttribute] {
        assert_eq!(format("'a'", kind, &options), ("\"a\"".to_string(), false));
        assert_eq!(format("\"1\"", kind, &options), ("\"1\"".to_string(), true));
    }
}

#[test]
fn dropped_quotes_leave_a_name() {
    let ts = Language::TypeScript { definition_file: true };
    for text in ["'a b'", "'a.b'", "'\\u0061'", "''", "'2a'"] {
        let (result, _) = member(text, ts);
        assert!(result.starts_with('"') && result.ends_with('"'));
    }
}

#[test]
fn jsx_literals_have_their_own_quote() {
    let options = options(QuoteStyle::Double, Language::JavaScript);
    let text = "\"abc\"".to_string();
    let token = JsSyntaxToken::new(JsSyntaxKind::JsxStringLiteral, text).unwrap();
    let literal = FormatLiteralStringToken::new(&token, StringLiteralParentKind::Expression);
    assert_eq!(literal.clean_text(&options, None).text, "'abc'");
}

#[test]
fn width_is_that_of_the_text() {
    let options = options(QuoteStyle::Double, Language::JavaScript);
    for (text, kind, width) in [
        ("'abc'", StringLiteralParentKind::Expression, 5),
        ("'日本'", StringLiteralParentKind::Expression, 6),
        ("'it\\'s'", StringLiteralParentKind::Expression, 6),
        ("'name'", StringLiteralParentKind::Member, 4),
        ("\"\"", StringLiteralParentKind::Directive, 2),
    ] {
        let token = token(text);
        let literal = FormatLiteralStringToken::new(&token, kind);
        assert_eq!(literal.clean_text(&options, None).width(), width);
    }
}

#[test]
fn content_without_quotes() {
    let token = token("'abc'");
    let literal = FormatLiteralStringToken::new(&token, StringLiteralParentKind::Expression);
    let normaliser =
        LiteralStringNormaliser::new(&literal, QuoteStyle::Double, QuoteProperties::AsNeeded);
    let double = literal.compute_string_information(QuoteStyle::Double);
    assert_eq!(normaliser.unquote_or_normalise(true, double), "abc");
    assert_eq!(normaliser.unquote_or_normalise(false, double), "\"abc\"");
}

#[test]
fn file_kinds() {
    let kind = |language| SourceFileKind::from(JsFileSource { language });
    assert_eq!(kind(Language::JavaScript), SourceFileKind::JavaScript);
    assert_eq!(kind(Language::TypeScript { definition_file: false }), SourceFileKind::TypeScript);
    assert_eq!(kind(Language::TypeScript { definition_file: true }), SourceFileKind::TypeScript);
}

#[test]
fn quote_styles() {
    assert_eq!(QuoteStyle::default(), QuoteStyle::Double);
    for quote in [QuoteStyle::Double, QuoteStyle::Single] {
        assert_eq!(QuoteStyle::from_byte(quote.as_byte()), Some(quote));
        assert_eq!(quote.other().other(), quote);
        assert_ne!(quote.other(), quote);
        assert_eq!(quote.as_string().as_bytes(), [quote.as_byte()]);
    }
    assert_eq!(QuoteStyle::from_byte(96), None);
    assert_eq!(enclose("é", QuoteStyle::Single), "'é'");
}

#[test]
fn texts() {
    assert_eq!(between_ends("\"日本\""), "日本");
    assert_eq!(between_ends("''"), "");
    assert!(same_text("日本", "日本"));
    assert!(!same_text("日本", "日"));
    assert!(!same_text("ab", "ac"));
    assert!(starts_with_digit("0x"));
    assert!(starts_with_digit("9"));
    assert!(!starts_with_digit(""));
    assert!(!starts_with_digit("a1"));
    assert!(!starts_with_digit("\u{661}"));
}
