use std::borrow::Cow;

use js_string_utils::escape::normalize_string;
use js_string_utils::literal::FormatLiteralStringToken;
use js_string_utils::normaliser::LiteralStringNormaliser;
use js_string_utils::options::QuoteProperties;
use js_string_utils::quote::enclose;
use js_string_utils::quote::QuoteStyle;
use js_string_utils::token::JsSyntaxKind;
use js_string_utils::token::JsSyntaxToken;
use js_string_utils::token::StringLiteralParentKind;

/// All contents of up to five characters, from an alphabet that has those which matter.
fn contents() -> Vec<String> {
    let alphabet = ['\\', '"', '\'', 'd', '\r', '\n', '\u{122}'];
    let mut all = vec![String::new()];
    let mut start = 0;
    for _ in 0..5 {
        let end = all.len();
        for i in start..end {
            for c in alphabet {
                let mut text = all[i].clone();
                text.push(c);
                all.push(text);
            }
        }
        start = end;
    }
    all
}

fn styles() -> [QuoteStyle; 2] {
    [QuoteStyle::Double, QuoteStyle::Single]
}

/// The characters and escapes of a content. The last is a backslash if that takes no character.
fn units(s: &str) -> Vec<String> {
    let mut units = Vec::new();
    let mut chars = s.chars();
    while let Some(c) = chars.next() {
        let mut unit = c.to_string();
        if c == '\\' {
            unit.extend(chars.next());
        }
        units.push(unit);
    }
    units
}

fn is_well_formed(inner: &str, quote: QuoteStyle) -> bool {
    !inner.contains('\r') && units(inner).iter().all(|u| u != "\\" && u != quote.as_string())
}

/// The units of a content, with quotes that are escaped as if they were not.
fn value(inner: &str) -> Vec<String> {
    let unescaped = |u: String| if u == "\\\"" || u == "\\'" { u[1..].to_string() } else { u };
    units(inner).into_iter().map(unescaped).collect()
}

fn backslashes_at_the_end(s: &[char]) -> usize {
    s.iter().rev().take_while(|c| **c == '\\').count()
}

fn formatted(text: &str, chosen: QuoteStyle) -> (String, bool) {
    let token = JsSyntaxToken::new(JsSyntaxKind::JsStringLiteral, text.to_string()).unwrap();
    let literal = FormatLiteralStringToken::new(&token, StringLiteralParentKind::Expression);
    let normaliser = LiteralStringNormaliser::new(&literal, chosen, QuoteProperties::AsNeeded);
    let info = literal.compute_string_information(chosen);
    let result = normaliser.normalise_string_literal(info);
    let borrowed = matches!(result, Cow::Borrowed(_));
    (result.to_string(), borrowed)
}

#[test]
fn requoted_contents() {
    for (raw, quote, quotes_change, expected) in [
        ("", QuoteStyle::Double, true, ""),
        ("a\"b", QuoteStyle::Double, false, "a\\\"b"),
        ("a\"b", QuoteStyle::Single, false, "a\"b"),
        ("a\\\"b", QuoteStyle::Double, true, "a\\\"b"),
        ("a\\\"b", QuoteStyle::Single, true, "a\"b"),
        ("a\\\"b", QuoteStyle::Single, false, "a\\\"b"),
        ("\\d\\\\", QuoteStyle::Single, true, "\\d\\\\"),
        ("\\\\'", QuoteStyle::Single, true, "\\\\\\'"),
        ("\\", QuoteStyle::Double, true, "\\"),
        ("a\r\n\rb\\\r\nc", QuoteStyle::Double, false, "a\n\rb\\\nc"),
        ("é\\日'x", QuoteStyle::Single, false, "é\\日\\'x"),
    ] {
        let result = normalize_string(raw, quote, quotes_change);
        assert_eq!(result, expected);
        assert_eq!(matches!(result, Cow::Borrowed(_)), raw == expected);
    }
}

#[test]
fn requoting_without_carriage_returns() {
    for raw in contents() {
        if raw.contains('\r') {
            continue;
        }
        for quote in styles() {
            let escaped_other = format!("\\{}", quote.other().as_string());
            for quotes_change in [false, true] {
                let mut expected = String::new();
                for unit in units(&raw) {
                    if unit == quote.as_string() {
                        expected.push('\\');
                    }
                    if quotes_change && unit == escaped_other {
                        expected.push_str(quote.other().as_string());
                    } else {
                        expected.push_str(&unit);
                    }
                }
                let result = normalize_string(&raw, quote, quotes_change);
                assert_eq!(result, expected);
                assert_eq!(matches!(result, Cow::Borrowed(_)), raw == expected);
            }
        }
    }
}

#[test]
fn well_formed_literals() {
    for inner in contents() {
        for current in styles() {
            if !is_well_formed(&inner, current) {
                continue;
            }
            let text = enclose(&inner, current);
            for chosen in styles() {
                let (result, borrowed) = formatted(&text, chosen);
                let new = &result[1..result.len() - 1];
                let preferred = QuoteStyle::from_byte(result.as_bytes()[0]).unwrap();
                assert_eq!(borrowed, result == text);
                assert!(is_well_formed(new, preferred));
                assert_eq!(value(new), value(&inner));
                if preferred == current {
                    assert_eq!(result, text);
                }
                for c in ['"', '\'', 'd', '\n'] {
                    assert_eq!(new.matches(c).count(), inner.matches(c).count());
                }
                let escape = format!("\\{}", preferred.as_string());
                let escapes = units(new).iter().filter(|u| **u == escape).count();
                assert_eq!(escapes, inner.matches(preferred.as_string()).count());
                assert!(escapes <= inner.matches(preferred.other().as_string()).count());
                assert_eq!(formatted(&result, chosen), (result.clone(), true));
            }
        }
    }
}

#[test]
fn backslashes_before_quotes() {
    for inner in contents() {
        for current in styles() {
            if !is_well_formed(&inner, current) {
                continue;
            }
            for chosen in styles() {
                let (result, _) = formatted(&enclose(&inner, current), chosen);
                let chars: Vec<char> = result.chars().collect();
                let new = &chars[1..chars.len() - 1];
                for i in 0..new.len() {
                    if new[i] == chars[0] {
                        assert_eq!(backslashes_at_the_end(&new[..i]) % 2, 1);
                    }
                }
                assert_eq!(backslashes_at_the_end(new) % 2, 0);
                if !inner.contains("\\\\") {
                    let plain = |s: &str| s.replace("\\\"", "\"").replace("\\'", "'");
                    assert_eq!(plain(&result[1..result.len() - 1]), plain(&inner));
                }
            }
        }
    }
}
