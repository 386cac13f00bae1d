# js_string_utils

Decides which quotes enclose a JavaScript string literal and what the literal's text becomes in
the formatted source. Literals in expressions, members of objects, import attributes and
directives each have rules of their own.

- `src/quote.rs`, `src/text.rs`: quotes, and text as characters and as bytes.
- `src/options.rs`, `src/token.rs`: the configuration, the source file and the literal's token.
- `src/escape.rs`: escapes, and the content of a literal between other quotes.
- `src/unicode.rs`: the functions of `biome_unicode_table` and `unicode-width` that the library
  calls, and what it relies on of them.
- `src/information.rs`, `src/normaliser.rs`, `src/literal.rs`: the rules.
- `src/laws.rs`: what holds of the rules as a whole.
- `app/`: the literals of a syntax tree, written into a formatted document.

A member that is a number can lose its quotes. The library has no floating point: callers hand it
the text that double-precision arithmetic prints for the number.
