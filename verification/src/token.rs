//! The tokens of string literals.

use vstd::prelude::*;

use crate::quote::is_quoted;

verus! {

/// The two kinds of tokens that are string literals.
#[derive(Clone, Copy, Debug, PartialEq, Eq, Structural)]
pub enum JsSyntaxKind {
    /// A string literal in the program.
    JsStringLiteral,
    /// A string literal in a JSX attribute.
    JsxStringLiteral,
}

/// The token of a string literal.
#[derive(Debug)]
pub struct JsSyntaxToken {
    /// The kind of the token.
    pub kind: JsSyntaxKind,
    /// The text of the token, with its quotes and without the trivia around it.
    pub text_trimmed: String,
}

impl JsSyntaxToken {
    /// The text of the token, with its quotes.
    pub open spec fn text(self) -> Seq<char> {
        self.text_trimmed@
    }

    /// The token's text starts and ends with a quote.
    pub open spec fn wf(self) -> bool {
        is_quoted(self.text())
    }

    /// Makes a token from its text. There is none for a text that does not start and end with a
    /// quote.
    pub fn new(kind: JsSyntaxKind, text_trimmed: String) -> (r: Option<JsSyntaxToken>)
        ensures
            r is Some <==> is_quoted(text_trimmed@),
            r matches Some(token) ==> token.wf() && token.kind == kind && token.text()
                == text_trimmed@,
    {
        let n: usize = text_trimmed.as_str().unicode_len();
        if n < 2 {
            return None;
        }
        let first = text_trimmed.as_str().get_char(0);
        let last = text_trimmed.as_str().get_char(n - 1);
        if (first == '"' || first == '\'') && (last == '"' || last == '\'') {
            Some(JsSyntaxToken { kind, text_trimmed })
        } else {
            None
        }
    }
}

/// The construct that a string literal is part of.
#[derive(Clone, Copy, Debug, PartialEq, Eq, Structural)]
pub enum StringLiteralParentKind {
    /// Variant to track tokens that are inside an expression
    Expression,
    /// Variant to track tokens that are inside a member
    Member,
    /// Variant to track tokens that are inside an import attribute
    ImportAttribute,
    /// Variant used when the string literal is inside a directive. This will apply
    /// a simplified logic of normalisation
    Directive,
}

} // verus!
