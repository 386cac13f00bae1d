//! What the configuration and the source file say about string literals.

use vstd::prelude::*;

use crate::quote::QuoteStyle;

verus! {

/// When the properties of an object are quoted.
#[derive(Clone, Copy, Debug, PartialEq, Eq, Structural)]
pub enum QuoteProperties {
    /// Quotes are dropped where the property can do without them.
    AsNeeded,
    /// Quotes stay as they are written.
    Preserve,
}

/// The language of a source file.
#[derive(Clone, Copy, Debug, PartialEq, Eq, Structural)]
pub enum Language {
    JavaScript,
    /// TypeScript; `definition_file` tells the files that only declare types.
    TypeScript { definition_file: bool },
}

impl Language {
    pub fn is_typescript(self) -> (r: bool)
        ensures
            r == (self is TypeScript),
    {
        match self {
            Language::TypeScript { .. } => true,
            Language::JavaScript => false,
        }
    }
}

/// The source file that a literal comes from.
#[derive(Clone, Copy, Debug, PartialEq, Eq, Structural)]
pub struct JsFileSource {
    pub language: Language,
}

/// A source file by just the type of file.
#[derive(Clone, Copy, Debug, PartialEq, Eq, Structural)]
pub enum SourceFileKind {
    TypeScript,
    JavaScript,
}

/// The kind of a file in the given language.
pub open spec fn source_file_kind(language: Language) -> SourceFileKind {
    if language is TypeScript {
        SourceFileKind::TypeScript
    } else {
        SourceFileKind::JavaScript
    }
}

impl vstd::std_specs::convert::FromSpecImpl<JsFileSource> for SourceFileKind {
    open spec fn obeys_from_spec() -> bool {
        true
    }

    open spec fn from_spec(st: JsFileSource) -> SourceFileKind {
        source_file_kind(st.language)
    }
}

impl From<JsFileSource> for SourceFileKind {
    fn from(st: JsFileSource) -> (r: SourceFileKind) {
        if st.language.is_typescript() {
            SourceFileKind::TypeScript
        } else {
            SourceFileKind::JavaScript
        }
    }
}

/// The part of the formatter's configuration that string literals depend on.
#[derive(Clone, Copy, Debug, PartialEq, Eq, Structural)]
pub struct JsFormatOptions {
    /// The quote that string literals should have.
    pub quote_style: QuoteStyle,
    /// The quote that the string literals of JSX attributes should have.
    pub jsx_quote_style: QuoteStyle,
    /// When the properties of objects are quoted.
    pub quote_properties: QuoteProperties,
    /// The file that is formatted.
    pub source_type: JsFileSource,
}

} // verus!
