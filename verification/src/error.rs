//! Errors that template compilation can produce.

use vstd::prelude::*;
use vstd::string::StringExecFns;

verus! {

/// Error type that can be emitted during template parsing.
#[derive(Debug, PartialEq, Eq)]
pub enum Error {
    /// Stack overflow when parsing nested sections.
    StackOverflow,
    /// Parser was expecting a tag closing a section `{{/foo}}`,
    /// but never found it or found a different one.
    UnclosedSection(String),
    /// Similar to above, but happens if `{{/foo}}` happens while
    /// no section was open.
    UnopenedSection(String),
    /// Parser was expecting to find the closing braces of a tag `}}`, but never found it.
    UnclosedTag,
    /// Partials are not allowed in the given context (e.g. parsing a template from string).
    PartialsDisabled,
    /// Attempted to load a partial outside of the templates folder.
    IllegalPartial(String),
    /// The template file with the given name was not found.
    NotFound(String),
    /// Failed to parse the section index.
    IndexParse(String),
}

/// The mathematical shadow of [`Error`]: the same variants over sequences of
/// characters, so that specification functions can speak of errors.
pub enum ErrorV {
    StackOverflow,
    UnclosedSection(Seq<char>),
    UnopenedSection(Seq<char>),
    UnclosedTag,
    PartialsDisabled,
    IllegalPartial(Seq<char>),
    NotFound(Seq<char>),
    IndexParse(Seq<char>),
}

impl View for Error {
    type V = ErrorV;

    open spec fn view(&self) -> ErrorV {
        match self {
            Error::StackOverflow => ErrorV::StackOverflow,
            Error::UnclosedSection(n) => ErrorV::UnclosedSection(n@),
            Error::UnopenedSection(n) => ErrorV::UnopenedSection(n@),
            Error::UnclosedTag => ErrorV::UnclosedTag,
            Error::PartialsDisabled => ErrorV::PartialsDisabled,
            Error::IllegalPartial(n) => ErrorV::IllegalPartial(n@),
            Error::NotFound(n) => ErrorV::NotFound(n@),
            Error::IndexParse(n) => ErrorV::IndexParse(n@),
        }
    }
}

/// The human-readable message for an error value, as a sequence of characters.
pub open spec fn spec_message(e: ErrorV) -> Seq<char> {
    match e {
        ErrorV::StackOverflow => "Ramhorns has overflown its stack when parsing nested sections"@,
        ErrorV::UnclosedSection(n) => "Section not closed properly, was expecting {{/"@ + n + "}}"@,
        ErrorV::UnopenedSection(n) => "Unexpected closing section {{/"@ + n + "}}"@,
        ErrorV::UnclosedTag => "Couldn't find closing braces matching opening braces"@,
        ErrorV::PartialsDisabled => "Partials are not allowed in the current context"@,
        ErrorV::IllegalPartial(n) => "Attempted to load "@ + n
            + "; partials can only be loaded from the template directory"@,
        ErrorV::NotFound(n) => "Template file "@ + n + " not found"@,
        ErrorV::IndexParse(n) => "Failed to parse index "@ + n,
    }
}

impl Error {
    /// Render this error as a human-readable message.
    pub fn message(&self) -> (r: String)
        ensures
            r@ == spec_message(self@),
    {
        match self {
            Error::StackOverflow => String::from_str(
                "Ramhorns has overflown its stack when parsing nested sections",
            ),
            Error::UnclosedSection(n) => {
                let mut s = String::from_str("Section not closed properly, was expecting {{/");
                s.append(n.as_str());
                s.append("}}");
                s
            },
            Error::UnopenedSection(n) => {
                let mut s = String::from_str("Unexpected closing section {{/");
                s.append(n.as_str());
                s.append("}}");
                s
            },
            Error::UnclosedTag => String::from_str(
                "Couldn't find closing braces matching opening braces",
            ),
            Error::PartialsDisabled => String::from_str(
                "Partials are not allowed in the current context",
            ),
            Error::IllegalPartial(n) => {
                let mut s = String::from_str("Attempted to load ");
                s.append(n.as_str());
                s.append("; partials can only be loaded from the template directory");
                s
            },
            Error::NotFound(n) => {
                let mut s = String::from_str("Template file ");
                s.append(n.as_str());
                s.append(" not found");
                s
            },
            Error::IndexParse(n) => {
                let mut s = String::from_str("Failed to parse index ");
                s.append(n.as_str());
                s
            },
        }
    }
}

} // verus!
