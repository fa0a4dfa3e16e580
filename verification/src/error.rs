//! The errors that the library reports.

use vstd::prelude::*;

verus! {

/// A production of the line-oriented triple grammar.
#[derive(Clone, Copy, Debug, PartialEq, Eq, Structural)]
pub enum Rule {
    /// A whole document.
    NtriplesDoc,
    /// One statement with its closing period.
    Triple,
    /// The first term of a statement.
    Subject,
    /// The second term of a statement.
    Predicate,
    /// The third term of a statement.
    Object,
    /// A quoted string with its optional suffix.
    Literal,
    /// A quoted string.
    QuotedString,
    /// An IRI between angle brackets.
    IriRef,
    /// A blank node label.
    BlankNode,
    /// A language tag.
    LangTag,
}

/// What went wrong.
#[derive(Debug)]
pub enum Error {
    /// The input does not match the grammar. `rule` is the production that
    /// could not be matched, `position` the index of the character at which
    /// it was tried, and `found` the rest of that line.
    Syntax { rule: Rule, position: usize, found: String },
    /// A `\u` or `\U` escape names a number that is no character.
    InvalidEscape(String),
    /// The text is not a well-formed IRI.
    InvalidIri(String),
    /// The text is a relative reference where an absolute IRI is required.
    AbsoluteIriExpected(String),
    /// The prefix is already bound to another namespace.
    PrefixConflict(String),
}

/// The mathematical content of an [`Error`].
pub enum ErrorView {
    Syntax { rule: Rule, position: nat, found: Seq<char> },
    InvalidEscape(Seq<char>),
    InvalidIri(Seq<char>),
    AbsoluteIriExpected(Seq<char>),
    PrefixConflict(Seq<char>),
}

impl View for Error {
    type V = ErrorView;

    open spec fn view(&self) -> ErrorView {
        match self {
            Error::Syntax { rule, position, found } => ErrorView::Syntax {
                rule: *rule,
                position: *position as nat,
                found: found@,
            },
            Error::InvalidEscape(text) => ErrorView::InvalidEscape(text@),
            Error::InvalidIri(text) => ErrorView::InvalidIri(text@),
            Error::AbsoluteIriExpected(text) => ErrorView::AbsoluteIriExpected(text@),
            Error::PrefixConflict(prefix) => ErrorView::PrefixConflict(prefix@),
        }
    }
}

impl Error {
    /// A sentence for a person to read.
    pub fn message(&self) -> (r: String)
        ensures
            r@ == self@.message(),
    {
        let mut out = String::new();
        match self {
            Error::Syntax { rule, position, found } => {
                crate::text::push_text(&mut out, "the input does not match the grammar at character ");
                crate::text::push_decimal(&mut out, *position as u64);
                crate::text::push_text(&mut out, ": ");
                crate::text::push_text(&mut out, found.as_str());
            },
            Error::InvalidEscape(text) => {
                crate::text::push_text(&mut out, "the escape names no character: ");
                crate::text::push_text(&mut out, text.as_str());
            },
            Error::InvalidIri(text) => {
                crate::text::push_text(&mut out, "not a well-formed IRI: ");
                crate::text::push_text(&mut out, text.as_str());
            },
            Error::AbsoluteIriExpected(text) => {
                crate::text::push_text(&mut out, "an absolute IRI is required: ");
                crate::text::push_text(&mut out, text.as_str());
            },
            Error::PrefixConflict(prefix) => {
                crate::text::push_text(&mut out, "the prefix is bound to another namespace: ");
                crate::text::push_text(&mut out, prefix.as_str());
            },
        }
        out
    }
}

impl ErrorView {
    /// The sentence that [`Error::message`] returns.
    pub open spec fn message(self) -> Seq<char> {
        match self {
            ErrorView::Syntax { rule, position, found } => {
                "the input does not match the grammar at character "@ + crate::text::decimal(
                    position,
                ) + ": "@ + found
            },
            ErrorView::InvalidEscape(text) => "the escape names no character: "@ + text,
            ErrorView::InvalidIri(text) => "not a well-formed IRI: "@ + text,
            ErrorView::AbsoluteIriExpected(text) => "an absolute IRI is required: "@ + text,
            ErrorView::PrefixConflict(prefix) => "the prefix is bound to another namespace: "@
                + prefix,
        }
    }
}

} // verus!
