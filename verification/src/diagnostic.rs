//! Diagnostics: what went wrong, and where.

use crate::code_iter::{position_at, Span};
use vstd::prelude::*;
use vstd::string::StringExecFns;

verus! {

/// The ways in which tokenizing can fail.
#[derive(Clone, Copy, Debug, PartialEq, Eq)]
pub enum DiagnosticKind {
    /// The text ended inside a string literal.
    UnterminatedString,
    /// The text ended inside a block comment.
    UnterminatedComment,
    /// The text ended inside a regular expression literal.
    UnterminatedRegex,
    /// The text ended inside a template literal.
    UnterminatedTemplate,
    /// A backslash in a string or template is followed by something that is no escape.
    InvalidEscape,
    /// A letter that is no flag follows the closing `/` of a regular expression.
    InvalidRegexFlag(char),
    /// A line ends inside a regular expression literal.
    LineTerminatorInRegex,
    /// A numeric literal is cut short or runs into an identifier.
    MalformedNumber,
    /// No token starts with this character.
    UnrecognizedToken(char),
}

/// The failure of a tokenize call: its kind and the stretch of source it is about.
#[derive(Debug, PartialEq, Eq)]
pub struct Diagnostic {
    pub kind: DiagnosticKind,
    pub span: Span,
}

/// A failure as the recognizers' models give it: its kind and the offsets it lies between.
pub struct LexError {
    pub kind: DiagnosticKind,
    pub start: int,
    pub end: int,
}

/// What a recognizer finds at a position: nothing of its category, a token's worth of
/// text that ends at `end`, or a malformed lexeme.
pub enum Scan<T> {
    NoMatch,
    Match { value: T, end: int },
    Fail { error: LexError },
}

/// The text that a diagnostic of this kind shows.
pub open spec fn message_text(kind: DiagnosticKind) -> Seq<char> {
    match kind {
        DiagnosticKind::UnterminatedString => "Unexpected EOF while parsing string literal"@,
        DiagnosticKind::UnterminatedComment => "Unexpected EOF while parsing comment"@,
        DiagnosticKind::UnterminatedRegex => "Unexpected EOF while parsing regular expression"@,
        DiagnosticKind::UnterminatedTemplate => "Unexpected EOF while parsing template literal"@,
        DiagnosticKind::InvalidEscape => "Invalid escape sequence"@,
        DiagnosticKind::InvalidRegexFlag(c) => "Invalid regular expression flag '"@.push(c).push(
            '\'',
        ),
        DiagnosticKind::LineTerminatorInRegex =>
            "Unexpected line terminator while parsing regular expression"@,
        DiagnosticKind::MalformedNumber => "Malformed numeric literal"@,
        DiagnosticKind::UnrecognizedToken(c) => "Unrecognized token '"@.push(c).push('\''),
    }
}

impl Diagnostic {
    pub fn new(kind: DiagnosticKind, span: Span) -> (d: Diagnostic)
        ensures
            d.kind == kind,
            d.span == span,
    {
        Diagnostic { kind, span }
    }

    /// Whether this diagnostic reports `error` in the text `src` of the unit `name`.
    pub open spec fn describes(&self, error: LexError, src: Seq<char>, name: Seq<char>) -> bool {
        &&& self.kind == error.kind
        &&& self.span.source_name@ == name
        &&& self.span.start == position_at(src, error.start)
        &&& self.span.end == position_at(src, error.end)
    }

    /// The message for a reader.
    pub fn message(&self) -> (text: String)
        ensures
            text@ == message_text(self.kind),
    {
        match self.kind {
            DiagnosticKind::UnterminatedString => String::from_str(
                "Unexpected EOF while parsing string literal",
            ),
            DiagnosticKind::UnterminatedComment => String::from_str(
                "Unexpected EOF while parsing comment",
            ),
            DiagnosticKind::UnterminatedRegex => String::from_str(
                "Unexpected EOF while parsing regular expression",
            ),
            DiagnosticKind::UnterminatedTemplate => String::from_str(
                "Unexpected EOF while parsing template literal",
            ),
            DiagnosticKind::InvalidEscape => String::from_str("Invalid escape sequence"),
            DiagnosticKind::InvalidRegexFlag(c) => {
                let mut text = String::from_str("Invalid regular expression flag '");
                text.push(c);
                text.push('\'');
                text
            },
            DiagnosticKind::LineTerminatorInRegex => String::from_str(
                "Unexpected line terminator while parsing regular expression",
            ),
            DiagnosticKind::MalformedNumber => String::from_str("Malformed numeric literal"),
            DiagnosticKind::UnrecognizedToken(c) => {
                let mut text = String::from_str("Unrecognized token '");
                text.push(c);
                text.push('\'');
                text
            },
        }
    }
}

} // verus!
