//! Template literals: stretches of literal text with expressions embedded between them.

use crate::code_iter::{char_at, CodeIter};
use crate::diagnostic::{Diagnostic, Scan};
use crate::string::{read_text, text_at, TextMode};
use vstd::prelude::*;

verus! {

/// A stretch of literal text in a template, escape sequences decoded. `is_terminal` says
/// that the backtick closes the template behind it; otherwise an embedded expression
/// follows.
#[derive(Debug, PartialEq)]
pub struct TemplateLiteralString {
    pub value: String,
    pub is_terminal: bool,
}

impl TemplateLiteralString {
    pub fn new(value: String, is_terminal: bool) -> (s: TemplateLiteralString)
        ensures
            s.value == value,
            s.is_terminal == is_terminal,
    {
        Self { value, is_terminal }
    }
}

/// The `${` that opens an embedded expression.
#[derive(Clone, Copy, Debug, Default, PartialEq, Eq)]
pub struct TemplateLiteralExprOpen {}

/// The `}` that closes an embedded expression.
#[derive(Clone, Copy, Debug, Default, PartialEq, Eq)]
pub struct TemplateLiteralExprClose {}

/// The start of a template literal at `pos`: a backtick and the text up to the closing
/// backtick or the first `${`.
pub open spec fn template_start_at(src: Seq<char>, pos: int) -> Scan<(Seq<char>, bool)> {
    if char_at(src, pos) == Some('`') {
        text_at(src, pos, pos + 1, TextMode::Template)
    } else {
        Scan::NoMatch
    }
}

/// The end of an embedded expression at `pos`: a `}` and the text up to the closing
/// backtick or the next `${`.
pub open spec fn template_expr_end_at(src: Seq<char>, pos: int) -> Scan<(Seq<char>, bool)> {
    if char_at(src, pos) == Some('}') {
        text_at(src, pos, pos + 1, TextMode::Template)
    } else {
        Scan::NoMatch
    }
}

/// Reads the text behind a backtick or behind the `}` of an embedded expression, the
/// cursor standing on that character.
fn read_segment(chars: &mut CodeIter) -> (r: Result<
    (TemplateLiteralString, Option<TemplateLiteralExprOpen>),
    Diagnostic,
>)
    requires
        old(chars).wf(),
        old(chars).offset() < old(chars).source().len(),
    ensures
        final(chars).follows(old(chars)),
        match text_at(
            old(chars).source(),
            old(chars).offset(),
            old(chars).offset() + 1,
            TextMode::Template,
        ) {
            Scan::Match { value, end } => r matches Ok(found) && found.0.value@ == value.0
                && found.0.is_terminal == value.1 && (found.1 is Some <==> !value.1)
                && final(chars).offset() == end,
            Scan::Fail { error } => r matches Err(d) && d.describes(
                error,
                old(chars).source(),
                old(chars).name(),
            ),
            Scan::NoMatch => false,
        },
{
    let open = chars.current_position();
    let _ = chars.next();
    match read_text(chars, open, TextMode::Template) {
        Ok(found) => {
            let expr_open = if found.1 {
                None
            } else {
                Some(TemplateLiteralExprOpen {  })
            };
            Ok((TemplateLiteralString::new(found.0, found.1), expr_open))
        },
        Err(d) => Err(d),
    }
}

/// Reads the start of a template literal at the cursor: its first stretch of text, and
/// the opening of an embedded expression where one follows. Gives `Ok(None)`, with the
/// cursor where it was, where no backtick stands there.
pub fn try_parse_template_literal_start(chars: &mut CodeIter) -> (r: Result<
    Option<(TemplateLiteralString, Option<TemplateLiteralExprOpen>)>,
    Diagnostic,
>)
    requires
        old(chars).wf(),
    ensures
        final(chars).follows(old(chars)),
        match template_start_at(old(chars).source(), old(chars).offset()) {
            Scan::NoMatch => r matches Ok(None) && final(chars).offset() == old(chars).offset(),
            Scan::Match { value, end } => r matches Ok(Some(found)) && found.0.value@ == value.0
                && found.0.is_terminal == value.1 && (found.1 is Some <==> !value.1)
                && final(chars).offset() == end,
            Scan::Fail { error } => r matches Err(d) && d.describes(
                error,
                old(chars).source(),
                old(chars).name(),
            ),
        },
{
    if chars.peek() == Some('`') {
        match read_segment(chars) {
            Ok(found) => Ok(Some(found)),
            Err(d) => Err(d),
        }
    } else {
        Ok(None)
    }
}

/// Reads the end of an embedded expression at the cursor: the `}`, the stretch of text
/// behind it, and the opening of the next embedded expression where one follows. Gives
/// `Ok(None)`, with the cursor where it was, where no `}` stands there.
///
/// Whether a `}` ends an embedded expression or belongs to the expression itself is for
/// the caller to tell.
pub fn try_parse_template_literal_expr_end(chars: &mut CodeIter) -> (r: Result<
    Option<(TemplateLiteralExprClose, TemplateLiteralString, Option<TemplateLiteralExprOpen>)>,
    Diagnostic,
>)
    requires
        old(chars).wf(),
    ensures
        final(chars).follows(old(chars)),
        match template_expr_end_at(old(chars).source(), old(chars).offset()) {
            Scan::NoMatch => r matches Ok(None) && final(chars).offset() == old(chars).offset(),
            Scan::Match { value, end } => r matches Ok(Some(found)) && found.1.value@ == value.0
                && found.1.is_terminal == value.1 && (found.2 is Some <==> !value.1)
                && final(chars).offset() == end,
            Scan::Fail { error } => r matches Err(d) && d.describes(
                error,
                old(chars).source(),
                old(chars).name(),
            ),
        },
{
    if chars.peek() == Some('}') {
        match read_segment(chars) {
            Ok(found) => Ok(Some((TemplateLiteralExprClose {  }, found.0, found.1))),
            Err(d) => Err(d),
        }
    } else {
        Ok(None)
    }
}

} // verus!
