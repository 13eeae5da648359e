//! String literals, and the scanner for decoded text that templates share with them.

use crate::code_iter::{char_at, position_at, CodeIter, SourcePosition};
use crate::diagnostic::{Diagnostic, DiagnosticKind, LexError, Scan};
use crate::escape_chars::{escape_at, lemma_escape_advances, parse_escape};
use vstd::prelude::*;
use vstd::string::StringExecFns;

verus! {

/// A string literal, escape sequences decoded.
#[derive(Debug, PartialEq)]
pub struct StringLiteral {
    pub value: String,
}

impl StringLiteral {
    pub fn new(value: String) -> (literal: StringLiteral)
        ensures
            literal.value == value,
    {
        Self { value }
    }
}

/// What closes a stretch of decoded text.
#[derive(Clone, Copy, Debug, PartialEq, Eq)]
pub enum TextMode {
    /// A string literal: it ends at its quote character.
    Quoted(char),
    /// A stretch of a template literal: it ends at a backtick, and the template with it,
    /// or at `${`, which opens an embedded expression.
    Template,
}

impl TextMode {
    /// The error for a text that the source ends in.
    pub open spec fn unterminated(self) -> DiagnosticKind {
        match self {
            TextMode::Quoted(_) => DiagnosticKind::UnterminatedString,
            TextMode::Template => DiagnosticKind::UnterminatedTemplate,
        }
    }

    /// Whether the text ends at `pos`, and if so, whether for good and where the
    /// delimiter ends.
    pub open spec fn closes_at(self, src: Seq<char>, pos: int) -> Option<(bool, int)> {
        match self {
            TextMode::Quoted(quote) => if char_at(src, pos) == Some(quote) {
                Some((true, pos + 1))
            } else {
                None
            },
            TextMode::Template => if char_at(src, pos) == Some('`') {
                Some((true, pos + 1))
            } else if char_at(src, pos) == Some('$') && char_at(src, pos + 1) == Some('{') {
                Some((false, pos + 2))
            } else {
                None
            },
        }
    }
}

/// `scan` with `text` put in front of what it matched.
pub open spec fn prepend(text: Seq<char>, scan: Scan<(Seq<char>, bool)>) -> Scan<
    (Seq<char>, bool),
> {
    match scan {
        Scan::Match { value, end } => Scan::Match { value: (text + value.0, value.1), end },
        other => other,
    }
}

/// The decoded text from `pos` up to the delimiter that closes it, whether that
/// delimiter ends the literal, and the index behind the delimiter. The literal was
/// opened at `open`.
///
/// A backslash and what follows it stand for what `escape_at` gives; every other
/// character stands for itself. A malformed escape sequence is an error at its
/// backslash, and a text that the source ends in is an error over the whole literal.
pub open spec fn text_at(src: Seq<char>, open: int, pos: int, mode: TextMode) -> Scan<
    (Seq<char>, bool),
>
    decreases src.len() - pos,
{
    if pos < 0 || pos >= src.len() {
        Scan::Fail {
            error: LexError { kind: mode.unterminated(), start: open, end: src.len() as int },
        }
    } else if let Some((terminal, end)) = mode.closes_at(src, pos) {
        Scan::Match { value: (Seq::empty(), terminal), end }
    } else if src[pos] == '\\' {
        if pos + 1 >= src.len() {
            Scan::Fail {
                error: LexError { kind: mode.unterminated(), start: open, end: src.len() as int },
            }
        } else {
            match escape_at(src, pos + 1) {
                Some((decoded, next)) => if pos + 1 < next <= src.len() {
                    prepend(decoded, text_at(src, open, next, mode))
                } else {
                    Scan::NoMatch
                },
                None => Scan::Fail {
                    error: LexError { kind: DiagnosticKind::InvalidEscape, start: pos, end: pos + 1 },
                },
            }
        }
    } else {
        prepend(seq![src[pos]], text_at(src, open, pos + 1, mode))
    }
}

/// A text either ends behind its start, inside the source, or fails.
pub proof fn lemma_text_at(src: Seq<char>, open: int, pos: int, mode: TextMode)
    requires
        0 <= pos,
    ensures
        text_at(src, open, pos, mode) !is NoMatch,
        text_at(src, open, pos, mode) matches Scan::Match { end, .. } ==> pos < end <= src.len(),
    decreases src.len() - pos,
{
    if pos >= src.len() {
    } else if mode.closes_at(src, pos) is Some {
    } else if src[pos] == '\\' {
        if pos + 1 < src.len() {
            if escape_at(src, pos + 1) is Some {
                lemma_escape_advances(src, pos + 1);
                lemma_text_at(src, open, escape_at(src, pos + 1).unwrap().1, mode);
            }
        }
    } else {
        lemma_text_at(src, open, pos + 1, mode);
    }
}

/// Reads decoded text up to the delimiter that closes it, and that delimiter. The
/// literal was opened at `open`.
pub fn read_text(chars: &mut CodeIter, open: SourcePosition, mode: TextMode) -> (r: Result<
    (String, bool),
    Diagnostic,
>)
    requires
        old(chars).wf(),
        open.offset <= old(chars).offset(),
        open == position_at(old(chars).source(), open.offset as int),
    ensures
        final(chars).follows(old(chars)),
        match text_at(old(chars).source(), open.offset as int, old(chars).offset(), mode) {
            Scan::Match { value, end } => r matches Ok(found) && found.0@ == value.0 && found.1
                == value.1 && final(chars).offset() == end,
            Scan::Fail { error } => r matches Err(d) && d.describes(
                error,
                old(chars).source(),
                old(chars).name(),
            ),
            Scan::NoMatch => false,
        },
{
    let ghost src = chars.source();
    let ghost start = chars.offset();
    let ghost o = open.offset as int;
    proof {
        lemma_text_at(src, o, start, mode);
    }
    let mut text = String::new();
    loop
        invariant
            chars.follows(old(chars)),
            src == chars.source(),
            start == old(chars).offset(),
            o == open.offset,
            o <= start,
            open == position_at(src, o),
            text_at(src, o, start, mode) !is NoMatch,
            text_at(src, o, start, mode) == prepend(text@, text_at(src, o, chars.offset(), mode)),
        decreases src.len() - chars.offset(),
    {
        let ghost pos = chars.offset();
        let ghost before = text@;
        let c = match chars.peek() {
            Some(c) => c,
            None => {
                return Err(Diagnostic::new(unterminated(mode), chars.span_from(open)));
            },
        };
        let second = chars.peek_nth(1);
        match mode {
            TextMode::Quoted(quote) => {
                if c == quote {
                    let _ = chars.next();
                    assert(text@ + Seq::<char>::empty() =~= text@);
                    return Ok((text, true));
                }
            },
            TextMode::Template => {
                if c == '`' {
                    let _ = chars.next();
                    assert(text@ + Seq::<char>::empty() =~= text@);
                    return Ok((text, true));
                }
                if c == '$' && second == Some('{') {
                    chars.advance(2);
                    assert(text@ + Seq::<char>::empty() =~= text@);
                    return Ok((text, false));
                }
            },
        }
        assert(mode.closes_at(src, pos) is None);
        if c == '\\' {
            let backslash = chars.current_position();
            let _ = chars.next();
            if second.is_none() {
                return Err(Diagnostic::new(unterminated(mode), chars.span_from(open)));
            }
            let escape_span = chars.span_from(backslash);
            match parse_escape(chars) {
                Some(decoded) => {
                    proof {
                        lemma_escape_advances(src, pos + 1);
                        let rest = text_at(src, o, chars.offset(), mode);
                        assert(prepend(before, prepend(decoded@, rest)) == prepend(
                            before + decoded@,
                            rest,
                        )) by {
                            if let Scan::Match { value, end } = rest {
                                assert(before + (decoded@ + value.0) =~= (before + decoded@)
                                    + value.0);
                            }
                        }
                    }
                    text.append(decoded.as_str());
                },
                None => {
                    return Err(Diagnostic::new(DiagnosticKind::InvalidEscape, escape_span));
                },
            }
        } else {
            text.push(c);
            let _ = chars.next();
            proof {
                let rest = text_at(src, o, chars.offset(), mode);
                assert(prepend(before, prepend(seq![c], rest)) == prepend(before.push(c), rest)) by {
                    if let Scan::Match { value, end } = rest {
                        assert(before + (seq![c] + value.0) =~= before.push(c) + value.0);
                    }
                }
            }
        }
    }
}

fn unterminated(mode: TextMode) -> (kind: DiagnosticKind)
    ensures
        kind == mode.unterminated(),
{
    match mode {
        TextMode::Quoted(_) => DiagnosticKind::UnterminatedString,
        TextMode::Template => DiagnosticKind::UnterminatedTemplate,
    }
}

/// The string literal at `pos`: a quote, `'` or `"`, and the text up to the next such
/// quote, which closes it.
pub open spec fn string_at(src: Seq<char>, pos: int) -> Scan<Seq<char>> {
    match char_at(src, pos) {
        Some(quote) => if quote == '"' || quote == '\'' {
            match text_at(src, pos, pos + 1, TextMode::Quoted(quote)) {
                Scan::Match { value, end } => Scan::Match { value: value.0, end },
                Scan::Fail { error } => Scan::Fail { error },
                Scan::NoMatch => Scan::NoMatch,
            }
        } else {
            Scan::NoMatch
        },
        None => Scan::NoMatch,
    }
}

/// Reads a string literal at the cursor. Gives `Ok(None)`, with the cursor where it was,
/// where none starts there, and `Err` where one starts and is never closed or holds a
/// malformed escape sequence.
pub fn try_parse_string(chars: &mut CodeIter) -> (r: Result<Option<StringLiteral>, Diagnostic>)
    requires
        old(chars).wf(),
    ensures
        final(chars).follows(old(chars)),
        match string_at(old(chars).source(), old(chars).offset()) {
            Scan::NoMatch => r matches Ok(None) && final(chars).offset() == old(chars).offset(),
            Scan::Match { value, end } => r matches Ok(Some(literal)) && literal.value@ == value
                && final(chars).offset() == end,
            Scan::Fail { error } => r matches Err(d) && d.describes(
                error,
                old(chars).source(),
                old(chars).name(),
            ),
        },
{
    match chars.peek() {
        Some(quote) => {
            if quote == '"' || quote == '\'' {
                let open = chars.current_position();
                let ghost pos = chars.offset();
                let _ = chars.next();
                match read_text(chars, open, TextMode::Quoted(quote)) {
                    Ok(found) => Ok(Some(StringLiteral::new(found.0))),
                    Err(d) => Err(d),
                }
            } else {
                Ok(None)
            }
        },
        None => Ok(None),
    }
}

} // verus!
