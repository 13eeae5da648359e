//! Regular expression literals, and the rule that tells one from a division.

use crate::code_iter::{char_at, CodeIter, Span};
use crate::diagnostic::{Diagnostic, DiagnosticKind, LexError, Scan};
use crate::punctuation::PunctuationType;
use crate::token::{previous_view, Token, TokenView};
use crate::utils::{char_is_alphabetic, lemma_run_end, run_end, CharClass};
use vstd::prelude::*;

verus! {

/// A regular expression literal. The pattern is kept as it was written: it is neither
/// parsed nor checked here.
#[derive(Debug, PartialEq)]
pub struct RegexLiteral {
    pub pattern: String,
    pub flags: String,
}

impl RegexLiteral {
    pub fn new(pattern: String, flags: String) -> (literal: RegexLiteral)
        ensures
            literal.pattern == pattern,
            literal.flags == flags,
    {
        Self { pattern, flags }
    }
}

/// Whether a `/` that follows the token `previous` opens a regular expression: at the
/// start of the text, after an operator, after a comma and after an opening parenthesis.
/// Anywhere else it divides.
pub open spec fn regex_allowed_after(previous: Option<TokenView>) -> bool {
    match previous {
        None => true,
        Some(TokenView::Operator(_)) => true,
        Some(TokenView::Punctuation(kind)) => kind == PunctuationType::Comma || kind
            == PunctuationType::OpenParen,
        Some(_) => false,
    }
}

/// The pattern that starts at `start`, just behind the opening `/`: everything up to the
/// next `/`, which is read too. A line terminator or the end of the text in front of
/// that `/` is an error.
pub open spec fn regex_pattern_at(src: Seq<char>, start: int) -> Scan<Seq<char>> {
    let body_end = run_end(src, start, CharClass::RegexPatternChar);
    if body_end >= src.len() {
        Scan::Fail {
            error: LexError {
                kind: DiagnosticKind::UnterminatedRegex,
                start,
                end: src.len() as int,
            },
        }
    } else if src[body_end] != '/' {
        Scan::Fail {
            error: LexError { kind: DiagnosticKind::LineTerminatorInRegex, start, end: body_end },
        }
    } else {
        Scan::Match { value: src.subrange(start, body_end), end: body_end + 1 }
    }
}

/// The flags that start at `start`, just behind the closing `/`: the longest run of flag
/// letters. Another letter right behind them is an error; anything else is left alone.
pub open spec fn regex_flags_at(src: Seq<char>, start: int) -> Scan<Seq<char>> {
    let flags_end = run_end(src, start, CharClass::RegexFlag);
    if flags_end < src.len() && char_is_alphabetic(src[flags_end]) {
        Scan::Fail {
            error: LexError {
                kind: DiagnosticKind::InvalidRegexFlag(src[flags_end]),
                start: flags_end,
                end: flags_end,
            },
        }
    } else {
        Scan::Match { value: src.subrange(start, flags_end), end: flags_end }
    }
}

/// The regular expression literal at `pos`, given the token in front of it: its pattern
/// and its flags.
pub open spec fn regex_at(src: Seq<char>, pos: int, previous: Option<TokenView>) -> Scan<
    (Seq<char>, Seq<char>),
> {
    if regex_allowed_after(previous) && char_at(src, pos) == Some('/') {
        match regex_pattern_at(src, pos + 1) {
            Scan::Match { value: pattern, end: pattern_end } => match regex_flags_at(
                src,
                pattern_end,
            ) {
                Scan::Match { value: flags, end } => Scan::Match { value: (pattern, flags), end },
                Scan::Fail { error } => Scan::Fail { error },
                Scan::NoMatch => Scan::NoMatch,
            },
            Scan::Fail { error } => Scan::Fail { error },
            Scan::NoMatch => Scan::NoMatch,
        }
    } else {
        Scan::NoMatch
    }
}

/// A regular expression literal ends behind its start, inside the text.
pub proof fn lemma_regex_advances(src: Seq<char>, pos: int, previous: Option<TokenView>)
    requires
        0 <= pos < src.len(),
    ensures
        regex_at(src, pos, previous) matches Scan::Match { end, .. } ==> pos < end <= src.len(),
{
    lemma_run_end(src, pos + 1, CharClass::RegexPatternChar);
    let body_end = run_end(src, pos + 1, CharClass::RegexPatternChar);
    if body_end < src.len() {
        lemma_run_end(src, body_end + 1, CharClass::RegexFlag);
    }
}

/// Reads a pattern, the opening `/` being read already, and the `/` that closes it.
fn parse_regex_pattern(chars: &mut CodeIter) -> (r: Result<String, Diagnostic>)
    requires
        old(chars).wf(),
    ensures
        final(chars).follows(old(chars)),
        match regex_pattern_at(old(chars).source(), old(chars).offset()) {
            Scan::Match { value, end } => r matches Ok(pattern) && pattern@ == value
                && final(chars).offset() == end,
            Scan::Fail { error } => r matches Err(d) && d.describes(
                error,
                old(chars).source(),
                old(chars).name(),
            ),
            Scan::NoMatch => false,
        },
{
    let start_pos = chars.current_position();
    proof {
        lemma_run_end(chars.source(), chars.offset(), CharClass::RegexPatternChar);
    }
    let lexeme = chars.take_while(CharClass::RegexPatternChar);
    match chars.peek() {
        Some(c) => {
            if c == '/' {
                let _ = chars.next();
                Ok(lexeme)
            } else {
                Err(Diagnostic::new(DiagnosticKind::LineTerminatorInRegex, chars.span_from(start_pos)))
            }
        },
        None => Err(Diagnostic::new(DiagnosticKind::UnterminatedRegex, chars.span_from(start_pos))),
    }
}

/// Ends the reading of flags: `flags` were read, `next` is the character behind them,
/// `next_is_alphabetic` says whether that character is a letter, and `at` is where it
/// stands. A letter there is no flag, and an error; anything else ends the flags.
pub fn finish_regex_flags(flags: String, next: Option<char>, next_is_alphabetic: bool, at: Span) -> (r:
    Result<String, Diagnostic>)
    ensures
        match next {
            Some(c) => if next_is_alphabetic {
                r matches Err(d) && d.kind == DiagnosticKind::InvalidRegexFlag(c) && d.span == at
            } else {
                r matches Ok(read) && read == flags
            },
            None => r matches Ok(read) && read == flags,
        },
{
    match next {
        Some(c) => {
            if next_is_alphabetic {
                Err(Diagnostic::new(DiagnosticKind::InvalidRegexFlag(c), at))
            } else {
                Ok(flags)
            }
        },
        None => Ok(flags),
    }
}

/// Reads the flags behind the closing `/`.
fn parse_regex_flags(chars: &mut CodeIter) -> (r: Result<String, Diagnostic>)
    requires
        old(chars).wf(),
    ensures
        final(chars).follows(old(chars)),
        match regex_flags_at(old(chars).source(), old(chars).offset()) {
            Scan::Match { value, end } => r matches Ok(flags) && flags@ == value
                && final(chars).offset() == end,
            Scan::Fail { error } => r matches Err(d) && d.describes(
                error,
                old(chars).source(),
                old(chars).name(),
            ),
            Scan::NoMatch => false,
        },
{
    proof {
        lemma_run_end(chars.source(), chars.offset(), CharClass::RegexFlag);
    }
    let lexeme = chars.take_while(CharClass::RegexFlag);
    let next = chars.peek();
    let next_is_alphabetic = match next {
        Some(c) => c.is_alphabetic(),
        None => false,
    };
    finish_regex_flags(lexeme, next, next_is_alphabetic, chars.current_span())
}

/// Whether a `/` behind `previous_token` opens a regular expression.
pub fn regex_may_follow(previous_token: Option<&Token>) -> (allowed: bool)
    ensures
        allowed == regex_allowed_after(previous_view(previous_token)),
{
    match previous_token {
        None => true,
        Some(Token::Operator(_)) => true,
        Some(Token::Punctuation(p)) => p.kind == PunctuationType::Comma || p.kind
            == PunctuationType::OpenParen,
        Some(_) => false,
    }
}

/// Attempts to read a regular expression literal such as `/foo/g`.
///
/// Gives `Ok(Some(..))` where one was read, `Ok(None)` where the next characters are not
/// a regular expression literal, in which case the cursor has not moved, and `Err` where
/// one starts and is malformed.
///
/// A `/` opens a literal only behind certain tokens, and this function does not know
/// comments: `//` is to be tried as a comment first.
pub fn try_parse_regex_literal(chars: &mut CodeIter, previous_token: Option<&Token>) -> (r: Result<
    Option<RegexLiteral>,
    Diagnostic,
>)
    requires
        old(chars).wf(),
    ensures
        final(chars).follows(old(chars)),
        match regex_at(old(chars).source(), old(chars).offset(), previous_view(previous_token)) {
            Scan::NoMatch => r matches Ok(None) && final(chars).offset() == old(chars).offset(),
            Scan::Match { value, end } => r matches Ok(Some(literal)) && literal.pattern@
                == value.0 && literal.flags@ == value.1 && final(chars).offset() == end,
            Scan::Fail { error } => r matches Err(d) && d.describes(
                error,
                old(chars).source(),
                old(chars).name(),
            ),
        },
{
    if !regex_may_follow(previous_token) {
        return Ok(None);
    }
    match chars.peek() {
        Some(c) => {
            if c == '/' {
                let _ = chars.next();
                let pattern = match parse_regex_pattern(chars) {
                    Ok(pattern) => pattern,
                    Err(d) => {
                        return Err(d);
                    },
                };
                let flags = match parse_regex_flags(chars) {
                    Ok(flags) => flags,
                    Err(d) => {
                        return Err(d);
                    },
                };
                Ok(Some(RegexLiteral { pattern, flags }))
            } else {
                Ok(None)
            }
        },
        None => Ok(None),
    }
}

} // verus!
