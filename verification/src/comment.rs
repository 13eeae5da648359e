//! Comments: line comments, block comments, and the hashbang line.

use crate::code_iter::{char_at, position_at, CodeIter};
use crate::diagnostic::{Diagnostic, DiagnosticKind, LexError, Scan};
use crate::utils::{lemma_run_end, run_end, CharClass};
use vstd::prelude::*;

verus! {

/// The kinds of comment, each with its text, delimiters left out.
#[derive(Debug, PartialEq)]
pub enum CommentType {
    /// `// ...` up to the end of the line.
    Line(String),
    /// `/* ... */`.
    Block(String),
    /// `#! ...` up to the end of the line, in front of every other token.
    Hashbang(String),
}

pub enum CommentView {
    Line(Seq<char>),
    Block(Seq<char>),
    Hashbang(Seq<char>),
}

impl View for CommentType {
    type V = CommentView;

    open spec fn view(&self) -> CommentView {
        match self {
            CommentType::Line(text) => CommentView::Line(text@),
            CommentType::Block(text) => CommentView::Block(text@),
            CommentType::Hashbang(text) => CommentView::Hashbang(text@),
        }
    }
}

/// A comment token.
#[derive(Debug, PartialEq)]
pub struct Comment {
    pub kind: CommentType,
}

impl Comment {
    pub fn new(kind: CommentType) -> (c: Comment)
        ensures
            c.kind == kind,
    {
        Self { kind }
    }
}

/// Where a comment that runs to the end of the line ends, its text ending at `text_end`:
/// behind the line terminator, which belongs to it, or at the end of the text.
pub open spec fn line_comment_end(src: Seq<char>, text_end: int) -> int {
    if text_end < src.len() {
        text_end + 1
    } else {
        text_end
    }
}

/// The hashbang line at `pos`: `#!` and the rest of the line.
pub open spec fn hashbang_at(src: Seq<char>, pos: int) -> Option<(CommentView, int)> {
    if char_at(src, pos) == Some('#') && char_at(src, pos + 1) == Some('!') {
        let text_end = run_end(src, pos + 2, CharClass::LineContent);
        Some(
            (
                CommentView::Hashbang(src.subrange(pos + 2, text_end)),
                line_comment_end(src, text_end),
            ),
        )
    } else {
        None
    }
}

/// The first index at or after `pos` at which `*/` stands, or the length of `src` where it
/// stands nowhere.
pub open spec fn block_comment_close(src: Seq<char>, pos: int) -> int
    decreases src.len() - pos,
{
    if pos < 0 || pos >= src.len() {
        src.len() as int
    } else if src[pos] == '*' && char_at(src, pos + 1) == Some('/') {
        pos
    } else {
        block_comment_close(src, pos + 1)
    }
}

/// `block_comment_close` is the first place at which `*/` stands.
pub proof fn lemma_block_comment_close(src: Seq<char>, pos: int)
    requires
        0 <= pos <= src.len(),
    ensures
        pos <= block_comment_close(src, pos) <= src.len(),
        block_comment_close(src, pos) < src.len() ==> {
            &&& src[block_comment_close(src, pos)] == '*'
            &&& block_comment_close(src, pos) + 1 < src.len()
            &&& src[block_comment_close(src, pos) + 1] == '/'
        },
        forall|i: int|
            pos <= i < block_comment_close(src, pos) ==> !(#[trigger] src[i] == '*' && char_at(
                src,
                i + 1,
            ) == Some('/')),
    decreases src.len() - pos,
{
    if pos < src.len() && !(src[pos] == '*' && char_at(src, pos + 1) == Some('/')) {
        lemma_block_comment_close(src, pos + 1);
    }
}

/// The comment at `pos`: `//` and the rest of the line, or `/*` and everything up to
/// the next `*/`. A block comment that the text ends in is an error.
pub open spec fn comment_at(src: Seq<char>, pos: int) -> Scan<CommentView> {
    if char_at(src, pos) == Some('/') && char_at(src, pos + 1) == Some('/') {
        let text_end = run_end(src, pos + 2, CharClass::LineContent);
        Scan::Match {
            value: CommentView::Line(src.subrange(pos + 2, text_end)),
            end: line_comment_end(src, text_end),
        }
    } else if char_at(src, pos) == Some('/') && char_at(src, pos + 1) == Some('*') {
        let close = block_comment_close(src, pos + 2);
        if close >= src.len() {
            Scan::Fail {
                error: LexError {
                    kind: DiagnosticKind::UnterminatedComment,
                    start: pos,
                    end: src.len() as int,
                },
            }
        } else {
            Scan::Match { value: CommentView::Block(src.subrange(pos + 2, close)), end: close + 2 }
        }
    } else {
        Scan::NoMatch
    }
}

/// Reads the rest of the line, and the line terminator behind it.
fn read_line(chars: &mut CodeIter) -> (text: String)
    requires
        old(chars).wf(),
    ensures
        final(chars).follows(old(chars)),
        text@ == old(chars).source().subrange(
            old(chars).offset(),
            run_end(old(chars).source(), old(chars).offset(), CharClass::LineContent),
        ),
        final(chars).offset() == line_comment_end(
            old(chars).source(),
            run_end(old(chars).source(), old(chars).offset(), CharClass::LineContent),
        ),
{
    proof {
        lemma_run_end(chars.source(), chars.offset(), CharClass::LineContent);
    }
    let text = chars.take_while(CharClass::LineContent);
    let _ = chars.next();
    text
}

/// Reads a hashbang line at the cursor. Where none stands there, the cursor stays where
/// it is. Only in front of every other token is such a line a comment.
pub fn try_parse_hashbang_comment(chars: &mut CodeIter) -> (c: Option<Comment>)
    requires
        old(chars).wf(),
    ensures
        final(chars).follows(old(chars)),
        match hashbang_at(old(chars).source(), old(chars).offset()) {
            Some((value, end)) => c matches Some(comment) && comment.kind@ == value
                && final(chars).offset() == end,
            None => c is None && final(chars).offset() == old(chars).offset(),
        },
{
    if chars.peek() == Some('#') && chars.peek_nth(1) == Some('!') {
        chars.advance(2);
        let text = read_line(chars);
        Some(Comment::new(CommentType::Hashbang(text)))
    } else {
        None
    }
}

/// Reads a comment at the cursor. Gives `Ok(None)`, with the cursor where it was, where
/// none starts there, and `Err` for a block comment that is never closed.
pub fn try_parse_comment(chars: &mut CodeIter) -> (r: Result<Option<Comment>, Diagnostic>)
    requires
        old(chars).wf(),
    ensures
        final(chars).follows(old(chars)),
        match comment_at(old(chars).source(), old(chars).offset()) {
            Scan::NoMatch => r matches Ok(None) && final(chars).offset() == old(chars).offset(),
            Scan::Match { value, end } => r matches Ok(Some(comment)) && comment.kind@ == value
                && final(chars).offset() == end,
            Scan::Fail { error } => r matches Err(d) && d.describes(
                error,
                old(chars).source(),
                old(chars).name(),
            ),
        },
{
    if chars.peek() != Some('/') {
        return Ok(None);
    }
    let second = chars.peek_nth(1);
    if second == Some('/') {
        chars.advance(2);
        let text = read_line(chars);
        Ok(Some(Comment::new(CommentType::Line(text))))
    } else if second == Some('*') {
        let start_pos = chars.current_position();
        let ghost src = chars.source();
        let ghost pos = chars.offset();
        chars.advance(2);
        let mut text = String::new();
        loop
            invariant
                chars.follows(old(chars)),
                src == chars.source(),
                pos == old(chars).offset(),
                pos + 2 <= chars.offset(),
                char_at(src, pos) == Some('/'),
                char_at(src, pos + 1) == Some('*'),
                start_pos == position_at(src, pos),
                text@ == src.subrange(pos + 2, chars.offset()),
                block_comment_close(src, pos + 2) == block_comment_close(src, chars.offset()),
            decreases src.len() - chars.offset(),
        {
            match chars.peek() {
                None => {
                    return Err(
                        Diagnostic::new(
                            DiagnosticKind::UnterminatedComment,
                            chars.span_from(start_pos),
                        ),
                    );
                },
                Some(c) => {
                    if c == '*' && chars.peek_nth(1) == Some('/') {
                        chars.advance(2);
                        return Ok(Some(Comment::new(CommentType::Block(text))));
                    }
                    let ghost before = chars.offset();
                    text.push(c);
                    let _ = chars.next();
                    assert(src.subrange(pos + 2, before).push(src[before]) =~= src.subrange(
                        pos + 2,
                        before + 1,
                    ));
                },
            }
        }
    } else {
        Ok(None)
    }
}

} // verus!
