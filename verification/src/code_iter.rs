//! The source cursor: a character stream over one named source unit that keeps track of
//! its position and builds spans.

use crate::utils::{is_line_terminator, line_terminator, run_end, CharClass};
use vstd::prelude::*;
use vstd::string::{StrSliceExecFns, StringSliceAdditionalSpecFns};
use vstd::utf8::{encode_scalar, encode_utf8};

verus! {

/// A place in a source unit: the index of a character, and the line and column it is on,
/// both counted from 1.
#[derive(Clone, Copy, Debug, PartialEq, Eq, Structural)]
pub struct SourcePosition {
    pub offset: usize,
    pub line: usize,
    pub column: usize,
}

/// A stretch of a source unit, from `start` up to `end`.
#[derive(Clone, Debug, PartialEq, Eq)]
pub struct Span {
    pub source_name: String,
    pub start: SourcePosition,
    pub end: SourcePosition,
}

/// The line of the character at `offset`: one more than the number of line terminators in
/// front of it.
pub open spec fn line_at(src: Seq<char>, offset: int) -> int
    decreases offset,
{
    if offset <= 0 || offset > src.len() {
        1
    } else if line_terminator(src[offset - 1]) {
        line_at(src, offset - 1) + 1
    } else {
        line_at(src, offset - 1)
    }
}

/// The column of the character at `offset`: one more than the number of characters
/// between it and the line terminator in front of it, or the start of the text.
pub open spec fn column_at(src: Seq<char>, offset: int) -> int
    decreases offset,
{
    if offset <= 0 || offset > src.len() || line_terminator(src[offset - 1]) {
        1
    } else {
        column_at(src, offset - 1) + 1
    }
}

/// The position of the character at `offset` in `src`.
pub open spec fn position_at(src: Seq<char>, offset: int) -> SourcePosition {
    SourcePosition {
        offset: offset as usize,
        line: line_at(src, offset) as usize,
        column: column_at(src, offset) as usize,
    }
}

/// Lines and columns start at 1 and never exceed the number of characters passed by
/// more than one.
pub proof fn lemma_position_bounds(src: Seq<char>, offset: int)
    requires
        0 <= offset <= src.len(),
    ensures
        1 <= line_at(src, offset) <= offset + 1,
        1 <= column_at(src, offset) <= offset + 1,
    decreases offset,
{
    if offset > 0 {
        lemma_position_bounds(src, offset - 1);
    }
}

/// A position further into the text is never on an earlier line.
pub proof fn lemma_line_never_decreases(src: Seq<char>, from: int, to: int)
    requires
        0 <= from <= to <= src.len(),
    ensures
        line_at(src, from) <= line_at(src, to),
    decreases to - from,
{
    if from < to {
        lemma_line_never_decreases(src, from, to - 1);
    }
}

/// The number of bytes that the first `offset` characters of `src` take up in UTF-8:
/// the index of the byte with which the character at `offset` starts.
pub open spec fn byte_offset_at(src: Seq<char>, offset: int) -> int {
    encode_utf8(src.take(offset)).len() as int
}

/// A character more at the end of a text is its encoding more at the end of the
/// encoding of the text.
pub proof fn lemma_encode_push(chars: Seq<char>, c: char)
    ensures
        encode_utf8(chars.push(c)) == encode_utf8(chars) + encode_scalar(c as u32),
    decreases chars.len(),
{
    if chars.len() == 0 {
        let one = chars.push(c);
        assert(one.drop_first() =~= chars);
        assert(encode_utf8(one) == encode_scalar(one[0] as u32) + encode_utf8(one.drop_first()));
        assert(encode_utf8(chars) =~= Seq::<u8>::empty());
        assert(encode_scalar(c as u32) + encode_utf8(chars) =~= encode_utf8(chars) + encode_scalar(
            c as u32,
        ));
    } else {
        let first = encode_scalar(chars[0] as u32);
        let rest = chars.drop_first();
        lemma_encode_push(rest, c);
        assert(chars.push(c).drop_first() =~= rest.push(c));
        assert(chars.push(c)[0] == chars[0]);
        assert(encode_utf8(chars.push(c)) == first + encode_utf8(rest.push(c)));
        assert(encode_utf8(chars) == first + encode_utf8(rest));
        assert(first + (encode_utf8(rest) + encode_scalar(c as u32)) =~= (first + encode_utf8(rest))
            + encode_scalar(c as u32));
    }
}

/// The character at `offset` starts behind the bytes of the characters in front of it,
/// and the next one behind its own bytes.
pub proof fn lemma_byte_offset_step(src: Seq<char>, offset: int)
    requires
        0 <= offset < src.len(),
    ensures
        byte_offset_at(src, offset + 1) == byte_offset_at(src, offset) + encode_scalar(
            src[offset] as u32,
        ).len(),
{
    assert(src.take(offset + 1) =~= src.take(offset).push(src[offset]));
    lemma_encode_push(src.take(offset), src[offset]);
}

/// A character further into the text starts at a later byte, or the same.
pub proof fn lemma_byte_offset_never_decreases(src: Seq<char>, from: int, to: int)
    requires
        0 <= from <= to <= src.len(),
    ensures
        byte_offset_at(src, from) <= byte_offset_at(src, to),
    decreases to - from,
{
    if from < to {
        lemma_byte_offset_never_decreases(src, from, to - 1);
        lemma_byte_offset_step(src, to - 1);
    }
}

/// The number of bytes that `c` takes up in UTF-8.
pub fn utf8_len(c: char) -> (n: usize)
    ensures
        n == encode_scalar(c as u32).len(),
        1 <= n <= 4,
{
    let code: u32 = c as u32;
    if code <= 0x7F {
        1
    } else if code <= 0x7FF {
        2
    } else if code <= 0xFFFF {
        3
    } else {
        4
    }
}

/// The index of the byte of `src` with which its character at `offset` starts; the
/// number of bytes of `src` where it has no more than `offset` characters.
pub fn byte_offset(src: &str, offset: usize) -> (bytes: usize)
    ensures
        bytes == byte_offset_at(
            src@,
            if offset <= src@.len() {
                offset as int
            } else {
                src@.len() as int
            },
        ),
{
    let total: usize = src.as_bytes().len();
    let mut bytes: usize = 0;
    let mut passed: usize = 0;
    assert(src@.take(0) =~= Seq::<char>::empty());
    for c in it: src.chars()
        invariant
            it.seq() == src@,
            total == encode_utf8(src@).len(),
            passed <= offset,
            passed == it.index() || (passed == offset && offset <= it.index()),
            bytes == byte_offset_at(src@, passed as int),
    {
        if passed < offset {
            proof {
                lemma_byte_offset_step(src@, passed as int);
                lemma_byte_offset_never_decreases(src@, passed + 1, src@.len() as int);
                assert(src@.take(src@.len() as int) =~= src@);
            }
            bytes = bytes + utf8_len(c);
            passed = passed + 1;
        }
    }
    bytes
}

/// Whether the characters of `lexeme` stand in `src` from index `pos` on.
pub open spec fn has_prefix_at(src: Seq<char>, pos: int, lexeme: Seq<char>) -> bool {
    &&& 0 <= pos
    &&& pos + lexeme.len() <= src.len()
    &&& src.subrange(pos, pos + lexeme.len()) == lexeme
}

/// The character at index `pos`, if there is one.
pub open spec fn char_at(src: Seq<char>, pos: int) -> Option<char> {
    if 0 <= pos < src.len() {
        Some(src[pos])
    } else {
        None
    }
}

/// A cursor over the characters of one source unit. It only ever moves forward.
pub struct CodeIter {
    chars: Vec<char>,
    file_name: String,
    position: SourcePosition,
}

impl CodeIter {
    /// The whole text that the cursor runs over.
    pub closed spec fn source(&self) -> Seq<char> {
        self.chars@
    }

    /// The name of the source unit.
    pub closed spec fn name(&self) -> Seq<char> {
        self.file_name@
    }

    /// Where the cursor stands.
    pub closed spec fn position(&self) -> SourcePosition {
        self.position
    }

    /// The index of the next character to be read.
    pub open spec fn offset(&self) -> int {
        self.position().offset as int
    }

    /// The cursor stands inside its text, and its line and column are those of its offset.
    pub open spec fn wf(&self) -> bool {
        &&& self.offset() <= self.source().len() < usize::MAX
        &&& self.position() == position_at(self.source(), self.offset())
    }

    /// `self` is a later state of the cursor `before`: same text, same name, and not
    /// further back.
    pub open spec fn follows(&self, before: &CodeIter) -> bool {
        &&& self.wf()
        &&& self.source() == before.source()
        &&& self.name() == before.name()
        &&& before.offset() <= self.offset()
    }

    /// A cursor at the start of `src`.
    pub fn new(src: &str, file_name: &str) -> (iter: CodeIter)
        requires
            src@.len() < usize::MAX,
        ensures
            iter.wf(),
            iter.source() == src@,
            iter.name() == file_name@,
            iter.offset() == 0,
    {
        let mut chars: Vec<char> = Vec::new();
        for c in it: src.chars()
            invariant
                chars@ == it.seq().take(it.index() as int),
        {
            chars.push(c);
        }
        CodeIter {
            chars,
            file_name: file_name.to_owned(),
            position: SourcePosition { offset: 0, line: 1, column: 1 },
        }
    }

    /// The next character, without moving.
    pub fn peek(&self) -> (c: Option<char>)
        requires
            self.wf(),
        ensures
            c == char_at(self.source(), self.offset()),
    {
        if self.position.offset < self.chars.len() {
            Some(self.chars[self.position.offset])
        } else {
            None
        }
    }

    /// The character `n` places after the next one, without moving.
    pub fn peek_nth(&self, n: usize) -> (c: Option<char>)
        requires
            self.wf(),
        ensures
            c == char_at(self.source(), self.offset() + n),
    {
        if n < self.chars.len() - self.position.offset {
            Some(self.chars[self.position.offset + n])
        } else {
            None
        }
    }

    /// Whether every character has been read.
    pub fn is_at_end(&self) -> (b: bool)
        requires
            self.wf(),
        ensures
            b == (self.offset() >= self.source().len()),
    {
        self.position.offset >= self.chars.len()
    }

    /// Reads the next character and moves past it. After a line terminator the cursor is
    /// in column 1 of the next line; after any other character it is one column further.
    pub fn next(&mut self) -> (c: Option<char>)
        requires
            old(self).wf(),
        ensures
            final(self).follows(old(self)),
            c == char_at(old(self).source(), old(self).offset()),
            final(self).offset() == if c is Some {
                old(self).offset() + 1
            } else {
                old(self).offset()
            },
    {
        if self.position.offset < self.chars.len() {
            let c = self.chars[self.position.offset];
            proof {
                lemma_position_bounds(self.chars@, self.position.offset as int);
                lemma_position_bounds(self.chars@, self.position.offset as int + 1);
            }
            if is_line_terminator(c) {
                self.position = SourcePosition {
                    offset: self.position.offset + 1,
                    line: self.position.line + 1,
                    column: 1,
                };
            } else {
                self.position = SourcePosition {
                    offset: self.position.offset + 1,
                    line: self.position.line,
                    column: self.position.column + 1,
                };
            }
            Some(c)
        } else {
            None
        }
    }

    /// Moves past the next `n` characters.
    pub fn advance(&mut self, n: usize)
        requires
            old(self).wf(),
            old(self).offset() + n <= old(self).source().len(),
        ensures
            final(self).follows(old(self)),
            final(self).offset() == old(self).offset() + n,
    {
        let mut done: usize = 0;
        while done < n
            invariant
                done <= n,
                self.follows(old(self)),
                self.offset() == old(self).offset() + done,
                old(self).offset() + n <= old(self).source().len(),
            decreases n - done,
        {
            self.next();
            done = done + 1;
        }
    }

    /// Where the cursor stands.
    pub fn current_position(&self) -> (p: SourcePosition)
        requires
            self.wf(),
        ensures
            p == position_at(self.source(), self.offset()),
    {
        self.position
    }

    /// The span from `start` to where the cursor stands.
    pub fn span_from(&self, start: SourcePosition) -> (span: Span)
        requires
            self.wf(),
        ensures
            span.source_name@ == self.name(),
            span.start == start,
            span.end == position_at(self.source(), self.offset()),
    {
        Span { source_name: self.file_name.clone(), start, end: self.position }
    }

    /// The empty span at the cursor.
    pub fn current_span(&self) -> (span: Span)
        requires
            self.wf(),
        ensures
            span.source_name@ == self.name(),
            span.start == position_at(self.source(), self.offset()),
            span.end == position_at(self.source(), self.offset()),
    {
        self.span_from(self.position)
    }

    /// Reads the maximal run of characters of `class` at the cursor and returns it.
    pub fn take_while(&mut self, class: CharClass) -> (text: String)
        requires
            old(self).wf(),
        ensures
            final(self).follows(old(self)),
            final(self).offset() == run_end(old(self).source(), old(self).offset(), class),
            text@ == old(self).source().subrange(old(self).offset(), final(self).offset()),
    {
        let mut text = String::new();
        let ghost src = self.source();
        let ghost start = self.offset();
        while self.position.offset < self.chars.len() && class.contains(
            self.chars[self.position.offset],
        )
            invariant
                self.follows(old(self)),
                src == self.source(),
                start == old(self).offset(),
                text@ == src.subrange(start, self.offset()),
                run_end(src, start, class) == run_end(src, self.offset(), class),
            decreases self.source().len() - self.offset(),
        {
            let ghost before = self.offset();
            let c = self.chars[self.position.offset];
            text.push(c);
            self.next();
            assert(src.subrange(start, before).push(src[before]) =~= src.subrange(
                start,
                before + 1,
            ));
        }
        text
    }

    /// Whether the characters of `lexeme` are the next ones to be read.
    pub fn starts_with(&self, lexeme: &str) -> (b: bool)
        requires
            self.wf(),
        ensures
            b == has_prefix_at(self.source(), self.offset(), lexeme@),
    {
        let len: usize = lexeme.unicode_len();
        if len > self.chars.len() - self.position.offset {
            return false;
        }
        let start: usize = self.position.offset;
        let mut i: usize = 0;
        while i < len
            invariant
                i <= len,
                len == lexeme@.len(),
                start == self.offset(),
                self.wf(),
                start + len <= self.source().len(),
                forall|k: int| 0 <= k < i ==> self.source()[start + k] == lexeme@[k],
            decreases len - i,
        {
            if self.chars[start + i] != lexeme.get_char(i) {
                assert(self.source().subrange(start as int, start + len)[i as int] != lexeme@[i as int]);
                return false;
            }
            i = i + 1;
        }
        assert(self.source().subrange(start as int, start + len) =~= lexeme@);
        true
    }
}

} // verus!
