use yab_parser::code_iter::{byte_offset, utf8_len, CodeIter, SourcePosition};
use yab_parser::utils::{
    continues_identifier, is_identifier_start, is_line_terminator, same_text, starts_identifier,
    CharClass,
};

#[test]
fn cursor_starts_at_line_one_column_one() {
    let chars = CodeIter::new("ab", "script.js");
    assert_eq!(
        chars.current_position(),
        SourcePosition { offset: 0, line: 1, column: 1 }
    );
    assert!(!chars.is_at_end());
}

#[test]
fn cursor_peek_does_not_move() {
    let chars = CodeIter::new("ab", "script.js");
    assert_eq!(chars.peek(), Some('a'));
    assert_eq!(chars.peek(), Some('a'));
    assert_eq!(chars.peek_nth(1), Some('b'));
    assert_eq!(chars.peek_nth(2), None);
    assert_eq!(chars.current_position().offset, 0);
}

#[test]
fn cursor_counts_lines_and_columns() {
    let mut chars = CodeIter::new("ab\ncd\r\u{2028}e", "script.js");
    assert_eq!(chars.next(), Some('a'));
    assert_eq!(chars.current_position(), SourcePosition { offset: 1, line: 1, column: 2 });
    assert_eq!(chars.next(), Some('b'));
    assert_eq!(chars.next(), Some('\n'));
    assert_eq!(chars.current_position(), SourcePosition { offset: 3, line: 2, column: 1 });
    assert_eq!(chars.next(), Some('c'));
    assert_eq!(chars.next(), Some('d'));
    assert_eq!(chars.current_position(), SourcePosition { offset: 5, line: 2, column: 3 });
    assert_eq!(chars.next(), Some('\r'));
    assert_eq!(chars.current_position(), SourcePosition { offset: 6, line: 3, column: 1 });
    assert_eq!(chars.next(), Some('\u{2028}'));
    assert_eq!(chars.current_position(), SourcePosition { offset: 7, line: 4, column: 1 });
    assert_eq!(chars.next(), Some('e'));
    assert_eq!(chars.current_position(), SourcePosition { offset: 8, line: 4, column: 2 });
    assert!(chars.is_at_end());
    assert_eq!(chars.next(), None);
    assert_eq!(chars.current_position(), SourcePosition { offset: 8, line: 4, column: 2 });
}

#[test]
fn cursor_offsets_count_characters() {
    let mut chars = CodeIter::new("é√x", "script.js");
    chars.advance(2);
    assert_eq!(chars.current_position(), SourcePosition { offset: 2, line: 1, column: 3 });
    assert_eq!(chars.next(), Some('x'));
}

#[test]
fn cursor_on_empty_text() {
    let mut chars = CodeIter::new("", "script.js");
    assert!(chars.is_at_end());
    assert_eq!(chars.peek(), None);
    assert_eq!(chars.next(), None);
    assert_eq!(chars.current_position(), SourcePosition { offset: 0, line: 1, column: 1 });
}

#[test]
fn cursor_spans() {
    let mut chars = CodeIter::new("ab\ncd", "unit.js");
    chars.advance(1);
    let start = chars.current_position();
    chars.advance(3);
    let span = chars.span_from(start);
    assert_eq!(span.source_name, "unit.js");
    assert_eq!(span.start, SourcePosition { offset: 1, line: 1, column: 2 });
    assert_eq!(span.end, SourcePosition { offset: 4, line: 2, column: 2 });
    let here = chars.current_span();
    assert_eq!(here.start, here.end);
    assert_eq!(here.start.offset, 4);
}

#[test]
fn cursor_take_while_reads_the_maximal_run() {
    let mut chars = CodeIter::new("123abc", "script.js");
    assert_eq!(chars.take_while(CharClass::Digit), "123");
    assert_eq!(chars.current_position().offset, 3);
    assert_eq!(chars.take_while(CharClass::Digit), "");
    assert_eq!(chars.current_position().offset, 3);
    assert_eq!(chars.take_while(CharClass::IdentifierPart), "abc");
    assert!(chars.is_at_end());
}

#[test]
fn cursor_starts_with() {
    let mut chars = CodeIter::new("a===b", "script.js");
    assert!(chars.starts_with("a="));
    assert!(chars.starts_with(""));
    assert!(!chars.starts_with("=="));
    chars.advance(1);
    assert!(chars.starts_with("==="));
    assert!(!chars.starts_with("===="));
    chars.advance(3);
    assert!(chars.starts_with("b"));
    assert!(!chars.starts_with("bb"));
}

#[test]
fn char_classes() {
    assert!(CharClass::Digit.contains('0'));
    assert!(CharClass::Digit.contains('9'));
    assert!(!CharClass::Digit.contains('a'));
    assert!(CharClass::HexDigit.contains('f'));
    assert!(CharClass::HexDigit.contains('A'));
    assert!(!CharClass::HexDigit.contains('g'));
    assert!(CharClass::IdentifierPart.contains('_'));
    assert!(CharClass::IdentifierPart.contains('7'));
    assert!(!CharClass::IdentifierPart.contains('-'));
    assert!(CharClass::RegexFlag.contains('y'));
    assert!(!CharClass::RegexFlag.contains('z'));
    assert!(CharClass::LineContent.contains('/'));
    assert!(!CharClass::LineContent.contains('\n'));
    assert!(!CharClass::RegexPatternChar.contains('/'));
    assert!(!CharClass::RegexPatternChar.contains('\r'));
    assert!(CharClass::RegexPatternChar.contains('a'));
}

#[test]
fn line_terminators() {
    assert!(is_line_terminator('\n'));
    assert!(is_line_terminator('\r'));
    assert!(is_line_terminator('\u{2028}'));
    assert!(is_line_terminator('\u{2029}'));
    assert!(!is_line_terminator(' '));
    assert!(!is_line_terminator('\t'));
}

#[test]
fn same_text_compares_characters() {
    assert!(same_text("abc", "abc"));
    assert!(same_text("", ""));
    assert!(!same_text("abc", "abd"));
    assert!(!same_text("abc", "ab"));
}

#[test]
fn identifier_characters() {
    assert!(starts_identifier('a', true));
    assert!(starts_identifier('_', false));
    assert!(starts_identifier('$', false));
    assert!(!starts_identifier('1', false));
    assert!(!starts_identifier('-', false));
    assert!(continues_identifier('1', true));
    assert!(continues_identifier('_', false));
    assert!(continues_identifier('$', false));
    assert!(!continues_identifier('-', false));
    assert!(is_identifier_start('x'));
    assert!(is_identifier_start('é'));
    assert!(!is_identifier_start('9'));
    assert!(!is_identifier_start('٣'));
    assert!(CharClass::IdentifierPart.contains('٣'));
    assert!(CharClass::IdentifierPart.contains('é'));
}

#[test]
fn bytes_of_characters() {
    assert_eq!(utf8_len('a'), 1);
    assert_eq!(utf8_len('\u{7f}'), 1);
    assert_eq!(utf8_len('\u{80}'), 2);
    assert_eq!(utf8_len('é'), 2);
    assert_eq!(utf8_len('\u{7ff}'), 2);
    assert_eq!(utf8_len('\u{800}'), 3);
    assert_eq!(utf8_len('√'), 3);
    assert_eq!(utf8_len('\u{ffff}'), 3);
    assert_eq!(utf8_len('\u{10000}'), 4);
    assert_eq!(utf8_len('\u{10ffff}'), 4);
    for c in ['a', 'é', '√', '😀'] {
        assert_eq!(utf8_len(c), c.len_utf8());
    }
}

#[test]
fn byte_offsets_of_characters() {
    let src = "aé√😀b";
    assert_eq!(byte_offset(src, 0), 0);
    assert_eq!(byte_offset(src, 1), 1);
    assert_eq!(byte_offset(src, 2), 3);
    assert_eq!(byte_offset(src, 3), 6);
    assert_eq!(byte_offset(src, 4), 10);
    assert_eq!(byte_offset(src, 5), 11);
    assert_eq!(byte_offset(src, 6), 11);
    assert_eq!(byte_offset(src, usize::MAX), src.len());
    assert_eq!(byte_offset("", 0), 0);
    assert_eq!(byte_offset("", 3), 0);
    for (index, (at, _)) in src.char_indices().enumerate() {
        assert_eq!(byte_offset(src, index), at);
    }
}
