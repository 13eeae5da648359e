use yab_parser::code_iter::{CodeIter, SourcePosition, Span};
use yab_parser::diagnostic::DiagnosticKind;
use yab_parser::ident::Identifier;
use yab_parser::operator::{Operator, OperatorType};
use yab_parser::punctuation::{Punctuation, PunctuationType};
use yab_parser::regex::{
    finish_regex_flags, regex_may_follow, try_parse_regex_literal, RegexLiteral,
};
use yab_parser::Token;

#[test]
fn test_try_parse_regex_literal() {
    let mut chars = CodeIter::new("/foo/g", "script.js");
    let result = try_parse_regex_literal(&mut chars, None).unwrap().unwrap();
    assert_eq!(
        result,
        RegexLiteral {
            pattern: "foo".to_string(),
            flags: "g".to_string(),
        }
    );
}

#[test]
fn test_regex_without_flags() {
    let mut chars = CodeIter::new("/foo/", "script.js");
    let result = try_parse_regex_literal(&mut chars, None).unwrap().unwrap();
    assert_eq!(
        result,
        RegexLiteral {
            pattern: "foo".to_string(),
            flags: "".to_string(),
        }
    );
}

#[test]
fn test_regex_with_invalid_flags() {
    let mut chars = CodeIter::new("/foo/z", "script.js");
    let result = try_parse_regex_literal(&mut chars, None);

    assert!(result
        .unwrap_err()
        .message()
        .contains("Invalid regular expression flag 'z'"));
}

#[test]
fn test_regex_with_unexpected_line_break() {
    let mut chars = CodeIter::new("/foo\n/z", "script.js");
    let result = try_parse_regex_literal(&mut chars, None);

    assert!(result
        .unwrap_err()
        .message()
        .contains("Unexpected line terminator while parsing regular expression"));
}

#[test]
fn test_regex_flags_do_not_eat_next_chars() {
    let mut chars = CodeIter::new("/foo/g.", "script.js");
    let result = try_parse_regex_literal(&mut chars, None).unwrap().unwrap();
    assert_eq!(
        result,
        RegexLiteral {
            pattern: "foo".to_string(),
            flags: "g".to_string(),
        }
    );
    assert_eq!(chars.next(), Some('.'));
}

#[test]
fn regex_new_keeps_pattern_and_flags() {
    let literal = RegexLiteral::new("a+b".to_string(), "gi".to_string());
    assert_eq!(literal.pattern, "a+b");
    assert_eq!(literal.flags, "gi");
}

#[test]
fn regex_invalid_flag_diagnostic_is_at_the_flag() {
    let mut chars = CodeIter::new("/foo/gz", "script.js");
    let error = try_parse_regex_literal(&mut chars, None).unwrap_err();
    assert_eq!(error.kind, DiagnosticKind::InvalidRegexFlag('z'));
    assert_eq!(error.span.source_name, "script.js");
    assert_eq!(error.span.start.offset, 6);
    assert_eq!(error.span.start.line, 1);
    assert_eq!(error.span.start.column, 7);
    assert_eq!(error.span.end, error.span.start);
}

#[test]
fn regex_line_terminator_diagnostic_spans_the_pattern() {
    let mut chars = CodeIter::new("/foo\n/z", "script.js");
    let error = try_parse_regex_literal(&mut chars, None).unwrap_err();
    assert_eq!(error.kind, DiagnosticKind::LineTerminatorInRegex);
    assert_eq!(error.span.start.offset, 1);
    assert_eq!(error.span.end.offset, 4);
    assert_eq!(error.span.end.line, 1);
}

#[test]
fn regex_that_never_ends_is_unterminated() {
    let mut chars = CodeIter::new("/foo", "script.js");
    let error = try_parse_regex_literal(&mut chars, None).unwrap_err();
    assert_eq!(error.kind, DiagnosticKind::UnterminatedRegex);
    assert_eq!(error.message(), "Unexpected EOF while parsing regular expression");
    assert_eq!(error.span.start.offset, 1);
    assert_eq!(error.span.end.offset, 4);
}

#[test]
fn regex_pattern_is_kept_verbatim() {
    let mut chars = CodeIter::new("/a\\d[b]+/", "script.js");
    let result = try_parse_regex_literal(&mut chars, None).unwrap().unwrap();
    assert_eq!(result.pattern, "a\\d[b]+");
    assert_eq!(result.flags, "");
}

#[test]
fn regex_takes_every_flag() {
    let mut chars = CodeIter::new("/x/gimsuy;", "script.js");
    let result = try_parse_regex_literal(&mut chars, None).unwrap().unwrap();
    assert_eq!(result.flags, "gimsuy");
    assert_eq!(chars.next(), Some(';'));
}

#[test]
fn regex_flags_end_at_white_space() {
    let mut chars = CodeIter::new("/x/g z", "script.js");
    let result = try_parse_regex_literal(&mut chars, None).unwrap().unwrap();
    assert_eq!(result.flags, "g");
    assert_eq!(chars.next(), Some(' '));
}

#[test]
fn regex_follows_operator_comma_and_open_paren() {
    let allowed = vec![
        Token::Operator(Operator::new(OperatorType::Assignment)),
        Token::Operator(Operator::new(OperatorType::Await)),
        Token::Punctuation(Punctuation::new(PunctuationType::Comma)),
        Token::Punctuation(Punctuation::new(PunctuationType::OpenParen)),
    ];
    for previous in allowed {
        assert!(regex_may_follow(Some(&previous)));
        let mut chars = CodeIter::new("/foo/g", "script.js");
        let result = try_parse_regex_literal(&mut chars, Some(&previous)).unwrap().unwrap();
        assert_eq!(result, RegexLiteral::new("foo".to_string(), "g".to_string()));
    }
    assert!(regex_may_follow(None));
}

#[test]
fn regex_does_not_follow_other_tokens() {
    let refused = vec![
        Token::Ident(Identifier::new("a".to_string())),
        Token::Punctuation(Punctuation::new(PunctuationType::CloseParen)),
        Token::Punctuation(Punctuation::new(PunctuationType::CloseBrace)),
        Token::RegexLiteral(RegexLiteral::new("a".to_string(), "".to_string())),
    ];
    for previous in refused {
        assert!(!regex_may_follow(Some(&previous)));
        let mut chars = CodeIter::new("/foo/g", "script.js");
        let result = try_parse_regex_literal(&mut chars, Some(&previous)).unwrap();
        assert!(result.is_none());
        assert_eq!(chars.current_position().offset, 0);
        assert_eq!(chars.next(), Some('/'));
    }
}

#[test]
fn regex_needs_a_slash() {
    let mut chars = CodeIter::new("foo", "script.js");
    assert!(try_parse_regex_literal(&mut chars, None).unwrap().is_none());
    assert_eq!(chars.next(), Some('f'));
    let mut chars = CodeIter::new("", "script.js");
    assert!(try_parse_regex_literal(&mut chars, None).unwrap().is_none());
}

#[test]
fn flags_end_by_what_stands_behind_them() {
    let here = SourcePosition { offset: 6, line: 1, column: 7 };
    let at = || Span { source_name: "script.js".to_string(), start: here, end: here };
    assert_eq!(finish_regex_flags("g".to_string(), None, false, at()).unwrap(), "g");
    assert_eq!(finish_regex_flags("gi".to_string(), Some('.'), false, at()).unwrap(), "gi");
    assert_eq!(finish_regex_flags("".to_string(), Some(' '), false, at()).unwrap(), "");
    let error = finish_regex_flags("g".to_string(), Some('z'), true, at()).unwrap_err();
    assert_eq!(error.kind, DiagnosticKind::InvalidRegexFlag('z'));
    assert_eq!(error.span, at());
    assert_eq!(error.message(), "Invalid regular expression flag 'z'");
}
