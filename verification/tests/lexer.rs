use yab_parser::comment::{Comment, CommentType};
use yab_parser::ident::{Identifier, Keyword, KeywordType, ValueLiteral, ValueLiteralType};
use yab_parser::num::{Decimal, NumberLiteral, NumberLiteralValue};
use yab_parser::operator::{Operator, OperatorType};
use yab_parser::punctuation::{Punctuation, PunctuationType};
use yab_parser::regex::RegexLiteral;
use yab_parser::string::StringLiteral;
use yab_parser::template::{
    TemplateLiteralExprClose, TemplateLiteralExprOpen, TemplateLiteralString,
};
use yab_parser::{tokenize, Token};

fn decimal(integer: &str, fraction: &str, exponent_negative: bool, exponent: &str) -> Token {
    Token::NumericLiteral(NumberLiteral::new(NumberLiteralValue::Primitive(Decimal {
        integer: integer.to_string(),
        fraction: fraction.to_string(),
        exponent_negative,
        exponent: exponent.to_string(),
    })))
}

fn as_f64(token: &Token) -> f64 {
    match token {
        Token::NumericLiteral(NumberLiteral {
            value: NumberLiteralValue::Primitive(decimal),
        }) => decimal.to_text().parse::<f64>().unwrap(),
        other => panic!("not a number: {:?}", other),
    }
}

fn ident(name: &str) -> Token {
    Token::Ident(Identifier::new(name.to_string()))
}

#[test]
fn test_regex_precendence() {
    let src = r#"
            (1) / 2
        "#;
    let tokens = tokenize(src, "script.js").unwrap();
    assert_eq!(
        tokens,
        vec![
            Token::Punctuation(Punctuation::new(PunctuationType::OpenParen)),
            decimal("1", "", false, ""),
            Token::Punctuation(Punctuation::new(PunctuationType::CloseParen)),
            Token::Operator(Operator::new(OperatorType::Division)),
            decimal("2", "", false, ""),
        ]
    );
    assert_eq!(as_f64(&tokens[1]), 1.0);
    assert_eq!(as_f64(&tokens[4]), 2.0);
}

#[test]
fn test_file_tokenization() {
    let src = r#"
// This is a a comment
const a = `my template: ${b}`;

export function foo() {
    return await /hello/gm.test("\u0041BC") == true && 1.2e-3;
}
"#;

    let tokens = tokenize(src, "script.js").unwrap();
    assert_eq!(
        tokens,
        vec![
            Token::Comment(Comment::new(CommentType::Line(
                " This is a a comment".to_string()
            ))),
            Token::Keyword(Keyword::new(KeywordType::from_lexeme("const").unwrap())),
            ident("a"),
            Token::Operator(Operator::new(OperatorType::Assignment)),
            Token::TemplateLiteralString(TemplateLiteralString::new(
                "my template: ".into(),
                false
            )),
            Token::TemplateLiteralExprOpen(TemplateLiteralExprOpen::default()),
            ident("b"),
            Token::TemplateLiteralExprClose(TemplateLiteralExprClose::default()),
            Token::TemplateLiteralString(TemplateLiteralString::new("".into(), true)),
            Token::Punctuation(Punctuation::new(PunctuationType::Semicolon)),
            Token::Keyword(Keyword::new(KeywordType::Export)),
            Token::Keyword(Keyword::new(KeywordType::Function)),
            ident("foo"),
            Token::Punctuation(Punctuation::new(PunctuationType::OpenParen)),
            Token::Punctuation(Punctuation::new(PunctuationType::CloseParen)),
            Token::Punctuation(Punctuation::new(PunctuationType::OpenBrace)),
            Token::Keyword(Keyword::new(KeywordType::from_lexeme("return").unwrap())),
            Token::Operator(Operator::new(OperatorType::Await)),
            Token::RegexLiteral(RegexLiteral::new("hello".into(), "gm".into())),
            Token::Punctuation(Punctuation::new(PunctuationType::Dot)),
            ident("test"),
            Token::Punctuation(Punctuation::new(PunctuationType::OpenParen)),
            Token::StringLiteral(StringLiteral::new("ABC".into())),
            Token::Punctuation(Punctuation::new(PunctuationType::CloseParen)),
            Token::Operator(Operator::new(OperatorType::LooseEquality)),
            Token::ValueLiteral(ValueLiteral::new(
                ValueLiteralType::from_lexeme("true").unwrap()
            )),
            Token::Operator(Operator::new(OperatorType::LogicalAnd)),
            decimal("1", "2", true, "3"),
            Token::Punctuation(Punctuation::new(PunctuationType::Semicolon)),
            Token::Punctuation(Punctuation::new(PunctuationType::CloseBrace)),
        ]
    );
    assert_eq!(as_f64(&tokens[27]), 1.2e-3);
}

use yab_parser::code_iter::{CodeIter, SourcePosition};
use yab_parser::diagnostic::DiagnosticKind;
use yab_parser::lexer::{lex_step, skip_white_space, Session};

fn at(offset: usize) -> SourcePosition {
    SourcePosition { offset, line: 1, column: offset + 1 }
}

fn depth_after(tokens: Vec<Token>) -> usize {
    let mut session = Session::new();
    for (index, token) in tokens.into_iter().enumerate() {
        session.push(token, at(index));
    }
    session.template_depth()
}

#[test]
fn strict_equality_is_one_token() {
    assert_eq!(
        tokenize("===", "script.js").unwrap(),
        vec![Token::Operator(Operator::new(OperatorType::StrictEquality))]
    );
}

#[test]
fn regex_at_the_start_of_the_text() {
    assert_eq!(
        tokenize("/foo/g", "script.js").unwrap(),
        vec![Token::RegexLiteral(RegexLiteral::new("foo".into(), "g".into()))]
    );
}

#[test]
fn regex_after_operator_comma_and_open_paren() {
    let regex = || Token::RegexLiteral(RegexLiteral::new("foo".into(), "g".into()));
    assert_eq!(
        tokenize("a = /foo/g", "script.js").unwrap(),
        vec![ident("a"), Token::Operator(Operator::new(OperatorType::Assignment)), regex()]
    );
    assert_eq!(
        tokenize("f(/foo/g, /foo/g)", "script.js").unwrap(),
        vec![
            ident("f"),
            Token::Punctuation(Punctuation::new(PunctuationType::OpenParen)),
            regex(),
            Token::Punctuation(Punctuation::new(PunctuationType::Comma)),
            regex(),
            Token::Punctuation(Punctuation::new(PunctuationType::CloseParen)),
        ]
    );
}

#[test]
fn slash_after_identifier_divides() {
    assert_eq!(
        tokenize("a /b/ c", "script.js").unwrap(),
        vec![
            ident("a"),
            Token::Operator(Operator::new(OperatorType::Division)),
            ident("b"),
            Token::Operator(Operator::new(OperatorType::Division)),
            ident("c"),
        ]
    );
}

#[test]
fn regex_with_invalid_flag_fails() {
    let error = tokenize("/foo/z", "script.js").unwrap_err();
    assert_eq!(error.kind, DiagnosticKind::InvalidRegexFlag('z'));
    assert!(error.message().contains("'z'"));
}

#[test]
fn regex_flags_leave_the_dot() {
    assert_eq!(
        tokenize("/foo/g.", "script.js").unwrap(),
        vec![
            Token::RegexLiteral(RegexLiteral::new("foo".into(), "g".into())),
            Token::Punctuation(Punctuation::new(PunctuationType::Dot)),
        ]
    );
}

#[test]
fn regex_with_line_terminator_fails_before_its_flags() {
    let error = tokenize("/foo\n/z", "script.js").unwrap_err();
    assert_eq!(error.kind, DiagnosticKind::LineTerminatorInRegex);
    assert!(error
        .message()
        .contains("Unexpected line terminator while parsing regular expression"));
}

#[test]
fn template_with_one_expression() {
    let tokens = tokenize("`my template: ${b}`", "script.js").unwrap();
    assert_eq!(
        tokens,
        vec![
            Token::TemplateLiteralString(TemplateLiteralString::new(
                "my template: ".into(),
                false
            )),
            Token::TemplateLiteralExprOpen(TemplateLiteralExprOpen::default()),
            ident("b"),
            Token::TemplateLiteralExprClose(TemplateLiteralExprClose::default()),
            Token::TemplateLiteralString(TemplateLiteralString::new("".into(), true)),
        ]
    );
    assert_eq!(depth_after(tokens), 0);
}

#[test]
fn template_depth_follows_open_and_close() {
    let mut session = Session::new();
    assert_eq!(session.template_depth(), 0);
    assert_eq!(session.innermost_open(), None);
    assert!(session.is_empty());
    session.push(Token::TemplateLiteralString(TemplateLiteralString::new("a".into(), false)), at(1));
    assert_eq!(session.template_depth(), 0);
    session.push(Token::TemplateLiteralExprOpen(TemplateLiteralExprOpen::default()), at(2));
    assert_eq!(session.template_depth(), 1);
    assert!(session.closes_expression());
    session.push(Token::Punctuation(Punctuation::new(PunctuationType::OpenBrace)), at(3));
    assert_eq!(session.template_depth(), 1);
    assert!(!session.closes_expression());
    session.push(Token::TemplateLiteralExprOpen(TemplateLiteralExprOpen::default()), at(4));
    assert_eq!(session.template_depth(), 2);
    assert_eq!(session.innermost_open(), Some(at(4)));
    assert!(session.closes_expression());
    session.push(Token::TemplateLiteralExprClose(TemplateLiteralExprClose::default()), at(5));
    assert_eq!(session.template_depth(), 1);
    assert_eq!(session.innermost_open(), Some(at(2)));
    assert!(!session.closes_expression());
    session.push(Token::Punctuation(Punctuation::new(PunctuationType::CloseBrace)), at(6));
    assert!(session.closes_expression());
    session.push(Token::TemplateLiteralExprClose(TemplateLiteralExprClose::default()), at(7));
    assert_eq!(session.template_depth(), 0);
    assert!(!session.closes_expression());
    session.push(Token::TemplateLiteralExprClose(TemplateLiteralExprClose::default()), at(8));
    assert_eq!(session.template_depth(), 0);
    assert_eq!(
        session.last(),
        Some(&Token::TemplateLiteralExprClose(TemplateLiteralExprClose::default()))
    );
    assert_eq!(session.into_tokens().len(), 8);
}

#[test]
fn template_with_braces_inside_an_expression() {
    let tokens = tokenize("`${ {a:1} }`", "script.js").unwrap();
    assert_eq!(
        tokens,
        vec![
            Token::TemplateLiteralString(TemplateLiteralString::new("".into(), false)),
            Token::TemplateLiteralExprOpen(TemplateLiteralExprOpen::default()),
            Token::Punctuation(Punctuation::new(PunctuationType::OpenBrace)),
            ident("a"),
            Token::Punctuation(Punctuation::new(PunctuationType::Colon)),
            decimal("1", "", false, ""),
            Token::Punctuation(Punctuation::new(PunctuationType::CloseBrace)),
            Token::TemplateLiteralExprClose(TemplateLiteralExprClose::default()),
            Token::TemplateLiteralString(TemplateLiteralString::new("".into(), true)),
        ]
    );
    assert_eq!(depth_after(tokens), 0);
}

#[test]
fn template_inside_a_template() {
    let tokens = tokenize("`a${ `b${c}d` }e${f}g`", "script.js").unwrap();
    assert_eq!(
        tokens,
        vec![
            Token::TemplateLiteralString(TemplateLiteralString::new("a".into(), false)),
            Token::TemplateLiteralExprOpen(TemplateLiteralExprOpen::default()),
            Token::TemplateLiteralString(TemplateLiteralString::new("b".into(), false)),
            Token::TemplateLiteralExprOpen(TemplateLiteralExprOpen::default()),
            ident("c"),
            Token::TemplateLiteralExprClose(TemplateLiteralExprClose::default()),
            Token::TemplateLiteralString(TemplateLiteralString::new("d".into(), true)),
            Token::TemplateLiteralExprClose(TemplateLiteralExprClose::default()),
            Token::TemplateLiteralString(TemplateLiteralString::new("e".into(), false)),
            Token::TemplateLiteralExprOpen(TemplateLiteralExprOpen::default()),
            ident("f"),
            Token::TemplateLiteralExprClose(TemplateLiteralExprClose::default()),
            Token::TemplateLiteralString(TemplateLiteralString::new("g".into(), true)),
        ]
    );
    assert_eq!(depth_after(tokens), 0);
}

#[test]
fn closing_brace_outside_a_template_is_punctuation() {
    assert_eq!(
        tokenize("`a` }", "script.js").unwrap(),
        vec![
            Token::TemplateLiteralString(TemplateLiteralString::new("a".into(), true)),
            Token::Punctuation(Punctuation::new(PunctuationType::CloseBrace)),
        ]
    );
}

#[test]
fn text_that_ends_inside_an_expression_is_unterminated() {
    let error = tokenize("`a${b", "script.js").unwrap_err();
    assert_eq!(error.kind, DiagnosticKind::UnterminatedTemplate);
    assert_eq!(error.message(), "Unexpected EOF while parsing template literal");
    assert_eq!(error.span.source_name, "script.js");
    assert_eq!(error.span.start, SourcePosition { offset: 4, line: 1, column: 5 });
    assert_eq!(error.span.end, SourcePosition { offset: 5, line: 1, column: 6 });
}

#[test]
fn text_that_ends_right_behind_an_opening_is_unterminated() {
    let error = tokenize("`${", "script.js").unwrap_err();
    assert_eq!(error.kind, DiagnosticKind::UnterminatedTemplate);
    assert_eq!(error.span.start.offset, 3);
    assert_eq!(error.span.end.offset, 3);
}

#[test]
fn text_that_ends_inside_a_nested_expression_names_the_innermost() {
    let error = tokenize("`a${\n `b${ c", "script.js").unwrap_err();
    assert_eq!(error.kind, DiagnosticKind::UnterminatedTemplate);
    assert_eq!(error.span.start, SourcePosition { offset: 10, line: 2, column: 6 });
    assert_eq!(error.span.end.offset, 12);
    let error = tokenize("`a${ `b${c}` ", "script.js").unwrap_err();
    assert_eq!(error.kind, DiagnosticKind::UnterminatedTemplate);
    assert_eq!(error.span.start.offset, 4);
    assert_eq!(error.span.end.offset, 13);
}

#[test]
fn text_that_ends_with_open_braces_in_an_expression_is_unterminated() {
    let error = tokenize("`${ {a", "script.js").unwrap_err();
    assert_eq!(error.kind, DiagnosticKind::UnterminatedTemplate);
    assert_eq!(error.span.start.offset, 3);
}

#[test]
fn tokens_of_a_text_close_what_they_open() {
    let texts = vec![
        "`a${b}c`",
        "`${ {a: {b: `${c}`}} }`",
        "`a` `b${`c${`d`}e`}f`",
        "x = {a: 1}",
    ];
    for text in texts {
        let tokens = tokenize(text, "script.js").unwrap();
        let opens = tokens
            .iter()
            .filter(|t| matches!(t, Token::TemplateLiteralExprOpen(_)))
            .count();
        let closes = tokens
            .iter()
            .filter(|t| matches!(t, Token::TemplateLiteralExprClose(_)))
            .count();
        assert_eq!(opens, closes);
        assert_eq!(depth_after(tokens), 0);
    }
}

#[test]
fn one_round_at_a_time() {
    let mut chars = CodeIter::new(" a`${@", "script.js");
    let mut session = Session::new();
    assert!(lex_step(&mut chars, &mut session).is_ok());
    assert_eq!(chars.current_position().offset, 1);
    assert!(session.is_empty());
    assert!(lex_step(&mut chars, &mut session).is_ok());
    assert_eq!(chars.current_position().offset, 2);
    assert_eq!(session.last(), Some(&ident("a")));
    assert!(lex_step(&mut chars, &mut session).is_ok());
    assert_eq!(chars.current_position().offset, 5);
    assert_eq!(session.template_depth(), 1);
    assert_eq!(session.innermost_open(), Some(SourcePosition { offset: 5, line: 1, column: 6 }));
    let error = lex_step(&mut chars, &mut session).unwrap_err();
    assert_eq!(error.kind, DiagnosticKind::UnrecognizedToken('@'));
    assert_eq!(session.template_depth(), 1);
    assert_eq!(
        session.last(),
        Some(&Token::TemplateLiteralExprOpen(TemplateLiteralExprOpen::default()))
    );
    assert_eq!(session.into_tokens().len(), 3);
}

#[test]
fn white_space_is_skipped_only_where_it_is_said_to_be() {
    let mut chars = CodeIter::new("ab", "script.js");
    assert!(!skip_white_space(&mut chars, false));
    assert_eq!(chars.current_position().offset, 0);
    assert!(skip_white_space(&mut chars, true));
    assert_eq!(chars.current_position().offset, 1);
    assert!(skip_white_space(&mut chars, true));
    assert!(!skip_white_space(&mut chars, true));
    assert_eq!(chars.current_position().offset, 2);
}

#[test]
fn template_that_ends_behind_an_expression_is_unterminated() {
    let error = tokenize("`a${b} c", "script.js").unwrap_err();
    assert_eq!(error.kind, DiagnosticKind::UnterminatedTemplate);
    assert_eq!(error.span.start.offset, 5);
    assert_eq!(error.span.end.offset, 8);
}

#[test]
fn tokenize_twice_gives_the_same() {
    let src = "const a = `x${ {b: [1, 2.5e3]} }y` // c\n/re/g.test('s')";
    assert_eq!(tokenize(src, "script.js").unwrap(), tokenize(src, "script.js").unwrap());
    let bad = "let a = 'abc";
    assert_eq!(tokenize(bad, "script.js").unwrap_err(), tokenize(bad, "script.js").unwrap_err());
}

#[test]
fn empty_and_blank_texts_have_no_tokens() {
    assert_eq!(tokenize("", "script.js").unwrap(), vec![]);
    assert_eq!(tokenize(" \t\r\n\u{a0}\u{2028} ", "script.js").unwrap(), vec![]);
}

#[test]
fn hashbang_only_in_front_of_every_token() {
    assert_eq!(
        tokenize("#!/bin/node\nx", "script.js").unwrap(),
        vec![
            Token::Comment(Comment::new(CommentType::Hashbang("/bin/node".to_string()))),
            ident("x"),
        ]
    );
    assert_eq!(
        tokenize("\n #!a", "script.js").unwrap(),
        vec![Token::Comment(Comment::new(CommentType::Hashbang("a".to_string())))]
    );
    let error = tokenize("x\n#!a", "script.js").unwrap_err();
    assert_eq!(error.kind, DiagnosticKind::UnrecognizedToken('#'));
}

#[test]
fn unrecognized_character_is_named() {
    let error = tokenize("a\n  @b", "unit.js").unwrap_err();
    assert_eq!(error.kind, DiagnosticKind::UnrecognizedToken('@'));
    assert_eq!(error.message(), "Unrecognized token '@'");
    assert_eq!(error.span.source_name, "unit.js");
    assert_eq!(error.span.start.offset, 4);
    assert_eq!(error.span.start.line, 2);
    assert_eq!(error.span.start.column, 3);
    assert_eq!(error.span.end, error.span.start);
}

#[test]
fn first_diagnostic_ends_the_call() {
    let error = tokenize("'a\\u12' /* never closed", "script.js").unwrap_err();
    assert_eq!(error.kind, DiagnosticKind::InvalidEscape);
    let error = tokenize("x /* never closed", "script.js").unwrap_err();
    assert_eq!(error.kind, DiagnosticKind::UnterminatedComment);
    let error = tokenize("x = /never closed", "script.js").unwrap_err();
    assert_eq!(error.kind, DiagnosticKind::UnterminatedRegex);
    let error = tokenize("x = 'never closed", "script.js").unwrap_err();
    assert_eq!(error.kind, DiagnosticKind::UnterminatedString);
    let error = tokenize("x = 1e", "script.js").unwrap_err();
    assert_eq!(error.kind, DiagnosticKind::MalformedNumber);
}

#[test]
fn comments_are_kept() {
    assert_eq!(
        tokenize("a /* b */ // c", "script.js").unwrap(),
        vec![
            ident("a"),
            Token::Comment(Comment::new(CommentType::Block(" b ".to_string()))),
            Token::Comment(Comment::new(CommentType::Line(" c".to_string()))),
        ]
    );
}

#[test]
fn words_before_symbols() {
    assert_eq!(
        tokenize("typeof x instanceof Y", "script.js").unwrap(),
        vec![
            Token::Operator(Operator::new(OperatorType::Typeof)),
            ident("x"),
            Token::Operator(Operator::new(OperatorType::Instanceof)),
            ident("Y"),
        ]
    );
    assert_eq!(
        tokenize("typeof /x/", "script.js").unwrap(),
        vec![
            Token::Operator(Operator::new(OperatorType::Typeof)),
            Token::RegexLiteral(RegexLiteral::new("x".into(), "".into())),
        ]
    );
}

#[test]
fn number_before_punctuation() {
    assert_eq!(
        tokenize(".5 . ...", "script.js").unwrap(),
        vec![
            decimal("", "5", false, ""),
            Token::Punctuation(Punctuation::new(PunctuationType::Dot)),
            Token::Punctuation(Punctuation::new(PunctuationType::Ellipsis)),
        ]
    );
}

#[test]
fn arrow_is_punctuation_and_equals_an_operator() {
    assert_eq!(
        tokenize("=>=", "script.js").unwrap(),
        vec![
            Token::Punctuation(Punctuation::new(PunctuationType::Arrow)),
            Token::Operator(Operator::new(OperatorType::Assignment)),
        ]
    );
}
