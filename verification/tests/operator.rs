use yab_parser::code_iter::CodeIter;
use yab_parser::operator::{try_parse_operator, Operator, OperatorType};

#[test]
fn test_parse_operator() {
    let operators = vec![
        ("+", OperatorType::Plus),
        ("=", OperatorType::Assignment),
        ("==", OperatorType::LooseEquality),
        ("===", OperatorType::StrictEquality),
    ];

    for op in operators {
        let mut chars = CodeIter::new(op.0, "script.js");
        let parsed = try_parse_operator(&mut chars).unwrap();
        assert_eq!(parsed.kind, op.1);
    }
}

#[test]
fn test_non_existent_operator() {
    let mut chars = CodeIter::new("foo", "script.js");
    let parsed = try_parse_operator(&mut chars);
    assert!(parsed.is_none());
}

#[test]
fn operator_takes_the_longest_lexeme() {
    let mut chars = CodeIter::new("===", "script.js");
    assert_eq!(try_parse_operator(&mut chars), Some(Operator::new(OperatorType::StrictEquality)));
    assert_eq!(chars.peek(), None);

    let mut chars = CodeIter::new(">>>=", "script.js");
    assert_eq!(try_parse_operator(&mut chars), Some(Operator::new(OperatorType::UnsignedRightShift)));
    assert_eq!(chars.next(), Some('='));
}

#[test]
fn operator_that_does_not_match_leaves_the_cursor() {
    let mut chars = CodeIter::new("foo", "script.js");
    assert!(try_parse_operator(&mut chars).is_none());
    assert_eq!(chars.current_position().offset, 0);
    assert_eq!(chars.next(), Some('f'));
}

#[test]
fn operator_reads_only_its_lexeme() {
    let mut chars = CodeIter::new("==x", "script.js");
    assert_eq!(try_parse_operator(&mut chars).unwrap().kind, OperatorType::LooseEquality);
    assert_eq!(chars.current_position().offset, 2);
    assert_eq!(chars.next(), Some('x'));
}
