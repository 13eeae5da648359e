//! Operators: the symbolic ones, matched by their lexemes, and the reserved words that
//! act as operators.

use crate::code_iter::CodeIter;
use crate::utils::{prefix_match, table_view, try_parse_from_prefix_lookup, HasPrefixLookup};
use vstd::prelude::*;

verus! {

#[derive(Clone, Copy, Debug, PartialEq, Eq, Structural)]
pub enum OperatorType {
    Plus,
    Minus,
    Multiplication,
    Division,
    Remainder,
    Exponentiation,
    Increment,
    Decrement,
    Assignment,
    AdditionAssignment,
    SubtractionAssignment,
    MultiplicationAssignment,
    DivisionAssignment,
    RemainderAssignment,
    LooseEquality,
    StrictEquality,
    LooseInequality,
    StrictInequality,
    LessThan,
    LessThanOrEqual,
    GreaterThan,
    GreaterThanOrEqual,
    LogicalAnd,
    LogicalOr,
    LogicalNot,
    NullishCoalescing,
    Conditional,
    BitwiseAnd,
    BitwiseOr,
    BitwiseXor,
    BitwiseNot,
    LeftShift,
    RightShift,
    UnsignedRightShift,
    Await,
    Typeof,
    Instanceof,
    In,
    New,
    Delete,
    Void,
}

/// An operator token.
#[derive(Clone, Copy, Debug, PartialEq, Eq, Structural)]
pub struct Operator {
    pub kind: OperatorType,
}

impl Operator {
    pub fn new(kind: OperatorType) -> (op: Operator)
        ensures
            op.kind == kind,
    {
        Self { kind }
    }
}

impl HasPrefixLookup for OperatorType {
    /// The symbolic operators. The word-shaped ones are found as identifiers.
    open spec fn lexemes() -> Seq<(Seq<char>, OperatorType)> {
        seq![
            ("+"@, OperatorType::Plus),
            ("-"@, OperatorType::Minus),
            ("*"@, OperatorType::Multiplication),
            ("/"@, OperatorType::Division),
            ("%"@, OperatorType::Remainder),
            ("**"@, OperatorType::Exponentiation),
            ("++"@, OperatorType::Increment),
            ("--"@, OperatorType::Decrement),
            ("="@, OperatorType::Assignment),
            ("+="@, OperatorType::AdditionAssignment),
            ("-="@, OperatorType::SubtractionAssignment),
            ("*="@, OperatorType::MultiplicationAssignment),
            ("/="@, OperatorType::DivisionAssignment),
            ("%="@, OperatorType::RemainderAssignment),
            ("=="@, OperatorType::LooseEquality),
            ("==="@, OperatorType::StrictEquality),
            ("!="@, OperatorType::LooseInequality),
            ("!=="@, OperatorType::StrictInequality),
            ("<"@, OperatorType::LessThan),
            ("<="@, OperatorType::LessThanOrEqual),
            (">"@, OperatorType::GreaterThan),
            (">="@, OperatorType::GreaterThanOrEqual),
            ("&&"@, OperatorType::LogicalAnd),
            ("||"@, OperatorType::LogicalOr),
            ("!"@, OperatorType::LogicalNot),
            ("??"@, OperatorType::NullishCoalescing),
            ("?"@, OperatorType::Conditional),
            ("&"@, OperatorType::BitwiseAnd),
            ("|"@, OperatorType::BitwiseOr),
            ("^"@, OperatorType::BitwiseXor),
            ("~"@, OperatorType::BitwiseNot),
            ("<<"@, OperatorType::LeftShift),
            (">>"@, OperatorType::RightShift),
            (">>>"@, OperatorType::UnsignedRightShift),
        ]
    }

    fn table() -> (t: Vec<(&'static str, OperatorType)>) {
        let t = vec![
            ("+", OperatorType::Plus),
            ("-", OperatorType::Minus),
            ("*", OperatorType::Multiplication),
            ("/", OperatorType::Division),
            ("%", OperatorType::Remainder),
            ("**", OperatorType::Exponentiation),
            ("++", OperatorType::Increment),
            ("--", OperatorType::Decrement),
            ("=", OperatorType::Assignment),
            ("+=", OperatorType::AdditionAssignment),
            ("-=", OperatorType::SubtractionAssignment),
            ("*=", OperatorType::MultiplicationAssignment),
            ("/=", OperatorType::DivisionAssignment),
            ("%=", OperatorType::RemainderAssignment),
            ("==", OperatorType::LooseEquality),
            ("===", OperatorType::StrictEquality),
            ("!=", OperatorType::LooseInequality),
            ("!==", OperatorType::StrictInequality),
            ("<", OperatorType::LessThan),
            ("<=", OperatorType::LessThanOrEqual),
            (">", OperatorType::GreaterThan),
            (">=", OperatorType::GreaterThanOrEqual),
            ("&&", OperatorType::LogicalAnd),
            ("||", OperatorType::LogicalOr),
            ("!", OperatorType::LogicalNot),
            ("??", OperatorType::NullishCoalescing),
            ("?", OperatorType::Conditional),
            ("&", OperatorType::BitwiseAnd),
            ("|", OperatorType::BitwiseOr),
            ("^", OperatorType::BitwiseXor),
            ("~", OperatorType::BitwiseNot),
            ("<<", OperatorType::LeftShift),
            (">>", OperatorType::RightShift),
            (">>>", OperatorType::UnsignedRightShift),
        ];
        assert(table_view(t@) =~= Self::lexemes());
        t
    }
}

/// The operator whose lexeme is the longest that stands at `pos`, and where it ends.
pub open spec fn operator_at(src: Seq<char>, pos: int) -> Option<(OperatorType, int)> {
    prefix_match(OperatorType::lexemes(), src, pos)
}

/// Reads the longest symbolic operator at the cursor. Where none stands there, the
/// cursor stays where it is.
pub fn try_parse_operator(chars: &mut CodeIter) -> (op: Option<Operator>)
    requires
        old(chars).wf(),
    ensures
        final(chars).follows(old(chars)),
        match operator_at(old(chars).source(), old(chars).offset()) {
            Some((kind, end)) => op == Some(Operator { kind }) && final(chars).offset() == end,
            None => op is None && final(chars).offset() == old(chars).offset(),
        },
{
    match try_parse_from_prefix_lookup::<OperatorType>(chars) {
        Some(operator_type) => Some(Operator::new(operator_type)),
        None => None,
    }
}

} // verus!
