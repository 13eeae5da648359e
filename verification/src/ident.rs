//! Identifiers, and the reserved words among them: keywords, value literals and the
//! operators that are written as words.

use crate::code_iter::{char_at, CodeIter};
use crate::diagnostic::Diagnostic;
use crate::operator::{Operator, OperatorType};
use crate::token::TokenView;
use crate::utils::{
    exact_match, identifier_start, is_identifier_start, lemma_run_end, lookup_exact, run_end,
    table_view, CharClass, HasPrefixLookup,
};
use vstd::prelude::*;
use vstd::string::StringExecFns;

verus! {

/// A name that is no reserved word.
#[derive(Debug, PartialEq)]
pub struct Identifier {
    pub name: String,
}

impl Identifier {
    pub fn new(name: String) -> (identifier: Identifier)
        ensures
            identifier.name == name,
    {
        Self { name }
    }
}

#[derive(Clone, Copy, Debug, PartialEq, Eq, Structural)]
pub enum KeywordType {
    Break,
    Case,
    Catch,
    Class,
    Const,
    Continue,
    Debugger,
    Do,
    Else,
    Export,
    Extends,
    Finally,
    For,
    Function,
    If,
    Import,
    Let,
    Return,
    Static,
    Super,
    Switch,
    This,
    Throw,
    Try,
    Var,
    While,
    With,
    Yield,
}

/// A keyword token.
#[derive(Clone, Copy, Debug, PartialEq, Eq, Structural)]
pub struct Keyword {
    pub kind: KeywordType,
}

impl Keyword {
    pub fn new(kind: KeywordType) -> (keyword: Keyword)
        ensures
            keyword.kind == kind,
    {
        Self { kind }
    }
}

#[derive(Clone, Copy, Debug, PartialEq, Eq, Structural)]
pub enum ValueLiteralType {
    True,
    False,
    Null,
    Undefined,
}

/// A literal that is written as a word: a boolean, `null` or `undefined`.
#[derive(Clone, Copy, Debug, PartialEq, Eq, Structural)]
pub struct ValueLiteral {
    pub kind: ValueLiteralType,
}

impl ValueLiteral {
    pub fn new(kind: ValueLiteralType) -> (literal: ValueLiteral)
        ensures
            literal.kind == kind,
    {
        Self { kind }
    }
}

impl HasPrefixLookup for KeywordType {
    open spec fn lexemes() -> Seq<(Seq<char>, KeywordType)> {
        seq![
            ("break"@, KeywordType::Break),
            ("case"@, KeywordType::Case),
            ("catch"@, KeywordType::Catch),
            ("class"@, KeywordType::Class),
            ("const"@, KeywordType::Const),
            ("continue"@, KeywordType::Continue),
            ("debugger"@, KeywordType::Debugger),
            ("do"@, KeywordType::Do),
            ("else"@, KeywordType::Else),
            ("export"@, KeywordType::Export),
            ("extends"@, KeywordType::Extends),
            ("finally"@, KeywordType::Finally),
            ("for"@, KeywordType::For),
            ("function"@, KeywordType::Function),
            ("if"@, KeywordType::If),
            ("import"@, KeywordType::Import),
            ("let"@, KeywordType::Let),
            ("return"@, KeywordType::Return),
            ("static"@, KeywordType::Static),
            ("super"@, KeywordType::Super),
            ("switch"@, KeywordType::Switch),
            ("this"@, KeywordType::This),
            ("throw"@, KeywordType::Throw),
            ("try"@, KeywordType::Try),
            ("var"@, KeywordType::Var),
            ("while"@, KeywordType::While),
            ("with"@, KeywordType::With),
            ("yield"@, KeywordType::Yield),
        ]
    }

    fn table() -> (t: Vec<(&'static str, KeywordType)>) {
        let t = vec![
            ("break", KeywordType::Break),
            ("case", KeywordType::Case),
            ("catch", KeywordType::Catch),
            ("class", KeywordType::Class),
            ("const", KeywordType::Const),
            ("continue", KeywordType::Continue),
            ("debugger", KeywordType::Debugger),
            ("do", KeywordType::Do),
            ("else", KeywordType::Else),
            ("export", KeywordType::Export),
            ("extends", KeywordType::Extends),
            ("finally", KeywordType::Finally),
            ("for", KeywordType::For),
            ("function", KeywordType::Function),
            ("if", KeywordType::If),
            ("import", KeywordType::Import),
            ("let", KeywordType::Let),
            ("return", KeywordType::Return),
            ("static", KeywordType::Static),
            ("super", KeywordType::Super),
            ("switch", KeywordType::Switch),
            ("this", KeywordType::This),
            ("throw", KeywordType::Throw),
            ("try", KeywordType::Try),
            ("var", KeywordType::Var),
            ("while", KeywordType::While),
            ("with", KeywordType::With),
            ("yield", KeywordType::Yield),
        ];
        assert(table_view(t@) =~= Self::lexemes());
        t
    }
}

impl HasPrefixLookup for ValueLiteralType {
    open spec fn lexemes() -> Seq<(Seq<char>, ValueLiteralType)> {
        seq![
            ("true"@, ValueLiteralType::True),
            ("false"@, ValueLiteralType::False),
            ("null"@, ValueLiteralType::Null),
            ("undefined"@, ValueLiteralType::Undefined),
        ]
    }

    fn table() -> (t: Vec<(&'static str, ValueLiteralType)>) {
        let t = vec![
            ("true", ValueLiteralType::True),
            ("false", ValueLiteralType::False),
            ("null", ValueLiteralType::Null),
            ("undefined", ValueLiteralType::Undefined),
        ];
        assert(table_view(t@) =~= Self::lexemes());
        t
    }
}

/// The operators that are written as words.
pub open spec fn word_operators() -> Seq<(Seq<char>, OperatorType)> {
    seq![
        ("await"@, OperatorType::Await),
        ("typeof"@, OperatorType::Typeof),
        ("instanceof"@, OperatorType::Instanceof),
        ("in"@, OperatorType::In),
        ("new"@, OperatorType::New),
        ("delete"@, OperatorType::Delete),
        ("void"@, OperatorType::Void),
    ]
}

fn word_operator_table() -> (t: Vec<(&'static str, OperatorType)>)
    ensures
        table_view(t@) == word_operators(),
{
    let t = vec![
        ("await", OperatorType::Await),
        ("typeof", OperatorType::Typeof),
        ("instanceof", OperatorType::Instanceof),
        ("in", OperatorType::In),
        ("new", OperatorType::New),
        ("delete", OperatorType::Delete),
        ("void", OperatorType::Void),
    ];
    assert(table_view(t@) =~= word_operators());
    t
}

/// The kind that `word` is the lexeme of, if it is the lexeme of any.
pub open spec fn kind_of<K: HasPrefixLookup>(word: Seq<char>) -> Option<K> {
    exact_match(K::lexemes(), word, K::lexemes().len() as int)
}

impl KeywordType {
    /// The keyword that is written `word`.
    pub fn from_lexeme(word: &str) -> (kind: Option<KeywordType>)
        ensures
            kind == kind_of::<KeywordType>(word@),
    {
        lookup_exact(&KeywordType::table(), word)
    }
}

impl ValueLiteralType {
    /// The value literal that is written `word`.
    pub fn from_lexeme(word: &str) -> (kind: Option<ValueLiteralType>)
        ensures
            kind == kind_of::<ValueLiteralType>(word@),
    {
        lookup_exact(&ValueLiteralType::table(), word)
    }
}

/// What a word turned out to be.
#[derive(Debug, PartialEq)]
pub enum IdentParseResult {
    Identifier(Identifier),
    Keyword(Keyword),
    ValueLiteral(ValueLiteral),
    Operator(Operator),
}

impl IdentParseResult {
    /// The token that this word makes.
    pub open spec fn token_view(&self) -> TokenView {
        match self {
            IdentParseResult::Identifier(i) => TokenView::Ident(i.name@),
            IdentParseResult::Keyword(k) => TokenView::Keyword(k.kind),
            IdentParseResult::ValueLiteral(v) => TokenView::ValueLiteral(v.kind),
            IdentParseResult::Operator(o) => TokenView::Operator(o.kind),
        }
    }
}

/// The token that `word` makes: a keyword, a value literal or an operator where it is the
/// lexeme of one, tried in this order, and an identifier otherwise.
pub open spec fn classify_word(word: Seq<char>) -> TokenView {
    if let Some(kind) = kind_of::<KeywordType>(word) {
        TokenView::Keyword(kind)
    } else if let Some(kind) = kind_of::<ValueLiteralType>(word) {
        TokenView::ValueLiteral(kind)
    } else if let Some(kind) = exact_match(word_operators(), word, word_operators().len() as int) {
        TokenView::Operator(kind)
    } else {
        TokenView::Ident(word)
    }
}

/// The word at `pos`: a letter, `_` or `$`, and the longest run of letters, numbers, `_`
/// and `$` behind it; the token it makes, and where it ends.
pub open spec fn identifier_at(src: Seq<char>, pos: int) -> Option<(TokenView, int)> {
    match char_at(src, pos) {
        Some(c) => if identifier_start(c) {
            let end = run_end(src, pos + 1, CharClass::IdentifierPart);
            Some((classify_word(src.subrange(pos, end)), end))
        } else {
            None
        },
        None => None,
    }
}

/// A word is one run of identifier characters: its first character is one of them too,
/// and it ends where the run that starts with it ends.
pub proof fn lemma_identifier_is_one_run(src: Seq<char>, pos: int)
    ensures
        identifier_at(src, pos) matches Some((_, end)) ==> end == run_end(
            src,
            pos,
            CharClass::IdentifierPart,
        ),
{
}

/// Reads a word at the cursor and tells what it is. Gives `Ok(None)`, with the cursor
/// where it was, where no word starts there. It never fails.
pub fn try_parse_identifier(chars: &mut CodeIter) -> (r: Result<
    Option<IdentParseResult>,
    Diagnostic,
>)
    requires
        old(chars).wf(),
    ensures
        final(chars).follows(old(chars)),
        match identifier_at(old(chars).source(), old(chars).offset()) {
            Some((token, end)) => r matches Ok(Some(found)) && found.token_view() == token
                && final(chars).offset() == end,
            None => r matches Ok(None) && final(chars).offset() == old(chars).offset(),
        },
{
    let first = match chars.peek() {
        Some(c) => c,
        None => {
            return Ok(None);
        },
    };
    if !is_identifier_start(first) {
        return Ok(None);
    }
    let ghost src = chars.source();
    let ghost pos = chars.offset();
    let mut word = String::new();
    word.push(first);
    let _ = chars.next();
    proof {
        lemma_run_end(src, pos + 1, CharClass::IdentifierPart);
    }
    let rest = chars.take_while(CharClass::IdentifierPart);
    word.append(rest.as_str());
    assert(word@ =~= src.subrange(pos, chars.offset()));
    if let Some(kind) = KeywordType::from_lexeme(word.as_str()) {
        return Ok(Some(IdentParseResult::Keyword(Keyword::new(kind))));
    }
    if let Some(kind) = ValueLiteralType::from_lexeme(word.as_str()) {
        return Ok(Some(IdentParseResult::ValueLiteral(ValueLiteral::new(kind))));
    }
    if let Some(kind) = lookup_exact(&word_operator_table(), word.as_str()) {
        return Ok(Some(IdentParseResult::Operator(Operator::new(kind))));
    }
    Ok(Some(IdentParseResult::Identifier(Identifier::new(word))))
}

} // verus!
