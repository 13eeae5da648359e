//! Punctuation: brackets, separators and the like, matched by their lexemes.

use crate::code_iter::CodeIter;
use crate::utils::{prefix_match, table_view, try_parse_from_prefix_lookup, HasPrefixLookup};
use vstd::prelude::*;

verus! {

#[derive(Clone, Copy, Debug, PartialEq, Eq, Structural)]
pub enum PunctuationType {
    OpenParen,
    CloseParen,
    OpenBrace,
    CloseBrace,
    OpenBracket,
    CloseBracket,
    Comma,
    Dot,
    Semicolon,
    Colon,
    Ellipsis,
    Arrow,
}

/// A punctuation token.
#[derive(Clone, Copy, Debug, PartialEq, Eq, Structural)]
pub struct Punctuation {
    pub kind: PunctuationType,
}

impl Punctuation {
    pub fn new(kind: PunctuationType) -> (p: Punctuation)
        ensures
            p.kind == kind,
    {
        Self { kind }
    }
}

impl HasPrefixLookup for PunctuationType {
    open spec fn lexemes() -> Seq<(Seq<char>, PunctuationType)> {
        seq![
            ("("@, PunctuationType::OpenParen),
            (")"@, PunctuationType::CloseParen),
            ("{"@, PunctuationType::OpenBrace),
            ("}"@, PunctuationType::CloseBrace),
            ("["@, PunctuationType::OpenBracket),
            ("]"@, PunctuationType::CloseBracket),
            (","@, PunctuationType::Comma),
            ("."@, PunctuationType::Dot),
            (";"@, PunctuationType::Semicolon),
            (":"@, PunctuationType::Colon),
            ("..."@, PunctuationType::Ellipsis),
            ("=>"@, PunctuationType::Arrow),
        ]
    }

    fn table() -> (t: Vec<(&'static str, PunctuationType)>) {
        let t = vec![
            ("(", PunctuationType::OpenParen),
            (")", PunctuationType::CloseParen),
            ("{", PunctuationType::OpenBrace),
            ("}", PunctuationType::CloseBrace),
            ("[", PunctuationType::OpenBracket),
            ("]", PunctuationType::CloseBracket),
            (",", PunctuationType::Comma),
            (".", PunctuationType::Dot),
            (";", PunctuationType::Semicolon),
            (":", PunctuationType::Colon),
            ("...", PunctuationType::Ellipsis),
            ("=>", PunctuationType::Arrow),
        ];
        assert(table_view(t@) =~= Self::lexemes());
        t
    }
}

/// The punctuation whose lexeme is the longest that stands at `pos`, and where it ends.
pub open spec fn punctuation_at(src: Seq<char>, pos: int) -> Option<(PunctuationType, int)> {
    prefix_match(PunctuationType::lexemes(), src, pos)
}

/// Reads the longest punctuation lexeme at the cursor. Where none stands there, the
/// cursor stays where it is.
pub fn try_parse_punctuation(chars: &mut CodeIter) -> (p: Option<Punctuation>)
    requires
        old(chars).wf(),
    ensures
        final(chars).follows(old(chars)),
        match punctuation_at(old(chars).source(), old(chars).offset()) {
            Some((kind, end)) => p == Some(Punctuation { kind }) && final(chars).offset() == end,
            None => p is None && final(chars).offset() == old(chars).offset(),
        },
{
    match try_parse_from_prefix_lookup::<PunctuationType>(chars) {
        Some(kind) => Some(Punctuation::new(kind)),
        None => None,
    }
}

} // verus!
