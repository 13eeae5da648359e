//! The token model: one variant per lexical category, and the mathematical view that
//! the contracts speak of.

use crate::code_iter::SourcePosition;
use crate::comment::{Comment, CommentView};
use crate::ident::{Identifier, Keyword, KeywordType, ValueLiteral, ValueLiteralType};
use crate::num::{DecimalView, NumberLiteral};
use crate::operator::{Operator, OperatorType};
use crate::punctuation::{Punctuation, PunctuationType};
use crate::regex::RegexLiteral;
use crate::string::StringLiteral;
use crate::template::{TemplateLiteralExprClose, TemplateLiteralExprOpen, TemplateLiteralString};
use vstd::prelude::*;

verus! {

#[derive(Debug, PartialEq)]
pub enum Token {
    Keyword(Keyword),
    Ident(Identifier),
    ValueLiteral(ValueLiteral),
    Operator(Operator),
    Punctuation(Punctuation),
    Comment(Comment),
    NumericLiteral(NumberLiteral),
    StringLiteral(StringLiteral),
    TemplateLiteralString(TemplateLiteralString),
    TemplateLiteralExprOpen(TemplateLiteralExprOpen),
    TemplateLiteralExprClose(TemplateLiteralExprClose),
    RegexLiteral(RegexLiteral),
}

/// A token as a mathematical value: its category and its decoded content.
pub enum TokenView {
    Keyword(KeywordType),
    Ident(Seq<char>),
    ValueLiteral(ValueLiteralType),
    Operator(OperatorType),
    Punctuation(PunctuationType),
    Comment(CommentView),
    NumericLiteral(DecimalView),
    StringLiteral(Seq<char>),
    /// A stretch of literal text in a template, and whether the template ends with it.
    TemplateLiteralString(Seq<char>, bool),
    TemplateLiteralExprOpen,
    TemplateLiteralExprClose,
    /// The pattern and the flags.
    RegexLiteral(Seq<char>, Seq<char>),
}

impl View for Token {
    type V = TokenView;

    open spec fn view(&self) -> TokenView {
        match self {
            Token::Keyword(k) => TokenView::Keyword(k.kind),
            Token::Ident(i) => TokenView::Ident(i.name@),
            Token::ValueLiteral(v) => TokenView::ValueLiteral(v.kind),
            Token::Operator(o) => TokenView::Operator(o.kind),
            Token::Punctuation(p) => TokenView::Punctuation(p.kind),
            Token::Comment(c) => TokenView::Comment(c.kind@),
            Token::NumericLiteral(n) => TokenView::NumericLiteral(n@),
            Token::StringLiteral(s) => TokenView::StringLiteral(s.value@),
            Token::TemplateLiteralString(t) => TokenView::TemplateLiteralString(
                t.value@,
                t.is_terminal,
            ),
            Token::TemplateLiteralExprOpen(_) => TokenView::TemplateLiteralExprOpen,
            Token::TemplateLiteralExprClose(_) => TokenView::TemplateLiteralExprClose,
            Token::RegexLiteral(r) => TokenView::RegexLiteral(r.pattern@, r.flags@),
        }
    }
}

/// The views of a sequence of tokens, in order.
pub open spec fn token_views(tokens: Seq<Token>) -> Seq<TokenView> {
    tokens.map_values(|t: Token| t@)
}

/// The view of the token before the cursor, if there is one.
pub open spec fn previous_view(previous: Option<&Token>) -> Option<TokenView> {
    match previous {
        Some(t) => Some(t@),
        None => None,
    }
}

/// The embedded expressions of template literals that are open after `tokens`, outermost
/// first, each with the number of braces that were opened inside it and not closed yet.
pub open spec fn brace_stack(tokens: Seq<TokenView>) -> Seq<nat>
    decreases tokens.len(),
{
    if tokens.len() == 0 {
        Seq::empty()
    } else {
        let stack = brace_stack(tokens.drop_last());
        match tokens.last() {
            TokenView::TemplateLiteralExprOpen => stack.push(0),
            TokenView::TemplateLiteralExprClose => if stack.len() > 0 {
                stack.drop_last()
            } else {
                stack
            },
            TokenView::Punctuation(PunctuationType::OpenBrace) => if stack.len() > 0 {
                stack.update(stack.len() - 1, stack.last() + 1)
            } else {
                stack
            },
            TokenView::Punctuation(PunctuationType::CloseBrace) => if stack.len() > 0
                && stack.last() > 0 {
                stack.update(stack.len() - 1, (stack.last() - 1) as nat)
            } else {
                stack
            },
            _ => stack,
        }
    }
}

/// How many embedded expressions of template literals are open after `tokens`.
pub open spec fn template_depth(tokens: Seq<TokenView>) -> nat {
    brace_stack(tokens).len()
}

/// Where the embedded expressions start that are open behind `token`, outermost first,
/// those open in front of it starting at `opens`: `token` opens one that starts at `end`,
/// closes the innermost, or leaves them as they are.
pub open spec fn opens_behind(opens: Seq<SourcePosition>, token: TokenView, end: SourcePosition)
    -> Seq<SourcePosition> {
    match token {
        TokenView::TemplateLiteralExprOpen => opens.push(end),
        TokenView::TemplateLiteralExprClose => if opens.len() > 0 {
            opens.drop_last()
        } else {
            opens
        },
        _ => opens,
    }
}

/// Where the embedded expressions start that are open behind the tokens `emitted`, which
/// were read in one go from text that ends at `end`.
pub open spec fn opens_after(
    opens: Seq<SourcePosition>,
    emitted: Seq<TokenView>,
    end: SourcePosition,
) -> Seq<SourcePosition>
    decreases emitted.len(),
{
    if emitted.len() == 0 {
        opens
    } else {
        opens_behind(opens_after(opens, emitted.drop_last(), end), emitted.last(), end)
    }
}

/// One more token emitted is one more step of `opens_behind`.
pub proof fn lemma_opens_after_push(
    opens: Seq<SourcePosition>,
    emitted: Seq<TokenView>,
    token: TokenView,
    end: SourcePosition,
)
    ensures
        opens_after(opens, emitted.push(token), end) == opens_behind(
            opens_after(opens, emitted, end),
            token,
            end,
        ),
{
    assert(emitted.push(token).drop_last() =~= emitted);
}

/// There is one start for each open embedded expression, before and behind every run of
/// emitted tokens, so that the innermost start that `lex_from` names is there whenever
/// the template depth is above zero.
pub proof fn lemma_opens_follow_depth(
    tokens: Seq<TokenView>,
    opens: Seq<SourcePosition>,
    emitted: Seq<TokenView>,
    end: SourcePosition,
)
    requires
        opens.len() == template_depth(tokens),
    ensures
        opens_after(opens, emitted, end).len() == template_depth(tokens + emitted),
    decreases emitted.len(),
{
    if emitted.len() == 0 {
        assert(tokens + emitted =~= tokens);
    } else {
        lemma_opens_follow_depth(tokens, opens, emitted.drop_last(), end);
        assert((tokens + emitted).drop_last() =~= tokens + emitted.drop_last());
        assert((tokens + emitted).last() == emitted.last());
    }
}

/// Every start behind the emitted tokens was a start in front of them, or is `end`.
pub proof fn lemma_opens_after_members(
    opens: Seq<SourcePosition>,
    emitted: Seq<TokenView>,
    end: SourcePosition,
)
    ensures
        forall|i: int|
            0 <= i < opens_after(opens, emitted, end).len() ==> opens.contains(
                #[trigger] opens_after(opens, emitted, end)[i],
            ) || opens_after(opens, emitted, end)[i] == end,
    decreases emitted.len(),
{
    let behind = opens_after(opens, emitted, end);
    if emitted.len() > 0 {
        let before = opens_after(opens, emitted.drop_last(), end);
        lemma_opens_after_members(opens, emitted.drop_last(), end);
        assert forall|i: int| 0 <= i < behind.len() implies opens.contains(#[trigger] behind[i])
            || behind[i] == end by {
            if i < before.len() {
                assert(behind[i] == before[i]);
            }
        }
    } else {
        assert forall|i: int| 0 <= i < behind.len() implies opens.contains(#[trigger] behind[i]) by {
            assert(behind[i] == opens[i]);
        }
    }
}

} // verus!
