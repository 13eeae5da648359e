//! The tokenizer: at each position it tries the recognizers in a fixed order, takes the
//! first that finds something, and goes on behind what was read.

use crate::code_iter::{char_at, position_at, CodeIter, SourcePosition};
use crate::comment::{
    comment_at, hashbang_at, lemma_block_comment_close, try_parse_comment,
    try_parse_hashbang_comment,
};
use crate::diagnostic::{Diagnostic, DiagnosticKind, LexError, Scan};
use crate::ident::{identifier_at, try_parse_identifier, IdentParseResult};
use crate::num::{lemma_number_advances, number_at, try_parse_number, NumberLiteral};
use crate::operator::{operator_at, try_parse_operator, OperatorType};
use crate::punctuation::{punctuation_at, try_parse_punctuation, PunctuationType};
use crate::regex::{lemma_regex_advances, regex_at, try_parse_regex_literal};
use crate::string::{lemma_text_at, string_at, try_parse_string, TextMode};
use crate::template::{
    template_expr_end_at, template_start_at, try_parse_template_literal_expr_end,
    try_parse_template_literal_start,
};
use crate::token::{
    brace_stack, lemma_opens_after_members, opens_after, opens_behind, previous_view,
    template_depth, token_views, Token, TokenView,
};
use crate::utils::{
    char_is_whitespace, lemma_longest_match, lemma_run_end, CharClass, HasPrefixLookup,
};
use vstd::prelude::*;

verus! {

/// What the tokenizer does in one round.
pub enum Step {
    /// It passes over text that makes no token.
    Skip { end: int },
    /// It reads text up to `end` and emits these tokens for it.
    Emit { tokens: Seq<TokenView>, end: int },
    /// It gives up.
    Fail { error: LexError },
}

/// The tokens for a stretch of template text: the text, and the opening of an embedded
/// expression unless the template ends with it.
pub open spec fn segment_tokens(segment: (Seq<char>, bool)) -> Seq<TokenView> {
    if segment.1 {
        seq![TokenView::TemplateLiteralString(segment.0, true)]
    } else {
        seq![TokenView::TemplateLiteralString(segment.0, false), TokenView::TemplateLiteralExprOpen]
    }
}

/// The last of `tokens`, if there is one.
pub open spec fn last_token(tokens: Seq<TokenView>) -> Option<TokenView> {
    if tokens.len() > 0 {
        Some(tokens.last())
    } else {
        None
    }
}

/// Whether a `}` behind `tokens` ends an embedded expression: one is open, and every
/// brace that was opened inside it has been closed.
pub open spec fn closes_expression(tokens: Seq<TokenView>) -> bool {
    brace_stack(tokens).len() > 0 && brace_stack(tokens).last() == 0
}

pub open spec fn hashbang_step(src: Seq<char>, pos: int, tokens: Seq<TokenView>) -> Option<Step> {
    if tokens.len() == 0 {
        match hashbang_at(src, pos) {
            Some((comment, end)) => Some(Step::Emit { tokens: seq![TokenView::Comment(comment)], end }),
            None => None,
        }
    } else {
        None
    }
}

pub open spec fn whitespace_step(src: Seq<char>, pos: int) -> Option<Step> {
    if char_at(src, pos) matches Some(c) && char_is_whitespace(c) {
        Some(Step::Skip { end: pos + 1 })
    } else {
        None
    }
}

pub open spec fn comment_step(src: Seq<char>, pos: int) -> Option<Step> {
    match comment_at(src, pos) {
        Scan::Match { value, end } => Some(Step::Emit { tokens: seq![TokenView::Comment(value)], end }),
        Scan::Fail { error } => Some(Step::Fail { error }),
        Scan::NoMatch => None,
    }
}

pub open spec fn template_start_step(src: Seq<char>, pos: int) -> Option<Step> {
    match template_start_at(src, pos) {
        Scan::Match { value, end } => Some(Step::Emit { tokens: segment_tokens(value), end }),
        Scan::Fail { error } => Some(Step::Fail { error }),
        Scan::NoMatch => None,
    }
}

pub open spec fn identifier_step(src: Seq<char>, pos: int) -> Option<Step> {
    match identifier_at(src, pos) {
        Some((token, end)) => Some(Step::Emit { tokens: seq![token], end }),
        None => None,
    }
}

pub open spec fn template_expr_end_step(src: Seq<char>, pos: int, tokens: Seq<TokenView>) -> Option<
    Step,
> {
    if closes_expression(tokens) {
        match template_expr_end_at(src, pos) {
            Scan::Match { value, end } => Some(
                Step::Emit {
                    tokens: seq![TokenView::TemplateLiteralExprClose] + segment_tokens(value),
                    end,
                },
            ),
            Scan::Fail { error } => Some(Step::Fail { error }),
            Scan::NoMatch => None,
        }
    } else {
        None
    }
}

pub open spec fn regex_step(src: Seq<char>, pos: int, tokens: Seq<TokenView>) -> Option<Step> {
    match regex_at(src, pos, last_token(tokens)) {
        Scan::Match { value, end } => Some(
            Step::Emit { tokens: seq![TokenView::RegexLiteral(value.0, value.1)], end },
        ),
        Scan::Fail { error } => Some(Step::Fail { error }),
        Scan::NoMatch => None,
    }
}

pub open spec fn string_step(src: Seq<char>, pos: int) -> Option<Step> {
    match string_at(src, pos) {
        Scan::Match { value, end } => Some(
            Step::Emit { tokens: seq![TokenView::StringLiteral(value)], end },
        ),
        Scan::Fail { error } => Some(Step::Fail { error }),
        Scan::NoMatch => None,
    }
}

pub open spec fn number_step(src: Seq<char>, pos: int) -> Option<Step> {
    match number_at(src, pos) {
        Scan::Match { value, end } => Some(
            Step::Emit { tokens: seq![TokenView::NumericLiteral(value)], end },
        ),
        Scan::Fail { error } => Some(Step::Fail { error }),
        Scan::NoMatch => None,
    }
}

pub open spec fn punctuation_step(src: Seq<char>, pos: int) -> Option<Step> {
    match punctuation_at(src, pos) {
        Some((kind, end)) => Some(Step::Emit { tokens: seq![TokenView::Punctuation(kind)], end }),
        None => None,
    }
}

pub open spec fn operator_step(src: Seq<char>, pos: int) -> Option<Step> {
    match operator_at(src, pos) {
        Some((kind, end)) => Some(Step::Emit { tokens: seq![TokenView::Operator(kind)], end }),
        None => None,
    }
}

/// What the tokenizer does at `pos`, a position inside `src`, with `tokens` emitted so
/// far: the finding of the first recognizer that finds anything, in this order. A
/// hashbang line, where no token was emitted yet; white space; a comment; the start of
/// a template literal; a word; the end of an embedded expression, where one is open and
/// its braces are balanced; a regular expression literal, where the last token lets
/// one start; a string literal; a numeric literal; punctuation; an operator. Where
/// none finds anything the character at `pos` is not recognized.
pub open spec fn step_at(src: Seq<char>, pos: int, tokens: Seq<TokenView>) -> Step {
    if let Some(step) = hashbang_step(src, pos, tokens) {
        step
    } else if let Some(step) = whitespace_step(src, pos) {
        step
    } else if let Some(step) = comment_step(src, pos) {
        step
    } else if let Some(step) = template_start_step(src, pos) {
        step
    } else if let Some(step) = identifier_step(src, pos) {
        step
    } else if let Some(step) = template_expr_end_step(src, pos, tokens) {
        step
    } else if let Some(step) = regex_step(src, pos, tokens) {
        step
    } else if let Some(step) = string_step(src, pos) {
        step
    } else if let Some(step) = number_step(src, pos) {
        step
    } else if let Some(step) = punctuation_step(src, pos) {
        step
    } else if let Some(step) = operator_step(src, pos) {
        step
    } else {
        Step::Fail {
            error: LexError { kind: DiagnosticKind::UnrecognizedToken(src[pos]), start: pos, end: pos },
        }
    }
}

/// The outcome of tokenizing `src` from `pos` on, `tokens` having been emitted for the
/// text in front of `pos` and `opens` being where the embedded expressions start that
/// these tokens leave open: all tokens in order, or the first failure. A text that ends
/// while an embedded expression of a template is open fails, from the start of the
/// innermost such expression to its end.
pub open spec fn lex_from(
    src: Seq<char>,
    pos: int,
    tokens: Seq<TokenView>,
    opens: Seq<SourcePosition>,
) -> Result<Seq<TokenView>, LexError>
    decreases src.len() - pos,
{
    if pos < 0 || pos >= src.len() {
        if template_depth(tokens) > 0 {
            Err(
                LexError {
                    kind: DiagnosticKind::UnterminatedTemplate,
                    start: opens.last().offset as int,
                    end: src.len() as int,
                },
            )
        } else {
            Ok(tokens)
        }
    } else {
        match step_at(src, pos, tokens) {
            Step::Skip { end } => if pos < end <= src.len() {
                lex_from(src, end, tokens, opens)
            } else {
                Ok(tokens)
            },
            Step::Emit { tokens: emitted, end } => if pos < end <= src.len() {
                lex_from(
                    src,
                    end,
                    tokens + emitted,
                    opens_after(opens, emitted, position_at(src, end)),
                )
            } else {
                Ok(tokens)
            },
            Step::Fail { error } => Err(error),
        }
    }
}

/// The outcome of tokenizing `src`.
pub open spec fn lex(src: Seq<char>) -> Result<Seq<TokenView>, LexError> {
    lex_from(src, 0, Seq::empty(), Seq::empty())
}

/// Whether `r` is what tokenizing `src`, the text of the unit `name`, is to give: the
/// tokens of `lex`, or a diagnostic for its failure.
pub open spec fn tokenized(src: Seq<char>, name: Seq<char>, r: Result<Vec<Token>, Diagnostic>) -> bool {
    match lex(src) {
        Ok(tokens) => r matches Ok(found) && token_views(found@) == tokens,
        Err(error) => r matches Err(d) && d.describes(error, src, name),
    }
}

/// Every step that does not fail moves forward, and not beyond the end of the text.
pub proof fn lemma_step_advances(src: Seq<char>, pos: int, tokens: Seq<TokenView>)
    requires
        0 <= pos < src.len(),
    ensures
        step_at(src, pos, tokens) matches Step::Skip { end } ==> pos < end <= src.len(),
        step_at(src, pos, tokens) matches Step::Emit { end, .. } ==> pos < end <= src.len(),
{
    if pos + 2 <= src.len() {
        lemma_run_end(src, pos + 2, CharClass::LineContent);
        lemma_block_comment_close(src, pos + 2);
    }
    lemma_text_at(src, pos, pos + 1, TextMode::Template);
    lemma_text_at(src, pos, pos + 1, TextMode::Quoted('"'));
    lemma_text_at(src, pos, pos + 1, TextMode::Quoted('\''));
    lemma_run_end(src, pos + 1, CharClass::IdentifierPart);
    lemma_regex_advances(src, pos, last_token(tokens));
    lemma_number_advances(src, pos);
    lemma_longest_match(
        PunctuationType::lexemes(),
        src,
        pos,
        PunctuationType::lexemes().len() as int,
    );
    lemma_longest_match(OperatorType::lexemes(), src, pos, OperatorType::lexemes().len() as int);
}

/// Whether every token of `tokens` that closes an embedded expression stands behind
/// tokens that leave one open.
pub open spec fn well_nested(tokens: Seq<TokenView>) -> bool {
    forall|i: int|
        0 <= i < tokens.len() && (#[trigger] tokens[i]) is TemplateLiteralExprClose
            ==> template_depth(tokens.take(i)) > 0
}

/// A step emits the closing of an embedded expression only where one is open.
pub proof fn lemma_step_keeps_nesting(src: Seq<char>, pos: int, tokens: Seq<TokenView>)
    requires
        0 <= pos < src.len(),
        well_nested(tokens),
    ensures
        step_at(src, pos, tokens) matches Step::Emit { tokens: emitted, .. } ==> well_nested(
            tokens + emitted,
        ),
{
    if let Step::Emit { tokens: emitted, end } = step_at(src, pos, tokens) {
        let all = tokens + emitted;
        assert forall|i: int|
            0 <= i < all.len() && (#[trigger] all[i]) is TemplateLiteralExprClose implies template_depth(
            all.take(i),
        ) > 0 by {
            if i < tokens.len() {
                assert(all.take(i) =~= tokens.take(i));
                assert(all[i] == tokens[i]);
            } else {
                assert(all[i] == emitted[i - tokens.len()]);
                assert(i == tokens.len());
                assert(all.take(i) =~= tokens);
            }
        }
    }
}

/// The template depth never falls below zero: in the tokens of a text, every closing
/// of an embedded expression stands behind tokens that leave one open.
pub proof fn lemma_lex_from_well_nested(
    src: Seq<char>,
    pos: int,
    tokens: Seq<TokenView>,
    opens: Seq<SourcePosition>,
)
    requires
        0 <= pos,
        well_nested(tokens),
    ensures
        lex_from(src, pos, tokens, opens) matches Ok(all) ==> well_nested(all) && template_depth(
            all,
        ) == 0,
    decreases src.len() - pos,
{
    if pos < src.len() {
        lemma_step_advances(src, pos, tokens);
        lemma_step_keeps_nesting(src, pos, tokens);
        match step_at(src, pos, tokens) {
            Step::Skip { end } => {
                lemma_lex_from_well_nested(src, end, tokens, opens);
            },
            Step::Emit { tokens: emitted, end } => {
                lemma_lex_from_well_nested(
                    src,
                    end,
                    tokens + emitted,
                    opens_after(opens, emitted, position_at(src, end)),
                );
            },
            Step::Fail { error } => {},
        }
    }
}

/// The tokens of every text are well nested.
pub proof fn lemma_lex_well_nested(src: Seq<char>)
    ensures
        lex(src) matches Ok(all) ==> well_nested(all),
{
    lemma_lex_from_well_nested(src, 0, Seq::empty(), Seq::empty());
}

/// The tokens of every text close each embedded expression that they open: behind them
/// the template depth is zero.
pub proof fn lemma_lex_closes_every_expression(src: Seq<char>)
    ensures
        lex(src) matches Ok(all) ==> template_depth(all) == 0,
{
    lemma_lex_from_well_nested(src, 0, Seq::empty(), Seq::empty());
}

/// How many of `tokens` open an embedded expression.
pub open spec fn opened(tokens: Seq<TokenView>) -> nat
    decreases tokens.len(),
{
    if tokens.len() == 0 {
        0
    } else if tokens.last() is TemplateLiteralExprOpen {
        opened(tokens.drop_last()) + 1
    } else {
        opened(tokens.drop_last())
    }
}

/// How many of `tokens` close an embedded expression.
pub open spec fn closed(tokens: Seq<TokenView>) -> nat
    decreases tokens.len(),
{
    if tokens.len() == 0 {
        0
    } else if tokens.last() is TemplateLiteralExprClose {
        closed(tokens.drop_last()) + 1
    } else {
        closed(tokens.drop_last())
    }
}

/// Behind well nested tokens the template depth is the number of openings less the
/// number of closings.
pub proof fn lemma_depth_counts(tokens: Seq<TokenView>)
    requires
        well_nested(tokens),
    ensures
        template_depth(tokens) == opened(tokens) - closed(tokens),
    decreases tokens.len(),
{
    if tokens.len() > 0 {
        let front = tokens.drop_last();
        assert(tokens.take(tokens.len() - 1) =~= front);
        assert forall|i: int|
            0 <= i < front.len() && (#[trigger] front[i]) is TemplateLiteralExprClose implies template_depth(
            front.take(i),
        ) > 0 by {
            assert(front[i] == tokens[i]);
            assert(front.take(i) =~= tokens.take(i));
        }
        lemma_depth_counts(front);
        if tokens.last() is TemplateLiteralExprClose {
            assert(tokens[tokens.len() - 1] is TemplateLiteralExprClose);
        }
    }
}

/// In the tokens of a text, no more embedded expressions are closed than were opened
/// at any point, and as many in all.
pub proof fn lemma_lex_balanced(src: Seq<char>)
    ensures
        lex(src) matches Ok(all) ==> {
            &&& opened(all) == closed(all)
            &&& forall|k: int| 0 <= k <= all.len() ==> closed(#[trigger] all.take(k)) <= opened(all.take(k))
        },
{
    lemma_lex_from_well_nested(src, 0, Seq::empty(), Seq::empty());
    if let Ok(all) = lex(src) {
        lemma_depth_counts(all);
        assert forall|k: int| 0 <= k <= all.len() implies closed(#[trigger] all.take(k)) <= opened(
            all.take(k),
        ) by {
            let front = all.take(k);
            assert forall|i: int|
                0 <= i < front.len() && (#[trigger] front[i]) is TemplateLiteralExprClose implies template_depth(
                front.take(i),
            ) > 0 by {
                assert(front[i] == all[i]);
                assert(front.take(i) =~= all.take(i));
            }
            lemma_depth_counts(front);
        }
    }
}

/// Tokenizing is a function of the text and the name of its unit: two outcomes for the
/// same text hold the same tokens, or the same diagnostic.
pub proof fn lemma_tokenize_deterministic(
    src: Seq<char>,
    name: Seq<char>,
    first: Result<Vec<Token>, Diagnostic>,
    second: Result<Vec<Token>, Diagnostic>,
)
    requires
        tokenized(src, name, first),
        tokenized(src, name, second),
    ensures
        match (first, second) {
            (Ok(a), Ok(b)) => token_views(a@) == token_views(b@),
            (Err(a), Err(b)) => a.kind == b.kind && a.span.source_name@ == b.span.source_name@
                && a.span.start == b.span.start && a.span.end == b.span.end,
            _ => false,
        },
{
}

/// What a tokenize call keeps between its rounds: the tokens emitted so far, and for
/// each embedded expression of a template literal that is open, the number of braces
/// that were opened inside it and not closed yet, and where it starts.
pub struct Session {
    tokens: Vec<Token>,
    braces: Vec<usize>,
    opens: Vec<SourcePosition>,
}

impl View for Session {
    type V = Seq<TokenView>;

    /// The tokens emitted so far.
    closed spec fn view(&self) -> Seq<TokenView> {
        token_views(self.tokens@)
    }
}

impl Session {
    /// Where the embedded expressions that are open start, outermost first.
    pub closed spec fn opens(&self) -> Seq<SourcePosition> {
        self.opens@
    }

    /// The brace counts are those that the emitted tokens give, and there is one start
    /// for each open embedded expression.
    pub closed spec fn wf(&self) -> bool {
        &&& self.braces@.len() == brace_stack(self@).len()
        &&& self.opens@.len() == self.braces@.len()
        &&& forall|i: int|
            0 <= i < self.braces@.len() ==> {
                &&& (#[trigger] self.braces@[i]) as nat == brace_stack(self@)[i]
                &&& self.braces@[i] <= self.tokens@.len()
            }
    }

    /// A session with nothing emitted.
    pub fn new() -> (session: Session)
        ensures
            session.wf(),
            session@ == Seq::<TokenView>::empty(),
            session.opens() == Seq::<SourcePosition>::empty(),
    {
        let session = Session { tokens: Vec::new(), braces: Vec::new(), opens: Vec::new() };
        assert(session@ =~= Seq::<TokenView>::empty());
        session
    }

    /// Whether nothing was emitted yet.
    pub fn is_empty(&self) -> (empty: bool)
        ensures
            empty == (self@.len() == 0),
    {
        self.tokens.len() == 0
    }

    /// The token that was emitted last.
    pub fn last(&self) -> (token: Option<&Token>)
        ensures
            previous_view(token) == last_token(self@),
    {
        if self.tokens.len() > 0 {
            Some(&self.tokens[self.tokens.len() - 1])
        } else {
            None
        }
    }

    /// How many embedded expressions of template literals are open.
    pub fn template_depth(&self) -> (depth: usize)
        requires
            self.wf(),
        ensures
            depth == template_depth(self@),
    {
        self.braces.len()
    }

    /// Whether a `}` would end an embedded expression now.
    pub fn closes_expression(&self) -> (closes: bool)
        requires
            self.wf(),
        ensures
            closes == closes_expression(self@),
    {
        self.braces.len() > 0 && self.braces[self.braces.len() - 1] == 0
    }

    /// Where the innermost open embedded expression starts, if one is open.
    pub fn innermost_open(&self) -> (start: Option<SourcePosition>)
        requires
            self.wf(),
        ensures
            self.opens().len() == template_depth(self@),
            start == if template_depth(self@) > 0 {
                Some(self.opens().last())
            } else {
                None
            },
    {
        if self.opens.len() > 0 {
            Some(self.opens[self.opens.len() - 1])
        } else {
            None
        }
    }

    /// Emits `token`, which was read from text that ends at `end`.
    pub fn push(&mut self, token: Token, end: SourcePosition)
        requires
            old(self).wf(),
        ensures
            final(self).wf(),
            final(self)@ == old(self)@.push(token@),
            final(self).opens() == opens_behind(old(self).opens(), token@, end),
    {
        let ghost before = self@;
        let ghost after = before.push(token@);
        let opens_expression = match &token {
            Token::TemplateLiteralExprOpen(_) => true,
            _ => false,
        };
        let closes_expression = match &token {
            Token::TemplateLiteralExprClose(_) => true,
            _ => false,
        };
        let opens_brace = match &token {
            Token::Punctuation(p) => p.kind == PunctuationType::OpenBrace,
            _ => false,
        };
        let closes_brace = match &token {
            Token::Punctuation(p) => p.kind == PunctuationType::CloseBrace,
            _ => false,
        };
        self.tokens.push(token);
        let emitted: usize = self.tokens.len();
        let open: usize = self.braces.len();
        proof {
            assert(self@ =~= after);
            assert(after.drop_last() =~= before);
            assert(after.last() == token@);
        }
        if opens_expression {
            self.braces.push(0);
            self.opens.push(end);
        } else if closes_expression {
            if open > 0 {
                let _ = self.braces.pop();
                let _ = self.opens.pop();
            }
        } else if opens_brace {
            if open > 0 {
                let count: usize = self.braces[open - 1];
                self.braces.set(open - 1, count + 1);
            }
        } else if closes_brace {
            if open > 0 {
                let count: usize = self.braces[open - 1];
                if count > 0 {
                    self.braces.set(open - 1, count - 1);
                }
            }
        }
    }

    /// The tokens that were emitted.
    pub fn into_tokens(self) -> (tokens: Vec<Token>)
        ensures
            token_views(tokens@) == self@,
    {
        self.tokens
    }
}

/// An opened embedded expression makes the template depth one more.
pub proof fn lemma_expr_open_increments_depth(tokens: Seq<TokenView>)
    ensures
        template_depth(tokens.push(TokenView::TemplateLiteralExprOpen)) == template_depth(tokens)
            + 1,
{
    assert(tokens.push(TokenView::TemplateLiteralExprOpen).drop_last() =~= tokens);
}

/// A closed embedded expression makes the template depth one less.
pub proof fn lemma_expr_close_decrements_depth(tokens: Seq<TokenView>)
    requires
        template_depth(tokens) > 0,
    ensures
        template_depth(tokens.push(TokenView::TemplateLiteralExprClose)) == template_depth(tokens)
            - 1,
{
    assert(tokens.push(TokenView::TemplateLiteralExprClose).drop_last() =~= tokens);
}

/// Passes over the next character where `next_is_white_space` says that it is white
/// space, and tells whether it did.
pub fn skip_white_space(chars: &mut CodeIter, next_is_white_space: bool) -> (skipped: bool)
    requires
        old(chars).wf(),
    ensures
        final(chars).follows(old(chars)),
        skipped == (next_is_white_space && old(chars).offset() < old(chars).source().len()),
        final(chars).offset() == if skipped {
            old(chars).offset() + 1
        } else {
            old(chars).offset()
        },
{
    if next_is_white_space {
        chars.next().is_some()
    } else {
        false
    }
}

/// Does one round at the cursor, which stands inside the text.
pub fn lex_step(chars: &mut CodeIter, session: &mut Session) -> (r: Result<(), Diagnostic>)
    requires
        old(chars).wf(),
        old(session).wf(),
        old(chars).offset() < old(chars).source().len(),
    ensures
        final(chars).follows(old(chars)),
        final(session).wf(),
        match step_at(old(chars).source(), old(chars).offset(), old(session)@) {
            Step::Skip { end } => r is Ok && final(chars).offset() == end && final(session)@ == old(
                session,
            )@ && final(session).opens() == old(session).opens(),
            Step::Emit { tokens, end } => r is Ok && final(chars).offset() == end && final(session)@
                == old(session)@ + tokens && final(session).opens() == opens_after(
                old(session).opens(),
                tokens,
                position_at(old(chars).source(), end),
            ),
            Step::Fail { error } => r matches Err(d) && d.describes(
                error,
                old(chars).source(),
                old(chars).name(),
            ) && final(session)@ == old(session)@ && final(session).opens() == old(
                session,
            ).opens(),
        },
{
    let ghost src = chars.source();
    let ghost pos = chars.offset();
    let ghost before = session@;
    proof {
        reveal_with_fuel(opens_after, 4);
    }

    if session.is_empty() {
        if let Some(comment) = try_parse_hashbang_comment(chars) {
            let end = chars.current_position();
            session.push(Token::Comment(comment), end);
            assert(session@ =~= before + seq![TokenView::Comment(comment.kind@)]);
            return Ok(());
        }
    }
    let next_is_white_space = match chars.peek() {
        Some(next_char) => next_char.is_whitespace(),
        None => false,
    };
    if skip_white_space(chars, next_is_white_space) {
        return Ok(());
    }
    match try_parse_comment(chars) {
        Ok(Some(comment)) => {
            let end = chars.current_position();
            session.push(Token::Comment(comment), end);
            assert(session@ =~= before + seq![TokenView::Comment(comment.kind@)]);
            return Ok(());
        },
        Ok(None) => {},
        Err(d) => {
            return Err(d);
        },
    }
    match try_parse_template_literal_start(chars) {
        Ok(Some((template_content, template_expr_open))) => {
            let end = chars.current_position();
            let ghost segment = (template_content.value@, template_content.is_terminal);
            session.push(Token::TemplateLiteralString(template_content), end);
            if let Some(template_expr_open) = template_expr_open {
                session.push(Token::TemplateLiteralExprOpen(template_expr_open), end);
            }
            assert(session@ =~= before + segment_tokens(segment));
            return Ok(());
        },
        Ok(None) => {},
        Err(d) => {
            return Err(d);
        },
    }
    match try_parse_identifier(chars) {
        Ok(Some(parse_result)) => {
            let end = chars.current_position();
            let ghost token = parse_result.token_view();
            match parse_result {
                IdentParseResult::Identifier(ident) => {
                    session.push(Token::Ident(ident), end);
                },
                IdentParseResult::Keyword(keyword) => {
                    session.push(Token::Keyword(keyword), end);
                },
                IdentParseResult::ValueLiteral(value_literal) => {
                    session.push(Token::ValueLiteral(value_literal), end);
                },
                IdentParseResult::Operator(operator) => {
                    session.push(Token::Operator(operator), end);
                },
            }
            assert(session@ =~= before + seq![token]);
            return Ok(());
        },
        Ok(None) => {},
        Err(d) => {
            return Err(d);
        },
    }
    if session.closes_expression() {
        match try_parse_template_literal_expr_end(chars) {
            Ok(Some((expr_close, template_content, expr_open))) => {
                let end = chars.current_position();
                let ghost segment = (template_content.value@, template_content.is_terminal);
                session.push(Token::TemplateLiteralExprClose(expr_close), end);
                session.push(Token::TemplateLiteralString(template_content), end);
                if let Some(expr_open) = expr_open {
                    session.push(Token::TemplateLiteralExprOpen(expr_open), end);
                }
                assert(session@ =~= before + (seq![TokenView::TemplateLiteralExprClose]
                    + segment_tokens(segment)));
                return Ok(());
            },
            Ok(None) => {},
            Err(d) => {
                return Err(d);
            },
        }
    }
    match try_parse_regex_literal(chars, session.last()) {
        Ok(Some(regexp)) => {
            let end = chars.current_position();
            let ghost token = TokenView::RegexLiteral(regexp.pattern@, regexp.flags@);
            session.push(Token::RegexLiteral(regexp), end);
            assert(session@ =~= before + seq![token]);
            return Ok(());
        },
        Ok(None) => {},
        Err(d) => {
            return Err(d);
        },
    }
    match try_parse_string(chars) {
        Ok(Some(string_literal)) => {
            let end = chars.current_position();
            let ghost token = TokenView::StringLiteral(string_literal.value@);
            session.push(Token::StringLiteral(string_literal), end);
            assert(session@ =~= before + seq![token]);
            return Ok(());
        },
        Ok(None) => {},
        Err(d) => {
            return Err(d);
        },
    }
    match try_parse_number(chars) {
        Ok(Some(number_value)) => {
            let literal = NumberLiteral::new(number_value);
            let end = chars.current_position();
            let ghost token = TokenView::NumericLiteral(literal@);
            session.push(Token::NumericLiteral(literal), end);
            assert(session@ =~= before + seq![token]);
            return Ok(());
        },
        Ok(None) => {},
        Err(d) => {
            return Err(d);
        },
    }
    if let Some(punctuation) = try_parse_punctuation(chars) {
        let end = chars.current_position();
        session.push(Token::Punctuation(punctuation), end);
        assert(session@ =~= before + seq![TokenView::Punctuation(punctuation.kind)]);
        return Ok(());
    }
    if let Some(operator) = try_parse_operator(chars) {
        let end = chars.current_position();
        session.push(Token::Operator(operator), end);
        assert(session@ =~= before + seq![TokenView::Operator(operator.kind)]);
        return Ok(());
    }
    let unrecognized = match chars.peek() {
        Some(c) => c,
        None => '?',
    };
    Err(Diagnostic::new(DiagnosticKind::UnrecognizedToken(unrecognized), chars.current_span()))
}

/// Tokenizes the text `src` of the source unit `file_name`: gives all its tokens in
/// order, comments among them, or the diagnostic for the first thing in it that is no
/// token. A text that ends inside an embedded expression of a template is such a thing.
pub fn tokenize(src: &str, file_name: &str) -> (r: Result<Vec<Token>, Diagnostic>)
    requires
        src@.len() < usize::MAX,
    ensures
        tokenized(src@, file_name@, r),
{
    let mut chars = CodeIter::new(src, file_name);
    let mut session = Session::new();
    while !chars.is_at_end()
        invariant
            chars.wf(),
            chars.source() == src@,
            chars.name() == file_name@,
            session.wf(),
            lex(src@) == lex_from(src@, chars.offset(), session@, session.opens()),
            forall|i: int|
                0 <= i < session.opens().len() ==> (#[trigger] session.opens()[i])
                    == position_at(src@, session.opens()[i].offset as int),
        decreases chars.source().len() - chars.offset(),
    {
        let ghost opened = session.opens();
        proof {
            lemma_step_advances(src@, chars.offset(), session@);
            if let Step::Emit { tokens, end } = step_at(src@, chars.offset(), session@) {
                lemma_opens_after_members(opened, tokens, position_at(src@, end));
            }
        }
        match lex_step(&mut chars, &mut session) {
            Ok(()) => {},
            Err(d) => {
                return Err(d);
            },
        }
    }
    match session.innermost_open() {
        Some(start) => Err(
            Diagnostic::new(DiagnosticKind::UnterminatedTemplate, chars.span_from(start)),
        ),
        None => Ok(session.into_tokens()),
    }
}

} // verus!
