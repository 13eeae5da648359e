//! Character classes and scanning primitives shared by the recognizers.

use crate::code_iter::{has_prefix_at, CodeIter};
use vstd::prelude::*;
use vstd::string::StrSliceExecFns;

verus! {

/// Whether `c` has the Unicode `White_Space` property, as `char::is_whitespace` reports it.
pub uninterp spec fn char_is_whitespace(c: char) -> bool;

/// Whether `c` has the Unicode `Alphabetic` property, as `char::is_alphabetic` reports it.
pub uninterp spec fn char_is_alphabetic(c: char) -> bool;

/// Whether `c` is numeric in Unicode's sense, as `char::is_numeric` reports it.
pub uninterp spec fn char_is_numeric(c: char) -> bool;

/// `char::is_whitespace` depends on the character alone; its result is the value that
/// `char_is_whitespace` names.
pub assume_specification[ char::is_whitespace ](c: char) -> (b: bool)
    ensures
        b == char_is_whitespace(c),
;

/// `char::is_alphabetic` depends on the character alone; its result is the value that
/// `char_is_alphabetic` names.
pub assume_specification[ char::is_alphabetic ](c: char) -> (b: bool)
    ensures
        b == char_is_alphabetic(c),
;

/// `char::is_alphanumeric` is true of the characters of which `char::is_alphabetic` or
/// `char::is_numeric` is true, and of no others.
pub assume_specification[ char::is_alphanumeric ](c: char) -> (b: bool)
    ensures
        b == (char_is_alphabetic(c) || char_is_numeric(c)),
;

/// `char::from_u32` gives the character with the scalar value `i`, and nothing for a
/// surrogate or a value above `0x10FFFF`.
pub assume_specification[ char::from_u32 ](i: u32) -> (r: Option<char>)
    ensures
        r == (if is_scalar_value(i as int) {
            Some(i as char)
        } else {
            None::<char>
        }),
;

/// `String::push` appends one character to the end of the string.
pub assume_specification[ String::push ](s: &mut String, c: char)
    ensures
        final(s)@ == old(s)@.push(c),
;

/// The Unicode scalar values: every code point but the surrogates.
pub open spec fn is_scalar_value(i: int) -> bool {
    0 <= i <= 0xD7FF || 0xE000 <= i <= 0x10FFFF
}

/// The characters that end a line: line feed, carriage return, line separator and
/// paragraph separator.
pub open spec fn line_terminator(c: char) -> bool {
    c == '\n' || c == '\r' || c == '\u{2028}' || c == '\u{2029}'
}

pub fn is_line_terminator(c: char) -> (b: bool)
    ensures
        b == line_terminator(c),
{
    c == '\n' || c == '\r' || c == '\u{2028}' || c == '\u{2029}'
}

pub open spec fn decimal_digit(c: char) -> bool {
    '0' <= c <= '9'
}

pub fn is_decimal_digit(c: char) -> (b: bool)
    ensures
        b == decimal_digit(c),
{
    '0' <= c && c <= '9'
}

/// The value of a hexadecimal digit, or nothing for any other character.
pub open spec fn hex_digit_value(c: char) -> Option<int> {
    if '0' <= c <= '9' {
        Some(c as int - '0' as int)
    } else if 'a' <= c <= 'f' {
        Some(c as int - 'a' as int + 10)
    } else if 'A' <= c <= 'F' {
        Some(c as int - 'A' as int + 10)
    } else {
        None
    }
}

pub fn hex_value(c: char) -> (v: Option<u32>)
    ensures
        match hex_digit_value(c) {
            Some(d) => v == Some(d as u32) && 0 <= d < 16,
            None => v is None,
        },
{
    let code: u32 = c as u32;
    if '0' <= c && c <= '9' {
        Some(code - 0x30u32)
    } else if 'a' <= c && c <= 'f' {
        Some(code - 0x61u32 + 10u32)
    } else if 'A' <= c && c <= 'F' {
        Some(code - 0x41u32 + 10u32)
    } else {
        None
    }
}

/// The first character of an identifier: a letter, `_` or `$`.
pub open spec fn identifier_start(c: char) -> bool {
    char_is_alphabetic(c) || c == '_' || c == '$'
}

/// Whether `c` starts an identifier, given whether it is a letter.
pub fn starts_identifier(c: char, is_alphabetic: bool) -> (b: bool)
    ensures
        b == (is_alphabetic || c == '_' || c == '$'),
{
    is_alphabetic || c == '_' || c == '$'
}

/// Whether `c` may stand in an identifier behind its first character, given whether it
/// is a letter or a number.
pub fn continues_identifier(c: char, is_alphanumeric: bool) -> (b: bool)
    ensures
        b == (is_alphanumeric || c == '_' || c == '$'),
{
    is_alphanumeric || c == '_' || c == '$'
}

pub fn is_identifier_start(c: char) -> (b: bool)
    ensures
        b == identifier_start(c),
{
    starts_identifier(c, c.is_alphabetic())
}

/// What may follow the first character of an identifier: a letter, a number, `_` or `$`.
pub open spec fn identifier_part(c: char) -> bool {
    char_is_alphabetic(c) || char_is_numeric(c) || c == '_' || c == '$'
}

/// The letters that may follow the closing `/` of a regular expression literal.
pub open spec fn regex_flag(c: char) -> bool {
    c == 'g' || c == 'i' || c == 'm' || c == 's' || c == 'u' || c == 'y'
}

/// A set of characters that a recognizer consumes as one maximal run.
#[derive(Clone, Copy, Debug, PartialEq, Eq)]
pub enum CharClass {
    /// `0` to `9`.
    Digit,
    /// What may follow the first character of an identifier: a letter, a number, `_` or `$`.
    IdentifierPart,
    /// `0` to `9`, `a` to `f` and `A` to `F`.
    HexDigit,
    /// `g`, `i`, `m`, `s`, `u`, `y`.
    RegexFlag,
    /// Anything but a line terminator.
    LineContent,
    /// Anything but `/` and the line terminators.
    RegexPatternChar,
}

impl CharClass {
    pub open spec fn has(self, c: char) -> bool {
        match self {
            CharClass::Digit => decimal_digit(c),
            CharClass::HexDigit => hex_digit_value(c) is Some,
            CharClass::IdentifierPart => identifier_part(c),
            CharClass::RegexFlag => regex_flag(c),
            CharClass::LineContent => !line_terminator(c),
            CharClass::RegexPatternChar => c != '/' && !line_terminator(c),
        }
    }

    pub fn contains(self, c: char) -> (b: bool)
        ensures
            b == self.has(c),
    {
        match self {
            CharClass::Digit => is_decimal_digit(c),
            CharClass::HexDigit => hex_value(c).is_some(),
            CharClass::IdentifierPart => continues_identifier(c, c.is_alphanumeric()),
            CharClass::RegexFlag => c == 'g' || c == 'i' || c == 'm' || c == 's' || c == 'u'
                || c == 'y',
            CharClass::LineContent => !is_line_terminator(c),
            CharClass::RegexPatternChar => c != '/' && !is_line_terminator(c),
        }
    }
}

/// Where the maximal run of characters of `class` that starts at `pos` ends: the first
/// index at or after `pos` whose character is outside the class, or the end of `src`.
pub open spec fn run_end(src: Seq<char>, pos: int, class: CharClass) -> int
    decreases src.len() - pos,
{
    if 0 <= pos < src.len() && class.has(src[pos]) {
        run_end(src, pos + 1, class)
    } else {
        pos
    }
}

/// A run is made of characters of its class only, and it is maximal: it stops at the end
/// of the text or in front of a character outside the class.
pub proof fn lemma_run_end(src: Seq<char>, pos: int, class: CharClass)
    requires
        0 <= pos <= src.len(),
    ensures
        pos <= run_end(src, pos, class) <= src.len(),
        forall|i: int| pos <= i < run_end(src, pos, class) ==> class.has(#[trigger] src[i]),
        run_end(src, pos, class) < src.len() ==> !class.has(src[run_end(src, pos, class)]),
    decreases src.len() - pos,
{
    if pos < src.len() && class.has(src[pos]) {
        lemma_run_end(src, pos + 1, class);
    }
}

/// A run that is entered in its middle ends where the whole run ends.
pub proof fn lemma_run_end_from_inside(src: Seq<char>, pos: int, mid: int, class: CharClass)
    requires
        0 <= pos <= mid <= src.len(),
        forall|i: int| pos <= i < mid ==> class.has(#[trigger] src[i]),
    ensures
        run_end(src, pos, class) == run_end(src, mid, class),
    decreases mid - pos,
{
    if pos < mid {
        lemma_run_end_from_inside(src, pos + 1, mid, class);
    }
}

/// A category of tokens with fixed lexemes: operators, punctuation, reserved words.
pub trait HasPrefixLookup: Copy + Sized {
    /// The lexemes of the category, each with the kind it stands for.
    spec fn lexemes() -> Seq<(Seq<char>, Self)>;

    /// The table of `lexemes`, for the matcher to walk.
    fn table() -> (t: Vec<(&'static str, Self)>)
        ensures
            table_view(t@) == Self::lexemes(),
    ;
}

/// A table as the models see it: the lexemes by their characters.
pub open spec fn table_view<K>(t: Seq<(&'static str, K)>) -> Seq<(Seq<char>, K)> {
    t.map_values(|e: (&'static str, K)| (e.0@, e.1))
}

/// Among the first `n` entries of `table`, the index of the one with the longest lexeme
/// that stands at `pos`; of several that long, the first. Empty lexemes never match.
pub open spec fn longest_match<K>(table: Seq<(Seq<char>, K)>, src: Seq<char>, pos: int, n: int)
    -> Option<int>
    decreases n,
{
    if n <= 0 {
        None
    } else {
        let earlier = longest_match(table, src, pos, n - 1);
        let lexeme = table[n - 1].0;
        if lexeme.len() > 0 && has_prefix_at(src, pos, lexeme) && (earlier matches Some(i)
            ==> table[i].0.len() < lexeme.len()) {
            Some(n - 1)
        } else {
            earlier
        }
    }
}

/// The kind whose lexeme is the longest of `table` that stands at `pos`, and where that
/// lexeme ends.
pub open spec fn prefix_match<K>(table: Seq<(Seq<char>, K)>, src: Seq<char>, pos: int)
    -> Option<(K, int)> {
    match longest_match(table, src, pos, table.len() as int) {
        Some(i) => Some((table[i].1, pos + table[i].0.len())),
        None => None,
    }
}

/// The kind of the first entry of `table`, among its first `n`, whose lexeme is `word`.
pub open spec fn exact_match<K>(table: Seq<(Seq<char>, K)>, word: Seq<char>, n: int) -> Option<K>
    decreases n,
{
    if n <= 0 {
        None
    } else {
        match exact_match(table, word, n - 1) {
            Some(k) => Some(k),
            None => if table[n - 1].0 == word {
                Some(table[n - 1].1)
            } else {
                None
            },
        }
    }
}

/// The match is a lexeme that stands at `pos`, and no lexeme of the table that stands
/// there is longer; where nothing matches, no lexeme of the table stands there.
pub proof fn lemma_longest_match<K>(
    table: Seq<(Seq<char>, K)>,
    src: Seq<char>,
    pos: int,
    n: int,
)
    requires
        0 <= n <= table.len(),
    ensures
        match longest_match(table, src, pos, n) {
            Some(i) => {
                &&& 0 <= i < n
                &&& table[i].0.len() > 0
                &&& has_prefix_at(src, pos, table[i].0)
                &&& forall|j: int|
                    0 <= j < n && has_prefix_at(src, pos, #[trigger] table[j].0)
                        ==> table[j].0.len() <= table[i].0.len()
            },
            None => forall|j: int|
                0 <= j < n && (#[trigger] table[j]).0.len() > 0 ==> !has_prefix_at(
                    src,
                    pos,
                    table[j].0,
                ),
        },
    decreases n,
{
    if n > 0 {
        lemma_longest_match(table, src, pos, n - 1);
    }
}

/// Longest match: the kind that is found belongs to a lexeme of the table that stands at
/// `pos` and ends where the match ends, and no lexeme of the table that stands at `pos`
/// reaches further. Where nothing is found, no lexeme of the table stands at `pos`.
pub proof fn lemma_prefix_match_is_longest<K>(table: Seq<(Seq<char>, K)>, src: Seq<char>, pos: int)
    ensures
        match prefix_match(table, src, pos) {
            Some((kind, end)) => {
                &&& pos < end <= src.len()
                &&& exists|i: int|
                    0 <= i < table.len() && (#[trigger] table[i]).1 == kind && has_prefix_at(
                        src,
                        pos,
                        table[i].0,
                    ) && pos + table[i].0.len() == end
                &&& forall|j: int|
                    0 <= j < table.len() && has_prefix_at(src, pos, #[trigger] table[j].0) ==> pos
                        + table[j].0.len() <= end
            },
            None => forall|j: int|
                0 <= j < table.len() && (#[trigger] table[j]).0.len() > 0 ==> !has_prefix_at(
                    src,
                    pos,
                    table[j].0,
                ),
        },
{
    lemma_longest_match(table, src, pos, table.len() as int);
}

/// Whether two strings hold the same characters.
pub fn same_text(a: &str, b: &str) -> (same: bool)
    ensures
        same == (a@ == b@),
{
    let len: usize = a.unicode_len();
    if len != b.unicode_len() {
        return false;
    }
    let mut i: usize = 0;
    while i < len
        invariant
            i <= len,
            len == a@.len(),
            len == b@.len(),
            forall|k: int| 0 <= k < i ==> a@[k] == b@[k],
        decreases len - i,
    {
        if a.get_char(i) != b.get_char(i) {
            return false;
        }
        i = i + 1;
    }
    assert(a@ =~= b@);
    true
}

/// Looks `word` up in a table of fixed lexemes.
pub fn lookup_exact<K: Copy>(table: &Vec<(&'static str, K)>, word: &str) -> (kind: Option<K>)
    ensures
        kind == exact_match(table_view(table@), word@, table.len() as int),
{
    let mut i: usize = 0;
    while i < table.len()
        invariant
            i <= table.len(),
            exact_match(table_view(table@), word@, i as int) is None,
        decreases table.len() - i,
    {
        if same_text(table[i].0, word) {
            let kind = table[i].1;
            proof {
                lemma_exact_match_stays(table_view(table@), word@, i as int + 1, table.len() as int);
            }
            return Some(kind);
        }
        i = i + 1;
    }
    None
}

/// A word that is found among the first `n` entries is found, with the same kind, among
/// the first `m` for every `m` from `n` on.
pub proof fn lemma_exact_match_stays<K>(table: Seq<(Seq<char>, K)>, word: Seq<char>, n: int, m: int)
    requires
        0 <= n <= m,
        exact_match(table, word, n) is Some,
    ensures
        exact_match(table, word, m) == exact_match(table, word, n),
    decreases m - n,
{
    if n < m {
        lemma_exact_match_stays(table, word, n, m - 1);
    }
}

/// Reads the longest lexeme of `T` that stands at the cursor and gives its kind. Where
/// none stands there, the cursor stays where it is.
pub fn try_parse_from_prefix_lookup<T: HasPrefixLookup>(chars: &mut CodeIter) -> (kind: Option<T>)
    requires
        old(chars).wf(),
    ensures
        final(chars).follows(old(chars)),
        match prefix_match(T::lexemes(), old(chars).source(), old(chars).offset()) {
            Some((k, end)) => kind == Some(k) && final(chars).offset() == end,
            None => kind is None && final(chars).offset() == old(chars).offset(),
        },
{
    let table = T::table();
    let ghost entries = table_view(table@);
    let ghost src = chars.source();
    let ghost pos = chars.offset();
    let mut best: Option<usize> = None;
    let mut best_len: usize = 0;
    let mut i: usize = 0;
    while i < table.len()
        invariant
            i <= table.len(),
            chars.wf(),
            src == chars.source(),
            pos == chars.offset(),
            entries == table_view(table@),
            match longest_match(entries, src, pos, i as int) {
                Some(b) => best == Some(b as usize) && 0 <= b < i && best_len == entries[b].0.len()
                    && has_prefix_at(src, pos, entries[b].0),
                None => best is None,
            },
        decreases table.len() - i,
    {
        let lexeme: &str = table[i].0;
        let len: usize = lexeme.unicode_len();
        if len > 0 && chars.starts_with(lexeme) && (best.is_none() || best_len < len) {
            best = Some(i);
            best_len = len;
        }
        i = i + 1;
    }
    match best {
        Some(b) => {
            let kind = table[b].1;
            chars.advance(best_len);
            Some(kind)
        },
        None => None,
    }
}

} // verus!
