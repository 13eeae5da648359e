//! Escape sequences, as they stand behind a backslash in strings and templates.

use crate::code_iter::{char_at, CodeIter};
use crate::utils::{
    hex_digit_value, hex_value, is_line_terminator, is_scalar_value, lemma_run_end,
    lemma_run_end_from_inside, line_terminator, run_end, CharClass,
};
use vstd::prelude::*;

verus! {

/// The number that the `n` hexadecimal digits from `pos` on write, or nothing where one
/// of these characters is missing or is no hexadecimal digit.
pub open spec fn hex_run_value(src: Seq<char>, pos: int, n: nat) -> Option<int>
    decreases n,
{
    if n == 0 {
        Some(0)
    } else {
        match hex_run_value(src, pos, (n - 1) as nat) {
            Some(high) => match char_at(src, pos + n - 1) {
                Some(c) => match hex_digit_value(c) {
                    Some(digit) => Some(high * 16 + digit),
                    None => None,
                },
                None => None,
            },
            None => None,
        }
    }
}

/// Sixteen to the power of `n`.
pub open spec fn pow16(n: nat) -> nat
    decreases n,
{
    if n == 0 {
        1
    } else {
        16 * pow16((n - 1) as nat)
    }
}

/// The character with the code that the `n` hexadecimal digits from `pos` on write, and
/// the index behind them.
pub open spec fn fixed_hex_escape(src: Seq<char>, pos: int, n: nat) -> Option<(Seq<char>, int)> {
    match hex_run_value(src, pos, n) {
        Some(code) => if is_scalar_value(code) {
            Some((seq![code as char], pos + n))
        } else {
            None
        },
        None => None,
    }
}

/// The character that `{` at `pos`, one to six hexadecimal digits and `}` write.
pub open spec fn braced_hex_escape(src: Seq<char>, pos: int) -> Option<(Seq<char>, int)> {
    let digits_end = run_end(src, pos + 1, CharClass::HexDigit);
    let count = digits_end - (pos + 1);
    if 1 <= count <= 6 && char_at(src, digits_end) == Some('}') {
        match fixed_hex_escape(src, pos + 1, count as nat) {
            Some((decoded, _)) => Some((decoded, digits_end + 1)),
            None => None,
        }
    } else {
        None
    }
}

/// What the escape sequence stands for whose first character, the one behind the
/// backslash, is at `pos`, and the index behind the sequence; nothing where the text ends
/// at `pos` or the sequence is malformed.
///
/// `\n`, `\t`, `\r`, `\b`, `\f`, `\v` and `\0` stand for control characters; `\xHH`,
/// `\uHHHH` and `\u{H..}` for the character with that code; a backslash in front of a
/// line terminator for nothing at all; and a backslash in front of any other character
/// for that character.
pub open spec fn escape_at(src: Seq<char>, pos: int) -> Option<(Seq<char>, int)> {
    match char_at(src, pos) {
        None => None,
        Some(c) => if c == 'n' {
            Some((seq!['\n'], pos + 1))
        } else if c == 't' {
            Some((seq!['\t'], pos + 1))
        } else if c == 'r' {
            Some((seq!['\r'], pos + 1))
        } else if c == 'b' {
            Some((seq!['\u{8}'], pos + 1))
        } else if c == 'f' {
            Some((seq!['\u{c}'], pos + 1))
        } else if c == 'v' {
            Some((seq!['\u{b}'], pos + 1))
        } else if c == '0' {
            Some((seq!['\0'], pos + 1))
        } else if c == 'x' {
            fixed_hex_escape(src, pos + 1, 2)
        } else if c == 'u' {
            if char_at(src, pos + 1) == Some('{') {
                braced_hex_escape(src, pos + 1)
            } else {
                fixed_hex_escape(src, pos + 1, 4)
            }
        } else if line_terminator(c) {
            Some((Seq::empty(), pos + 1))
        } else {
            Some((seq![c], pos + 1))
        },
    }
}

/// An escape sequence takes up at least one character and ends inside the text.
pub proof fn lemma_escape_advances(src: Seq<char>, pos: int)
    requires
        0 <= pos,
        escape_at(src, pos) is Some,
    ensures
        pos < escape_at(src, pos).unwrap().1 <= src.len(),
        escape_at(src, pos).unwrap().0.len() <= 1,
{
    let c = src[pos];
    if c == 'x' {
        lemma_hex_run_in_text(src, pos + 1, 2);
    } else if c == 'u' {
        if char_at(src, pos + 1) == Some('{') {
            lemma_run_end(src, pos + 2, CharClass::HexDigit);
        } else {
            lemma_hex_run_in_text(src, pos + 1, 4);
        }
    }
}

/// Digits that were read lie inside the text, and `n` of them write a number below `16^n`.
pub proof fn lemma_hex_run_in_text(src: Seq<char>, pos: int, n: nat)
    requires
        0 <= pos,
        hex_run_value(src, pos, n) is Some,
    ensures
        n > 0 ==> pos + n <= src.len(),
        0 <= hex_run_value(src, pos, n).unwrap() < pow16(n),
        forall|i: int| pos <= i < pos + n ==> hex_digit_value(#[trigger] src[i]) is Some,
    decreases n,
{
    if n > 0 {
        lemma_hex_run_in_text(src, pos, (n - 1) as nat);
    }
}

/// The powers of sixteen up to the sixth.
pub proof fn lemma_pow16_small(n: nat)
    requires
        n <= 6,
    ensures
        pow16(n) <= 0x1000000,
        n <= 4 ==> pow16(n) <= 0x10000,
        n <= 2 ==> pow16(n) <= 0x100,
{
    reveal_with_fuel(pow16, 7);
}

/// Reads `n` hexadecimal digits that start `skip` characters after the cursor, without
/// moving, and gives the number they write.
fn peek_hex(chars: &CodeIter, skip: usize, n: usize) -> (code: Option<u32>)
    requires
        chars.wf(),
        n <= 6,
        skip <= 2,
    ensures
        match hex_run_value(chars.source(), chars.offset() + skip, n as nat) {
            Some(v) => code == Some(v as u32) && 0 <= v < 0x1000000,
            None => code is None,
        },
{
    let mut code: u32 = 0;
    let mut i: usize = 0;
    while i < n
        invariant
            i <= n <= 6,
            skip <= 2,
            chars.wf(),
            hex_run_value(chars.source(), chars.offset() + skip, i as nat) == Some(code as int),
        decreases n - i,
    {
        proof {
            lemma_hex_run_in_text(chars.source(), chars.offset() + skip, i as nat);
            lemma_pow16_small(i as nat);
        }
        let digit = match chars.peek_nth(skip + i) {
            Some(c) => hex_value(c),
            None => None,
        };
        match digit {
            Some(d) => {
                code = code * 16 + d;
            },
            None => {
                proof {
                    lemma_hex_run_stops(
                        chars.source(),
                        chars.offset() + skip,
                        (i + 1) as nat,
                        n as nat,
                    );
                }
                return None;
            },
        }
        i = i + 1;
    }
    proof {
        lemma_hex_run_in_text(chars.source(), chars.offset() + skip, n as nat);
        lemma_pow16_small(n as nat);
    }
    Some(code)
}

/// Where the first `n` characters are not all digits, no longer stretch is either.
pub proof fn lemma_hex_run_stops(src: Seq<char>, pos: int, n: nat, m: nat)
    requires
        n <= m,
        hex_run_value(src, pos, n) is None,
    ensures
        hex_run_value(src, pos, m) is None,
    decreases m - n,
{
    if n < m {
        lemma_hex_run_stops(src, pos, n, (m - 1) as nat);
    }
}

/// The character with this code, as a text of one character.
fn scalar(code: Option<u32>) -> (decoded: Option<String>)
    ensures
        match code {
            Some(v) => if is_scalar_value(v as int) {
                decoded matches Some(text) && text@ == seq![v as char]
            } else {
                decoded is None
            },
            None => decoded is None,
        },
{
    match code {
        Some(v) => match char::from_u32(v) {
            Some(c) => Some(single(c)),
            None => None,
        },
        None => None,
    }
}

fn is_hex_digit(c: Option<char>) -> (b: bool)
    ensures
        b == (c matches Some(d) && CharClass::HexDigit.has(d)),
{
    match c {
        Some(d) => CharClass::HexDigit.contains(d),
        None => false,
    }
}

fn single(c: char) -> (text: String)
    ensures
        text@ == seq![c],
{
    let mut text = String::new();
    text.push(c);
    assert(text@ =~= seq![c]);
    text
}

/// Reads the escape sequence at the cursor, the backslash being read already, and gives
/// what it stands for. Gives nothing where the sequence is malformed or the text has
/// ended.
pub fn parse_escape(chars: &mut CodeIter) -> (decoded: Option<String>)
    requires
        old(chars).wf(),
    ensures
        final(chars).follows(old(chars)),
        match escape_at(old(chars).source(), old(chars).offset()) {
            Some((value, end)) => decoded matches Some(text) && text@ == value
                && final(chars).offset() == end,
            None => decoded is None,
        },
{
    let ghost src = chars.source();
    let ghost pos = chars.offset();
    let c = match chars.next() {
        Some(c) => c,
        None => {
            return None;
        },
    };
    if c == 'n' {
        Some(single('\n'))
    } else if c == 't' {
        Some(single('\t'))
    } else if c == 'r' {
        Some(single('\r'))
    } else if c == 'b' {
        Some(single('\u{8}'))
    } else if c == 'f' {
        Some(single('\u{c}'))
    } else if c == 'v' {
        Some(single('\u{b}'))
    } else if c == '0' {
        Some(single('\0'))
    } else if c == 'x' {
        let decoded = scalar(peek_hex(chars, 0, 2));
        if decoded.is_some() {
            proof {
                lemma_hex_run_in_text(src, pos + 1, 2);
            }
            chars.advance(2);
        }
        decoded
    } else if c == 'u' {
        if chars.peek() == Some('{') {
            let mut count: usize = 0;
            while count < 7 && is_hex_digit(chars.peek_nth(1 + count))
                invariant
                    count <= 7,
                    chars.wf(),
                    chars.source() == src,
                    chars.offset() == pos + 1,
                    pos + 2 + count <= src.len(),
                    forall|i: int|
                        pos + 2 <= i < pos + 2 + count ==> CharClass::HexDigit.has(
                            #[trigger] src[i],
                        ),
                decreases 7 - count,
            {
                count = count + 1;
            }
            proof {
                lemma_run_end_from_inside(src, pos + 2, pos + 2 + count, CharClass::HexDigit);
                lemma_run_end(src, pos + 2 + count, CharClass::HexDigit);
            }
            if count < 1 || count > 6 || chars.peek_nth(1 + count) != Some('}') {
                return None;
            }
            let decoded = scalar(peek_hex(chars, 1, count));
            if decoded.is_some() {
                chars.advance(count + 2);
            }
            decoded
        } else {
            let decoded = scalar(peek_hex(chars, 0, 4));
            if decoded.is_some() {
                proof {
                    lemma_hex_run_in_text(src, pos + 1, 4);
                }
                chars.advance(4);
            }
            decoded
        }
    } else if is_line_terminator(c) {
        Some(String::new())
    } else {
        Some(single(c))
    }
}

} // verus!
