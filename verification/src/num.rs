//! Numeric literals: decimal digits, an optional fraction and an optional exponent.

use crate::code_iter::{char_at, CodeIter};
use crate::diagnostic::{Diagnostic, DiagnosticKind, LexError, Scan};
use crate::utils::{
    decimal_digit, identifier_start, is_decimal_digit, is_identifier_start, lemma_run_end,
    run_end, CharClass,
};
use vstd::prelude::*;
use vstd::string::{StrSliceExecFns, StringExecFns};

verus! {

/// A decimal number as its literal wrote it, digit for digit: the digits in front of the
/// point, those behind it, and the digits of the exponent with its sign. The number is
/// the one that `integer` followed by `fraction` writes, times ten to the power of the
/// exponent less the number of fraction digits.
#[derive(Debug, PartialEq)]
pub struct Decimal {
    pub integer: String,
    pub fraction: String,
    pub exponent_negative: bool,
    pub exponent: String,
}

pub struct DecimalView {
    pub integer: Seq<char>,
    pub fraction: Seq<char>,
    pub exponent_negative: bool,
    pub exponent: Seq<char>,
}

impl View for Decimal {
    type V = DecimalView;

    open spec fn view(&self) -> DecimalView {
        DecimalView {
            integer: self.integer@,
            fraction: self.fraction@,
            exponent_negative: self.exponent_negative,
            exponent: self.exponent@,
        }
    }
}

/// The number in decimal notation: the digits in front of the point; the point and the
/// digits behind it, where there are any; and `e`, the sign and the digits of the
/// exponent, where there are any.
pub open spec fn decimal_text(decimal: DecimalView) -> Seq<char> {
    let fraction = if decimal.fraction.len() > 0 {
        seq!['.'] + decimal.fraction
    } else {
        Seq::empty()
    };
    let sign = if decimal.exponent_negative {
        seq!['-']
    } else {
        Seq::empty()
    };
    let exponent = if decimal.exponent.len() > 0 {
        seq!['e'] + sign + decimal.exponent
    } else {
        Seq::empty()
    };
    decimal.integer + fraction + exponent
}

impl Decimal {
    /// The number in decimal notation, as a floating-point parser reads it.
    pub fn to_text(&self) -> (text: String)
        ensures
            text@ == decimal_text(self@),
    {
        let mut text = self.integer.clone();
        if !self.fraction.as_str().is_empty() {
            text.push('.');
            text.append(self.fraction.as_str());
            assert(text@ =~= self.integer@ + (seq!['.'] + self.fraction@));
        } else {
            assert(text@ =~= self.integer@ + Seq::<char>::empty());
        }
        let ghost mantissa = text@;
        if !self.exponent.as_str().is_empty() {
            text.push('e');
            if self.exponent_negative {
                text.push('-');
                assert(text@ =~= mantissa + (seq!['e'] + seq!['-']));
            } else {
                assert(text@ =~= mantissa + (seq!['e'] + Seq::<char>::empty()));
            }
            let ghost head = text@;
            text.append(self.exponent.as_str());
            assert(text@ =~= head + self.exponent@);
            assert(text@ =~= decimal_text(self@));
        } else {
            assert(text@ =~= mantissa + Seq::<char>::empty());
        }
        text
    }
}

/// The value of a numeric literal.
#[derive(Debug, PartialEq)]
pub enum NumberLiteralValue {
    Primitive(Decimal),
}

/// A numeric literal token.
#[derive(Debug, PartialEq)]
pub struct NumberLiteral {
    pub value: NumberLiteralValue,
}

impl View for NumberLiteral {
    type V = DecimalView;

    open spec fn view(&self) -> DecimalView {
        match self.value {
            NumberLiteralValue::Primitive(decimal) => decimal@,
        }
    }
}

impl NumberLiteral {
    pub fn new(value: NumberLiteralValue) -> (literal: NumberLiteral)
        ensures
            literal.value == value,
    {
        Self { value }
    }
}

/// Whether `text` holds decimal digits and nothing else.
pub open spec fn all_digits(text: Seq<char>) -> bool {
    forall|i: int| 0 <= i < text.len() ==> decimal_digit(#[trigger] text[i])
}

/// The number that `digits` write behind the digits of the number `start`.
pub open spec fn digits_from(start: nat, digits: Seq<char>) -> nat
    decreases digits.len(),
{
    if digits.len() == 0 {
        start
    } else {
        (digits_from(start, digits.drop_last()) * 10 + (digits.last() as int - '0' as int)) as nat
    }
}

/// The number that a run of decimal digits writes.
pub open spec fn digits_value(digits: Seq<char>) -> nat {
    digits_from(0, digits)
}

impl DecimalView {
    /// The digits of the number, the point left out, as one natural number.
    pub open spec fn significand(self) -> nat {
        digits_value(self.integer + self.fraction)
    }

    /// The power of ten that the significand is to be multiplied by.
    pub open spec fn scale(self) -> int {
        (if self.exponent_negative {
            -(digits_value(self.exponent) as int)
        } else {
            digits_value(self.exponent) as int
        }) - self.fraction.len()
    }

    /// Whether the three parts hold decimal digits and nothing else.
    pub open spec fn well_formed(self) -> bool {
        all_digits(self.integer) && all_digits(self.fraction) && all_digits(self.exponent)
    }

    /// The significand and the scale as machine integers, where the parts are well
    /// formed and both fit.
    pub open spec fn parts(self) -> Option<(u64, i64)> {
        if self.well_formed() && self.significand() <= u64::MAX && i64::MIN <= self.scale()
            <= i64::MAX {
            Some((self.significand() as u64, self.scale() as i64))
        } else {
            None
        }
    }
}

/// Digits behind a number never make it smaller: what the first `k` of them write is at
/// most what all of them write.
pub proof fn lemma_digits_from_grows(start: nat, digits: Seq<char>, k: int)
    requires
        all_digits(digits),
        0 <= k <= digits.len(),
    ensures
        start <= digits_from(start, digits.take(k)) <= digits_from(start, digits),
    decreases digits.len() - k,
{
    if k < digits.len() {
        lemma_digits_from_grows(start, digits, k + 1);
        assert(digits.take(k + 1).drop_last() =~= digits.take(k));
    } else {
        assert(digits.take(k) =~= digits);
    }
    lemma_digits_from_at_least(start, digits.take(k));
}

/// Digits behind a number never make it smaller than it was.
pub proof fn lemma_digits_from_at_least(start: nat, digits: Seq<char>)
    requires
        all_digits(digits),
    ensures
        start <= digits_from(start, digits),
    decreases digits.len(),
{
    if digits.len() > 0 {
        lemma_digits_from_at_least(start, digits.drop_last());
    }
}

/// The digits of two runs, one behind the other, write what the second run writes
/// behind the number of the first.
pub proof fn lemma_digits_concat(first: Seq<char>, second: Seq<char>)
    ensures
        digits_value(first + second) == digits_from(digits_value(first), second),
    decreases second.len(),
{
    if second.len() == 0 {
        assert(first + second =~= first);
    } else {
        lemma_digits_concat(first, second.drop_last());
        assert((first + second).drop_last() =~= first + second.drop_last());
    }
}

/// Reads the digits of `text` behind the number `start`. Gives nothing where `text`
/// holds anything but digits or the number does not fit.
fn read_digits(text: &str, start: u128) -> (value: Option<u128>)
    ensures
        value == if all_digits(text@) && digits_from(start as nat, text@) <= u128::MAX {
            Some(digits_from(start as nat, text@) as u128)
        } else {
            None
        },
{
    let mut value: u128 = start;
    assert(text@.take(0) =~= Seq::<char>::empty());
    for c in it: text.chars()
        invariant
            it.seq() == text@,
            all_digits(text@.take(it.index() as int)),
            value == digits_from(start as nat, text@.take(it.index() as int)),
    {
        let ghost read = it.index() as int;
        proof {
            assert(text@.take(read + 1).drop_last() =~= text@.take(read));
            assert(text@.take(read + 1).last() == c);
            if all_digits(text@) {
                lemma_digits_from_grows(start as nat, text@, read + 1);
            }
        }
        if !is_decimal_digit(c) {
            assert(!decimal_digit(text@[read]));
            return None;
        }
        let digit: u32 = c as u32 - 0x30u32;
        let shifted = match value.checked_mul(10) {
            Some(shifted) => shifted,
            None => {
                return None;
            },
        };
        value = match shifted.checked_add(digit as u128) {
            Some(sum) => sum,
            None => {
                return None;
            },
        };
        assert forall|i: int| 0 <= i < read + 1 implies decimal_digit(
            #[trigger] text@.take(read + 1)[i],
        ) by {
            if i < read {
                assert(text@.take(read + 1)[i] == text@.take(read)[i]);
            }
        }
    }
    assert(text@.take(text@.len() as int) =~= text@);
    Some(value)
}

impl Decimal {
    /// The number as a significand and a power of ten to multiply it by, where its parts
    /// hold digits only and both fit: the number is `significand * 10^scale`.
    pub fn significand_and_scale(&self) -> (parts: Option<(u64, i64)>)
        ensures
            parts == self@.parts(),
    {
        let ghost view = self@;
        proof {
            lemma_digits_concat(view.integer, view.fraction);
            if all_digits(view.fraction) {
                lemma_digits_from_at_least(digits_value(view.integer), view.fraction);
            }
        }
        let integer = match read_digits(self.integer.as_str(), 0) {
            Some(integer) => integer,
            None => {
                return None;
            },
        };
        let significand = match read_digits(self.fraction.as_str(), integer) {
            Some(significand) => significand,
            None => {
                return None;
            },
        };
        if significand > 0xFFFF_FFFF_FFFF_FFFFu128 {
            return None;
        }
        let fraction_len: usize = self.fraction.as_str().unicode_len();
        let exponent = match read_digits(self.exponent.as_str(), 0) {
            Some(exponent) => exponent,
            None => {
                return None;
            },
        };
        if exponent > 0x2_0000_0000_0000_0000u128 {
            return None;
        }
        let magnitude: i128 = exponent as i128;
        let signed: i128 = if self.exponent_negative {
            -magnitude
        } else {
            magnitude
        };
        let scale: i128 = signed - fraction_len as i128;
        if scale < -0x8000_0000_0000_0000i128 || scale > 0x7FFF_FFFF_FFFF_FFFFi128 {
            return None;
        }
        Some((significand as u64, scale as i64))
    }
}

/// Whether a numeric literal starts at `pos`: with a digit, or with a point in front of
/// a digit.
pub open spec fn number_starts_at(src: Seq<char>, pos: int) -> bool {
    match char_at(src, pos) {
        Some(c) => decimal_digit(c) || (c == '.' && (char_at(src, pos + 1) matches Some(d)
            && decimal_digit(d))),
        None => false,
    }
}

/// A literal that ends at `end`: malformed where a word starts right behind it.
pub open spec fn number_ending_at(src: Seq<char>, pos: int, end: int, value: DecimalView) -> Scan<
    DecimalView,
> {
    if char_at(src, end) matches Some(c) && identifier_start(c) {
        Scan::Fail { error: LexError { kind: DiagnosticKind::MalformedNumber, start: pos, end } }
    } else {
        Scan::Match { value, end }
    }
}

/// The numeric literal at `pos`: the longest run of digits; behind it, where a point
/// follows, the point and the longest run of digits; behind that, where `e` or `E`
/// follows, that letter, a sign or none, and the longest run of digits, which must not
/// be empty.
pub open spec fn number_at(src: Seq<char>, pos: int) -> Scan<DecimalView> {
    if !number_starts_at(src, pos) {
        Scan::NoMatch
    } else {
        let integer_end = run_end(src, pos, CharClass::Digit);
        let has_fraction = char_at(src, integer_end) == Some('.');
        let fraction_start = if has_fraction {
            integer_end + 1
        } else {
            integer_end
        };
        let fraction_end = if has_fraction {
            run_end(src, fraction_start, CharClass::Digit)
        } else {
            integer_end
        };
        let integer = src.subrange(pos, integer_end);
        let fraction = src.subrange(fraction_start, fraction_end);
        if char_at(src, fraction_end) == Some('e') || char_at(src, fraction_end) == Some('E') {
            let sign = char_at(src, fraction_end + 1);
            let digits_start = if sign == Some('+') || sign == Some('-') {
                fraction_end + 2
            } else {
                fraction_end + 1
            };
            let end = run_end(src, digits_start, CharClass::Digit);
            if end == digits_start {
                Scan::Fail {
                    error: LexError {
                        kind: DiagnosticKind::MalformedNumber,
                        start: pos,
                        end: digits_start,
                    },
                }
            } else {
                number_ending_at(
                    src,
                    pos,
                    end,
                    DecimalView {
                        integer,
                        fraction,
                        exponent_negative: sign == Some('-'),
                        exponent: src.subrange(digits_start, end),
                    },
                )
            }
        } else {
            number_ending_at(
                src,
                pos,
                fraction_end,
                DecimalView { integer, fraction, exponent_negative: false, exponent: Seq::empty() },
            )
        }
    }
}

/// A numeric literal ends behind its start, inside the text.
pub proof fn lemma_number_advances(src: Seq<char>, pos: int)
    requires
        0 <= pos < src.len(),
    ensures
        number_at(src, pos) matches Scan::Match { end, .. } ==> pos < end <= src.len(),
{
    lemma_number_runs(src, pos);
}

/// The parts of a numeric literal hold decimal digits and nothing else.
pub proof fn lemma_number_parts_are_digits(src: Seq<char>, pos: int)
    requires
        0 <= pos < src.len(),
    ensures
        number_at(src, pos) matches Scan::Match { value, .. } ==> value.well_formed(),
{
    lemma_number_runs(src, pos);
}

/// The runs of digits that the literal at `pos` can be made of lie inside the text and
/// hold digits only: the one at `pos`, and those one and two characters behind the end
/// of the integer part and of the fraction.
proof fn lemma_number_runs(src: Seq<char>, pos: int)
    requires
        0 <= pos < src.len(),
    ensures
        ({
            let integer_end = run_end(src, pos, CharClass::Digit);
            let fraction_end = run_end(src, integer_end + 1, CharClass::Digit);
            &&& run_bounds(src, pos)
            &&& integer_end + 1 <= src.len() ==> run_bounds(src, integer_end + 1)
            &&& integer_end + 2 <= src.len() ==> run_bounds(src, integer_end + 2)
            &&& integer_end + 1 <= src.len() && fraction_end + 1 <= src.len() ==> run_bounds(
                src,
                fraction_end + 1,
            )
            &&& integer_end + 1 <= src.len() && fraction_end + 2 <= src.len() ==> run_bounds(
                src,
                fraction_end + 2,
            )
        }),
{
    lemma_run_end(src, pos, CharClass::Digit);
    let integer_end = run_end(src, pos, CharClass::Digit);
    if integer_end + 1 <= src.len() {
        lemma_run_end(src, integer_end + 1, CharClass::Digit);
        let fraction_end = run_end(src, integer_end + 1, CharClass::Digit);
        if fraction_end + 1 <= src.len() {
            lemma_run_end(src, fraction_end + 1, CharClass::Digit);
        }
        if fraction_end + 2 <= src.len() {
            lemma_run_end(src, fraction_end + 2, CharClass::Digit);
        }
    }
    if integer_end + 2 <= src.len() {
        lemma_run_end(src, integer_end + 2, CharClass::Digit);
    }
}

/// The run of digits at `pos` lies inside the text and holds digits only.
spec fn run_bounds(src: Seq<char>, pos: int) -> bool {
    &&& pos <= run_end(src, pos, CharClass::Digit) <= src.len()
    &&& forall|i: int|
        pos <= i < run_end(src, pos, CharClass::Digit) ==> decimal_digit(#[trigger] src[i])
}

/// Reads a numeric literal at the cursor. Gives `Ok(None)`, with the cursor where it
/// was, where none starts there, and `Err` where one starts and is malformed: an
/// exponent without digits, or a word right behind the literal.
pub fn try_parse_number(chars: &mut CodeIter) -> (r: Result<Option<NumberLiteralValue>, Diagnostic>)
    requires
        old(chars).wf(),
    ensures
        final(chars).follows(old(chars)),
        match number_at(old(chars).source(), old(chars).offset()) {
            Scan::NoMatch => r matches Ok(None) && final(chars).offset() == old(chars).offset(),
            Scan::Match { value, end } => r matches Ok(Some(NumberLiteralValue::Primitive(decimal)))
                && decimal@ == value && final(chars).offset() == end,
            Scan::Fail { error } => r matches Err(d) && d.describes(
                error,
                old(chars).source(),
                old(chars).name(),
            ),
        },
{
    let starts = match chars.peek() {
        Some(c) => is_decimal_digit(c) || (c == '.' && match chars.peek_nth(1) {
            Some(d) => is_decimal_digit(d),
            None => false,
        }),
        None => false,
    };
    if !starts {
        return Ok(None);
    }
    let ghost src = chars.source();
    let ghost pos = chars.offset();
    let start_pos = chars.current_position();
    proof {
        lemma_run_end(src, pos, CharClass::Digit);
    }
    let integer = chars.take_while(CharClass::Digit);
    let mut fraction = String::new();
    if chars.peek() == Some('.') {
        let _ = chars.next();
        proof {
            lemma_run_end(src, chars.offset(), CharClass::Digit);
        }
        fraction = chars.take_while(CharClass::Digit);
    } else {
        assert(fraction@ =~= src.subrange(chars.offset(), chars.offset()));
    }
    let mut exponent_negative = false;
    let mut exponent = String::new();
    let mark = chars.peek();
    if mark == Some('e') || mark == Some('E') {
        let _ = chars.next();
        let sign = chars.peek();
        if sign == Some('+') || sign == Some('-') {
            let _ = chars.next();
            exponent_negative = sign == Some('-');
        }
        proof {
            lemma_run_end(src, chars.offset(), CharClass::Digit);
        }
        let ghost digits_start = chars.offset();
        if !match chars.peek() {
            Some(d) => is_decimal_digit(d),
            None => false,
        } {
            return Err(Diagnostic::new(DiagnosticKind::MalformedNumber, chars.span_from(start_pos)));
        }
        exponent = chars.take_while(CharClass::Digit);
    } else {
        assert(exponent@ =~= Seq::<char>::empty());
    }
    let word_follows = match chars.peek() {
        Some(c) => is_identifier_start(c),
        None => false,
    };
    if word_follows {
        return Err(Diagnostic::new(DiagnosticKind::MalformedNumber, chars.span_from(start_pos)));
    }
    Ok(Some(NumberLiteralValue::Primitive(Decimal { integer, fraction, exponent_negative, exponent })))
}

} // verus!
