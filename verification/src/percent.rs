//! Shares of a balance, given as percentages in decimal text.
//!
//! A percentage such as `33.333` is read exactly, as the integer 33333 over
//! a power of ten. The share of a balance is then the whole part of
//! `balance * 33333 / 100000`, computed on integers from end to end, so that
//! a large balance loses nothing to rounding.

use vstd::prelude::*;
use vstd::string::StrSliceExecFns;
use vstd::utf8::is_ascii_chars;
use crate::amount::{amount_limit, scaled_value, Amount};
use crate::decimal::{dec_value, is_dec_digit, is_dec_text, lemma_dec_value_push, pow10};

verus! {

/// The most digits that a percentage may have after its point.
pub const MAX_FRACTION_DIGITS: usize = 17;

/// Why a percentage of a balance could not be resolved into an amount.
#[derive(Clone, Copy, Debug, PartialEq, Eq)]
pub enum ResolutionError {
    /// The balance or the percentage is not a number that can be read.
    MalformedNumber,
    /// The share does not fit in 256 bits.
    AmountOverflow,
}

/// The digits of percentage text before its first point: all of it where
/// there is no point.
pub open spec fn percent_whole(text: Seq<char>) -> Seq<char> {
    match text.index_of_first('.') {
        Some(point) => text.take(point),
        None => text,
    }
}

/// What stands after the first point of percentage text: nothing where there
/// is no point.
pub open spec fn percent_fraction(text: Seq<char>) -> Seq<char> {
    match text.index_of_first('.') {
        Some(point) => text.skip(point + 1),
        None => Seq::empty(),
    }
}

/// Percentage text without its first point.
pub open spec fn percent_digits(text: Seq<char>) -> Seq<char> {
    percent_whole(text) + percent_fraction(text)
}

/// Whether `text` is a percentage that can be read: decimal digits with at
/// most one point among them, at least one digit, at most
/// `MAX_FRACTION_DIGITS` of them after the point, and all digits together
/// a number of at most 64 bits. There is no sign and no exponent.
pub open spec fn is_percent_text(text: Seq<char>) -> bool {
    &&& is_dec_text(percent_digits(text))
    &&& percent_digits(text).len() >= 1
    &&& percent_fraction(text).len() <= MAX_FRACTION_DIGITS
    &&& dec_value(percent_digits(text)) <= u64::MAX
}

/// The numerator of the fraction of the balance that `text` stands for.
pub open spec fn percent_numerator(text: Seq<char>) -> nat {
    dec_value(percent_digits(text))
}

/// The denominator of the fraction of the balance that `text` stands for:
/// one hundred, times ten for every digit after the point.
pub open spec fn percent_denominator(text: Seq<char>) -> nat {
    100 * pow10(percent_fraction(text).len())
}

/// A percentage, held as the fraction of a balance that it stands for.
#[derive(Clone, Copy, Debug, PartialEq, Eq)]
pub struct Percent {
    pub numerator: u64,
    pub denominator: u64,
}

/// A longer run of digits does not stand for a smaller number.
proof fn lemma_dec_value_grows(digits: Seq<char>, k: int)
    requires
        0 <= k <= digits.len(),
    ensures
        dec_value(digits.take(k)) <= dec_value(digits),
    decreases digits.len() - k,
{
    if k == digits.len() {
        assert(digits.take(k) =~= digits);
    } else {
        lemma_dec_value_grows(digits, k + 1);
        assert(digits.take(k + 1).drop_last() =~= digits.take(k));
    }
}

proof fn lemma_pow10_grows(i: nat, j: nat)
    requires
        i <= j,
    ensures
        1 <= pow10(i) <= pow10(j),
    decreases j,
{
    if i < j {
        lemma_pow10_grows(i, (j - 1) as nat);
    } else if j > 0 {
        lemma_pow10_grows((i - 1) as nat, (j - 1) as nat);
    }
}

proof fn lemma_pow10_of_limit()
    ensures
        pow10(17) == 100_000_000_000_000_000,
{
    reveal_with_fuel(pow10, 18);
}

/// Where the first point of `text` stands, given a place that holds a point
/// and has none before it.
proof fn lemma_first_point(text: Seq<char>, point: int)
    requires
        0 <= point < text.len(),
        text[point] == '.',
        forall|j: int| 0 <= j < point ==> text[j] != '.',
    ensures
        text.index_of_first('.') == Some(point),
{
    text.index_of_first_ensures('.');
}

proof fn lemma_no_point(text: Seq<char>)
    requires
        forall|j: int| 0 <= j < text.len() ==> text[j] != '.',
    ensures
        text.index_of_first('.') is None,
{
    text.index_of_first_ensures('.');
}

/// Text with a character outside ASCII is no percentage.
proof fn lemma_percent_text_is_ascii(text: Seq<char>)
    requires
        is_percent_text(text),
    ensures
        is_ascii_chars(text),
{
    text.index_of_first_ensures('.');
    let digits = percent_digits(text);
    assert forall|i: int| 0 <= i < text.len() implies '\0' <= #[trigger] text[i] <= '\u{7f}' by {
        match text.index_of_first('.') {
            Some(point) => {
                if i < point {
                    assert(is_dec_digit(digits[i]));
                } else if i > point {
                    assert(is_dec_digit(digits[i - 1]));
                }
            },
            None => {},
        }
    }
}

/// Where the first point of ASCII text stands: the length where it has none.
fn find_point(text: &str, length: usize) -> (point: usize)
    requires
        is_ascii_chars(text@),
        length == text@.len(),
    ensures
        point <= length,
        point < length ==> text@.index_of_first('.') == Some(point as int),
        point == length ==> text@.index_of_first('.') is None,
{
    let mut i: usize = 0;
    while i < length
        invariant
            i <= length,
            length == text@.len(),
            is_ascii_chars(text@),
            forall|j: int| 0 <= j < i ==> text@[j] != '.',
        decreases length - i,
    {
        if text.get_ascii(i) == 46u8 {
            proof {
                lemma_first_point(text@, i as int);
            }
            return i;
        }
        i += 1;
    }
    proof {
        lemma_no_point(text@);
    }
    length
}

/// Reads the digits of ASCII text from `from` up to `to`, going on from the
/// number `start` that the digits `before` stand for.
fn read_digits(text: &str, from: usize, to: usize, start: u64, Ghost(before): Ghost<Seq<char>>) -> (read:
    Option<u64>)
    requires
        is_ascii_chars(text@),
        from <= to <= text@.len(),
        start == dec_value(before),
        is_dec_text(before),
    ensures
        read is Some <==> is_dec_text(before + text@.subrange(from as int, to as int)) && dec_value(
            before + text@.subrange(from as int, to as int),
        ) <= u64::MAX,
        read matches Some(value) ==> value == dec_value(
            before + text@.subrange(from as int, to as int),
        ),
{
    let ghost all = before + text@.subrange(from as int, to as int);
    let mut value: u64 = start;
    let mut i: usize = from;
    while i < to
        invariant
            from <= i <= to,
            to <= text@.len(),
            is_ascii_chars(text@),
            all == before + text@.subrange(from as int, to as int),
            is_dec_text(before + text@.subrange(from as int, i as int)),
            value == dec_value(before + text@.subrange(from as int, i as int)),
        decreases to - i,
    {
        let byte: u8 = text.get_ascii(i);
        let ghost seen = before + text@.subrange(from as int, i as int);
        let ghost next = before + text@.subrange(from as int, i + 1);
        proof {
            assert(next =~= seen.push(text@[i as int]));
            assert(next =~= all.take(before.len() + i + 1 - from));
            lemma_dec_value_push(seen, text@[i as int]);
            lemma_dec_value_grows(all, before.len() + i + 1 - from);
        }
        if byte < 48u8 || byte > 57u8 {
            return None;
        }
        let digit: u64 = (byte - 48u8) as u64;
        if value > (u64::MAX - digit) / 10 {
            return None;
        }
        value = value * 10 + digit;
        i += 1;
    }
    Some(value)
}

/// Ten to the power `exponent`.
fn power_of_ten(exponent: usize) -> (power: u64)
    requires
        exponent <= MAX_FRACTION_DIGITS,
    ensures
        power == pow10(exponent as nat),
        1 <= power <= 100_000_000_000_000_000,
{
    let mut power: u64 = 1;
    let mut i: usize = 0;
    while i < exponent
        invariant
            i <= exponent <= MAX_FRACTION_DIGITS,
            power == pow10(i as nat),
        decreases exponent - i,
    {
        proof {
            lemma_pow10_grows((i + 1) as nat, 17);
            lemma_pow10_of_limit();
        }
        power = power * 10;
        i += 1;
    }
    proof {
        lemma_pow10_grows(exponent as nat, 17);
        lemma_pow10_of_limit();
    }
    power
}

impl Percent {
    /// Reads a percentage from decimal text such as `25`, `33.333` or `.5`.
    pub fn parse(text: &str) -> (parsed: Option<Percent>)
        ensures
            parsed is Some <==> is_percent_text(text@),
            parsed matches Some(percent) ==> percent.numerator == percent_numerator(text@)
                && percent.denominator == percent_denominator(text@) && percent.denominator >= 100,
    {
        if !text.is_ascii() {
            proof {
                if is_percent_text(text@) {
                    lemma_percent_text_is_ascii(text@);
                }
            }
            return None;
        }
        let length: usize = text.unicode_len();
        let point: usize = find_point(text, length);
        let whole: u64 = match read_digits(text, 0, point, 0, Ghost(Seq::empty())) {
            Some(whole) => whole,
            None => {
                proof {
                    let digits = percent_digits(text@);
                    assert(percent_whole(text@) =~= digits.take(point as int));
                    lemma_dec_value_grows(digits, point as int);
                }
                return None;
            },
        };
        if point == length {
            assert(text@.take(point as int) =~= text@);
            if length == 0 {
                return None;
            }
            return Some(Percent { numerator: whole, denominator: 100 });
        }
        let places: usize = length - point - 1;
        if length == 1 || places > MAX_FRACTION_DIGITS {
            return None;
        }
        match read_digits(text, point + 1, length, whole, Ghost(text@.take(point as int))) {
            Some(numerator) => {
                let scale: u64 = power_of_ten(places);
                Some(Percent { numerator, denominator: 100 * scale })
            },
            None => None,
        }
    }

    /// The share of `balance` that this percentage stands for: the whole part
    /// of `balance * numerator / denominator`. A percentage over zero is no
    /// number.
    pub fn of(&self, balance: &Amount) -> (share: Result<Amount, ResolutionError>)
        ensures
            share is Ok <==> self.denominator > 0 && scaled_value(
                balance@,
                self.numerator as nat,
                self.denominator as nat,
            ) < amount_limit(),
            share matches Ok(amount) ==> amount@ == scaled_value(
                balance@,
                self.numerator as nat,
                self.denominator as nat,
            ),
            share matches Err(error) ==> error == (if self.denominator == 0 {
                ResolutionError::MalformedNumber
            } else {
                ResolutionError::AmountOverflow
            }),
    {
        if self.denominator == 0 {
            return Err(ResolutionError::MalformedNumber);
        }
        match balance.mul_div(self.numerator, self.denominator) {
            Some(amount) => Ok(amount),
            None => Err(ResolutionError::AmountOverflow),
        }
    }
}

} // verus!
