//! Decimal text and the natural numbers it stands for.

use vstd::prelude::*;

verus! {

/// Whether `c` is one of the digits `0-9`.
pub open spec fn is_dec_digit(c: char) -> bool {
    '0' <= c <= '9'
}

/// The number between 0 and 9 that a decimal digit stands for.
pub open spec fn dec_digit_value(c: char) -> nat {
    (c as u32 - '0' as u32) as nat
}

/// The decimal digit for a number between 0 and 9.
pub open spec fn dec_digit_char(n: nat) -> char {
    ('0' as u32 + n) as char
}

/// Whether `text` holds decimal digits and nothing else. The empty text
/// counts: it stands for zero.
pub open spec fn is_dec_text(text: Seq<char>) -> bool {
    forall|i: int| 0 <= i < text.len() ==> is_dec_digit(#[trigger] text[i])
}

/// The number that a run of decimal digits stands for, the most significant
/// digit first. Leading zeros change nothing.
pub open spec fn dec_value(digits: Seq<char>) -> nat
    decreases digits.len(),
{
    if digits.len() == 0 {
        0
    } else {
        dec_value(digits.drop_last()) * 10 + dec_digit_value(digits.last())
    }
}

/// The shortest decimal text of `n`: no leading zero, and `"0"` for zero.
pub open spec fn dec_text(n: nat) -> Seq<char>
    decreases n,
{
    if n < 10 {
        seq![dec_digit_char(n)]
    } else {
        dec_text(n / 10).push(dec_digit_char(n % 10))
    }
}

/// Ten to the power `k`.
pub open spec fn pow10(k: nat) -> nat
    decreases k,
{
    if k == 0 {
        1
    } else {
        10 * pow10((k - 1) as nat)
    }
}

/// Reading the shortest decimal text of a number gives the number back.
pub proof fn lemma_dec_text_round_trip(n: nat)
    ensures
        is_dec_text(dec_text(n)),
        dec_value(dec_text(n)) == n,
        dec_text(n).len() >= 1,
    decreases n,
{
    if n < 10 {
        assert(dec_value(dec_text(n).drop_last()) == 0);
    } else {
        lemma_dec_text_round_trip(n / 10);
        assert(dec_text(n).drop_last() =~= dec_text(n / 10));
    }
}

/// Appending one digit to a run of digits multiplies its value by ten and
/// adds the digit.
pub proof fn lemma_dec_value_push(digits: Seq<char>, c: char)
    ensures
        dec_value(digits.push(c)) == dec_value(digits) * 10 + dec_digit_value(c),
{
    assert(digits.push(c).drop_last() =~= digits);
}

} // verus!
