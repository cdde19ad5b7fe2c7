//! Unsigned 256-bit amounts of value.

use vstd::prelude::*;
use vstd::arithmetic::div_mod::lemma_fundamental_div_mod_converse;
use ethers::abi::ethereum_types::FromDecStrErr;
use crate::decimal::{dec_text, dec_value, is_dec_text};

verus! {

/// One more than the largest amount: two to the power 256.
pub open spec fn amount_limit() -> nat {
    0x1_0000_0000_0000_0000_0000_0000_0000_0000_0000_0000_0000_0000_0000_0000_0000_0000nat
}

/// Whether `text` is one decimal digit or more, of a number that fits in 256
/// bits.
pub open spec fn is_amount_text(text: Seq<char>) -> bool {
    text.len() >= 1 && is_dec_text(text) && dec_value(text) < amount_limit()
}

/// Whether `text` is decimal digits, or nothing at all, of a number that fits
/// in 256 bits.
pub open spec fn is_u256_text(text: Seq<char>) -> bool {
    is_dec_text(text) && dec_value(text) < amount_limit()
}

/// The number that five words stand for, the least significant first: each
/// word weighs two to the power 64 times as much as the one before it.
pub open spec fn words_value(w0: int, w1: int, w2: int, w3: int, w4: int) -> int {
    w0 + w1 * 0x1_0000_0000_0000_0000 + w2 * 0x1_0000_0000_0000_0000_0000_0000_0000_0000int + w3
        * 0x1_0000_0000_0000_0000_0000_0000_0000_0000_0000_0000_0000_0000int + w4
        * 0x1_0000_0000_0000_0000_0000_0000_0000_0000_0000_0000_0000_0000_0000_0000_0000_0000int
}

/// The whole part of `value * numerator / denominator`.
pub open spec fn scaled_value(value: nat, numerator: nat, denominator: nat) -> nat {
    value * numerator / denominator
}

/// An unsigned integer of 256 bits, held as four words of 64 bits with the
/// least significant word first.
#[derive(Clone, Copy, Debug, PartialEq, Eq)]
pub struct Amount {
    pub limbs: [u64; 4],
}

impl View for Amount {
    type V = nat;

    /// The number that the four words stand for.
    open spec fn view(&self) -> nat {
        words_value(
            self.limbs[0] as int,
            self.limbs[1] as int,
            self.limbs[2] as int,
            self.limbs[3] as int,
            0,
        ) as nat
    }
}

/// The error of `U256::from_dec_str` of `ethers`. Nothing is read from it.
#[verifier::external_type_specification]
#[verifier::external_body]
pub struct ExFromDecStrErr(FromDecStrErr);

/// Calls `U256::from_dec_str` of `ethers`, which reads the text byte by byte
/// from the left, multiplying by ten and adding each digit. It refuses a byte
/// that is not a decimal digit and a value that does not fit in 256 bits; it
/// takes the empty text for zero.
#[verifier::external_body]
fn u256_from_dec_str(text: &str) -> (parsed: Result<Amount, FromDecStrErr>)
    ensures
        parsed is Ok <==> is_u256_text(text@),
        parsed matches Ok(amount) ==> amount@ == dec_value(text@),
{
    ethers::types::U256::from_dec_str(text).map(|v| Amount { limbs: v.0 })
}

/// Formats through the `Display` of `U256` of `ethers`, which writes the
/// decimal digits of the number without a leading zero, and `0` for zero.
#[verifier::external_body]
fn u256_to_string(amount: &Amount) -> (text: String)
    ensures
        text@ == dec_text(amount@),
{
    ethers::types::U256(amount.limbs).to_string()
}

impl Amount {
    /// The amount zero.
    pub fn zero() -> (amount: Amount)
        ensures
            amount@ == 0,
    {
        Amount { limbs: [0, 0, 0, 0] }
    }

    /// The amount that holds `value`.
    pub fn from_u128(value: u128) -> (amount: Amount)
        ensures
            amount@ == value,
    {
        let word: u128 = 0x1_0000_0000_0000_0000;
        Amount { limbs: [(value % word) as u64, (value / word) as u64, 0, 0] }
    }

    /// Whether the amount is zero.
    pub fn is_zero(&self) -> (zero: bool)
        ensures
            zero <==> self@ == 0,
    {
        self.limbs[0] == 0 && self.limbs[1] == 0 && self.limbs[2] == 0 && self.limbs[3] == 0
    }

    /// Reads an amount from decimal text. The text must hold at least one
    /// digit and nothing but digits, and the number must fit in 256 bits.
    pub fn parse_decimal(text: &str) -> (parsed: Option<Amount>)
        ensures
            parsed is Some <==> is_amount_text(text@),
            parsed matches Some(amount) ==> amount@ == dec_value(text@),
    {
        if text.is_empty() {
            return None;
        }
        match u256_from_dec_str(text) {
            Ok(amount) => Some(amount),
            Err(_) => None,
        }
    }

    /// The shortest decimal text of the amount.
    pub fn to_decimal(&self) -> (text: String)
        ensures
            text@ == dec_text(self@),
    {
        u256_to_string(self)
    }

    /// Multiplies by a single word. The product has up to 320 bits: the
    /// low 256 come back as an amount, the rest as the carry.
    pub fn mul_small(&self, factor: u64) -> (product: (Amount, u64))
        ensures
            product.0@ + product.1 as nat * amount_limit() == self@ * factor as nat,
    {
        let word: u128 = 0x1_0000_0000_0000_0000;
        let f: u128 = factor as u128;
        let a0: u128 = self.limbs[0] as u128;
        let a1: u128 = self.limbs[1] as u128;
        let a2: u128 = self.limbs[2] as u128;
        let a3: u128 = self.limbs[3] as u128;
        proof {
            lemma_word_product(a0, f);
            lemma_word_product(a1, f);
            lemma_word_product(a2, f);
            lemma_word_product(a3, f);
        }
        let t0: u128 = a0 * f;
        let t1: u128 = a1 * f + t0 / word;
        let t2: u128 = a2 * f + t1 / word;
        let t3: u128 = a3 * f + t2 / word;
        let low = Amount {
            limbs: [(t0 % word) as u64, (t1 % word) as u64, (t2 % word) as u64, (t3 % word) as u64],
        };
        let carry: u64 = (t3 / word) as u64;
        proof {
            lemma_words_times(a0 as int, a1 as int, a2 as int, a3 as int, 0, f as int);
            lemma_carry_chain(
                a0 * f,
                a1 * f,
                a2 * f,
                a3 * f,
                t0 as int,
                t1 as int,
                t2 as int,
                t3 as int,
            );
        }
        (low, carry)
    }

    /// Divides the 320-bit number `high * 2^256 + self` by a single word.
    /// The quotient comes back as its part above 256 bits and its low 256
    /// bits, followed by the remainder.
    pub fn wide_div_small(&self, high: u64, divisor: u64) -> (result: (u64, Amount, u64))
        requires
            divisor > 0,
        ensures
            result.0 as nat * amount_limit() + result.1@ == (high as nat * amount_limit() + self@)
                / divisor as nat,
            result.2 as nat == (high as nat * amount_limit() + self@) % divisor as nat,
    {
        let word: u128 = 0x1_0000_0000_0000_0000;
        let d: u128 = divisor as u128;
        proof {
            lemma_quotient_fits(high as int, d as int);
        }
        let q4: u64 = high / divisor;
        let r4: u64 = high % divisor;
        let c3: u128 = r4 as u128 * word + self.limbs[3] as u128;
        proof {
            lemma_quotient_fits(c3 as int, d as int);
        }
        let q3: u64 = (c3 / d) as u64;
        let r3: u64 = (c3 % d) as u64;
        let c2: u128 = r3 as u128 * word + self.limbs[2] as u128;
        proof {
            lemma_quotient_fits(c2 as int, d as int);
        }
        let q2: u64 = (c2 / d) as u64;
        let r2: u64 = (c2 % d) as u64;
        let c1: u128 = r2 as u128 * word + self.limbs[1] as u128;
        proof {
            lemma_quotient_fits(c1 as int, d as int);
        }
        let q1: u64 = (c1 / d) as u64;
        let r1: u64 = (c1 % d) as u64;
        let c0: u128 = r1 as u128 * word + self.limbs[0] as u128;
        proof {
            lemma_quotient_fits(c0 as int, d as int);
        }
        let q0: u64 = (c0 / d) as u64;
        let r0: u64 = (c0 % d) as u64;
        let quotient = Amount { limbs: [q0, q1, q2, q3] };
        proof {
            lemma_long_division(
                (
                    self.limbs[0] as int,
                    self.limbs[1] as int,
                    self.limbs[2] as int,
                    self.limbs[3] as int,
                    high as int,
                ),
                d as int,
                (q0 as int, q1 as int, q2 as int, q3 as int, q4 as int),
                (r0 as int, r1 as int, r2 as int, r3 as int, r4 as int),
            );
            lemma_fundamental_div_mod_converse(
                (high as nat * amount_limit() + self@) as int,
                d as int,
                (q4 as nat * amount_limit() + quotient@) as int,
                r0 as int,
            );
        }
        (q4, quotient, r0)
    }

    /// The whole part of `self * numerator / denominator`, where it fits in
    /// 256 bits. The product is formed in full before it is divided, so no
    /// precision is lost on the way.
    pub fn mul_div(&self, numerator: u64, denominator: u64) -> (scaled: Option<Amount>)
        requires
            denominator > 0,
        ensures
            scaled is Some <==> scaled_value(self@, numerator as nat, denominator as nat)
                < amount_limit(),
            scaled matches Some(amount) ==> amount@ == scaled_value(
                self@,
                numerator as nat,
                denominator as nat,
            ),
    {
        let (low, carry) = self.mul_small(numerator);
        let (above, quotient, _) = low.wide_div_small(carry, denominator);
        if above == 0 {
            Some(quotient)
        } else {
            None
        }
    }
}

proof fn lemma_word_product(a: u128, b: u128)
    by (nonlinear_arith)
    requires
        a < 0x1_0000_0000_0000_0000,
        b < 0x1_0000_0000_0000_0000,
    ensures
        a * b <= 0xFFFF_FFFF_FFFF_FFFE_0000_0000_0000_0001,
{
}

/// Multiplying a number of five words multiplies every word.
proof fn lemma_words_times(w0: int, w1: int, w2: int, w3: int, w4: int, f: int)
    by (nonlinear_arith)
    ensures
        words_value(w0, w1, w2, w3, w4) * f == words_value(w0 * f, w1 * f, w2 * f, w3 * f, w4 * f),
{
}

/// Carrying what overflows a word into the next word changes nothing.
proof fn lemma_carry_chain(m0: int, m1: int, m2: int, m3: int, t0: int, t1: int, t2: int, t3: int)
    requires
        t0 == m0,
        t1 == m1 + t0 / 0x1_0000_0000_0000_0000,
        t2 == m2 + t1 / 0x1_0000_0000_0000_0000,
        t3 == m3 + t2 / 0x1_0000_0000_0000_0000,
    ensures
        words_value(m0, m1, m2, m3, 0) == words_value(
            t0 % 0x1_0000_0000_0000_0000,
            t1 % 0x1_0000_0000_0000_0000,
            t2 % 0x1_0000_0000_0000_0000,
            t3 % 0x1_0000_0000_0000_0000,
            t3 / 0x1_0000_0000_0000_0000,
        ),
{
}

proof fn lemma_quotient_fits(c: int, d: int)
    by (nonlinear_arith)
    requires
        d > 0,
        0 <= c < d * 0x1_0000_0000_0000_0000,
    ensures
        0 <= c / d < 0x1_0000_0000_0000_0000,
        0 <= c % d < d,
        c == (c / d) * d + c % d,
{
}

/// Long division word by word, from the most significant word down, each
/// remainder going into the next word, divides the number as a whole.
proof fn lemma_long_division(
    a: (int, int, int, int, int),
    d: int,
    q: (int, int, int, int, int),
    r: (int, int, int, int, int),
)
    requires
        a.4 == q.4 * d + r.4,
        r.4 * 0x1_0000_0000_0000_0000 + a.3 == q.3 * d + r.3,
        r.3 * 0x1_0000_0000_0000_0000 + a.2 == q.2 * d + r.2,
        r.2 * 0x1_0000_0000_0000_0000 + a.1 == q.1 * d + r.1,
        r.1 * 0x1_0000_0000_0000_0000 + a.0 == q.0 * d + r.0,
    ensures
        words_value(a.0, a.1, a.2, a.3, a.4) == words_value(q.0, q.1, q.2, q.3, q.4) * d + r.0,
{
    lemma_words_times(q.0, q.1, q.2, q.3, q.4, d);
}

} // verus!
