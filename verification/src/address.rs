//! Ledger addresses: twenty bytes that name an account or a token contract.

use vstd::prelude::*;
use vstd::string::StrSliceExecFns;
use vstd::utf8::is_ascii_chars;
use crate::hexadecimal::{decode_hex, hex_bytes, is_hex_text};

verus! {

/// A ledger address. The address of twenty zero bytes is reserved: as a token
/// identifier it means the ledger's native coin.
#[derive(Clone, Copy, Debug, PartialEq, Eq)]
pub struct Address {
    pub bytes: [u8; 20],
}

impl View for Address {
    type V = Seq<u8>;

    /// The twenty bytes, in order.
    open spec fn view(&self) -> Seq<u8> {
        self.bytes@
    }
}

/// Whether every byte of `bytes` is zero.
pub open spec fn all_zero(bytes: Seq<u8>) -> bool {
    forall|i: int| 0 <= i < bytes.len() ==> #[trigger] bytes[i] == 0
}

/// Whether `c` is one of the blanks that address text may hold between its
/// digits: space, carriage return, line feed or tab.
pub open spec fn is_blank(c: char) -> bool {
    c == ' ' || c == '\r' || c == '\n' || c == '\t'
}

/// The digits of address text: what is left once a leading `0x` and all
/// blanks are taken away.
pub open spec fn address_digits(text: Seq<char>) -> Seq<char> {
    let body = if text.len() >= 2 && text[0] == '0' && text[1] == 'x' {
        text.skip(2)
    } else {
        text
    };
    body.filter(|c: char| !is_blank(c))
}

/// Whether `text` names an address: forty hexadecimal digits, with or
/// without a leading `0x`, blanks not counted.
pub open spec fn is_address_text(text: Seq<char>) -> bool {
    address_digits(text).len() == 40 && is_hex_text(address_digits(text))
}

/// Whether `text` is two leading characters followed by forty hexadecimal
/// digits, all of it ASCII. The two leading characters are not examined.
pub open spec fn is_prefixed_address_text(text: Seq<char>) -> bool {
    is_ascii_chars(text) && text.len() == 42 && is_hex_text(text.skip(2))
}

/// Calls the `FromStr` of `Address` of `ethers`. It drops one leading `0x`,
/// then reads hexadecimal digits and passes over blanks wherever they stand;
/// it refuses any other character, and any number of digits but forty.
#[verifier::external_body]
fn h160_from_str(text: &str) -> (parsed: Option<Address>)
    ensures
        parsed is Some <==> is_address_text(text@),
        parsed matches Some(address) ==> address@ == hex_bytes(address_digits(text@)),
{
    text.parse::<ethers::types::Address>().ok().map(|h| Address { bytes: h.0 })
}

impl Address {
    /// The reserved address of twenty zero bytes.
    pub fn zero() -> (address: Address)
        ensures
            all_zero(address@),
    {
        Address { bytes: [0u8; 20] }
    }

    /// Whether this is the reserved address of twenty zero bytes.
    pub fn is_zero(&self) -> (zero: bool)
        ensures
            zero <==> all_zero(self@),
    {
        let mut i: usize = 0;
        while i < 20
            invariant
                i <= 20,
                forall|j: int| 0 <= j < i ==> #[trigger] self.bytes@[j] == 0,
            decreases 20 - i,
        {
            if self.bytes[i] != 0 {
                return false;
            }
            i += 1;
        }
        true
    }

    /// Reads an address from text of forty hexadecimal digits, with or
    /// without a leading `0x`. Blanks among the digits are passed over.
    pub fn parse(text: &str) -> (parsed: Option<Address>)
        ensures
            parsed is Some <==> is_address_text(text@),
            parsed matches Some(address) ==> address@ == hex_bytes(address_digits(text@)),
    {
        h160_from_str(text)
    }

    /// Reads an address from text of two leading characters and forty
    /// hexadecimal digits. The leading characters are cut off unread.
    pub fn from_prefixed_hex(text: &str) -> (parsed: Option<Address>)
        ensures
            parsed is Some <==> is_prefixed_address_text(text@),
            parsed matches Some(address) ==> address@ == hex_bytes(text@.skip(2)),
    {
        if !text.is_ascii() {
            return None;
        }
        let length: usize = text.unicode_len();
        if length != 42 {
            return None;
        }
        let digits = text.substring_ascii(2, length);
        match decode_hex(digits) {
            Ok(decoded) => {
                let mut bytes: [u8; 20] = [0u8; 20];
                let mut i: usize = 0;
                while i < 20
                    invariant
                        i <= 20,
                        decoded@.len() == 20,
                        forall|j: int| 0 <= j < i ==> #[trigger] bytes@[j] == decoded@[j],
                    decreases 20 - i,
                {
                    bytes[i] = decoded[i];
                    i += 1;
                }
                Some(Address { bytes })
            },
            Err(_) => None,
        }
    }
}

} // verus!
