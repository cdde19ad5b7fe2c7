use batch_transfer::address::Address;
use batch_transfer::amount::Amount;

const LARGEST: &str =
    "115792089237316195423570985008687907853269984665640564039457584007913129639935";
const ONE_TOO_MANY: &str =
    "115792089237316195423570985008687907853269984665640564039457584007913129639936";

#[test]
fn decimal_text_is_read_exactly() {
    assert_eq!(Amount::parse_decimal("0"), Some(Amount { limbs: [0, 0, 0, 0] }));
    assert_eq!(Amount::parse_decimal("250"), Some(Amount { limbs: [250, 0, 0, 0] }));
    assert_eq!(Amount::parse_decimal("18446744073709551616"), Some(Amount { limbs: [0, 1, 0, 0] }));
    assert_eq!(
        Amount::parse_decimal("340282366920938463463374607431768211456"),
        Some(Amount { limbs: [0, 0, 1, 0] })
    );
    assert_eq!(Amount::parse_decimal(LARGEST), Some(Amount { limbs: [u64::MAX; 4] }));
    assert_eq!(Amount::parse_decimal("007"), Some(Amount::from_u128(7)));
}

#[test]
fn text_that_is_no_amount_is_refused() {
    for case in ["", " ", "1 ", "+1", "-1", "1.0", "1e3", "0x1", "\u{0661}", ONE_TOO_MANY] {
        assert_eq!(Amount::parse_decimal(case), None, "{:?}", case);
    }
    let long = format!("{}0", LARGEST);
    assert_eq!(Amount::parse_decimal(&long), None);
}

#[test]
fn decimal_text_is_written_without_leading_zeros() {
    assert_eq!(Amount::zero().to_decimal(), "0");
    assert_eq!(Amount::from_u128(250).to_decimal(), "250");
    assert_eq!(Amount { limbs: [0, 1, 0, 0] }.to_decimal(), "18446744073709551616");
    assert_eq!(Amount { limbs: [u64::MAX; 4] }.to_decimal(), LARGEST);
    assert_eq!(Amount::parse_decimal("000123").unwrap().to_decimal(), "123");
}

#[test]
fn writing_and_reading_give_the_amount_back() {
    for amount in [
        Amount::zero(),
        Amount::from_u128(1),
        Amount::from_u128(u128::MAX),
        Amount { limbs: [1, 2, 3, 4] },
        Amount { limbs: [u64::MAX; 4] },
    ] {
        assert_eq!(Amount::parse_decimal(&amount.to_decimal()), Some(amount));
    }
}

#[test]
fn from_u128_splits_into_two_words() {
    assert_eq!(Amount::from_u128(0), Amount::zero());
    assert_eq!(Amount::from_u128(u64::MAX as u128), Amount { limbs: [u64::MAX, 0, 0, 0] });
    assert_eq!(Amount::from_u128(1u128 << 64), Amount { limbs: [0, 1, 0, 0] });
    assert_eq!(Amount::from_u128(u128::MAX), Amount { limbs: [u64::MAX, u64::MAX, 0, 0] });
}

#[test]
fn is_zero_looks_at_every_word() {
    assert!(Amount::zero().is_zero());
    assert!(!Amount { limbs: [1, 0, 0, 0] }.is_zero());
    assert!(!Amount { limbs: [0, 0, 0, 1] }.is_zero());
}

#[test]
fn mul_small_carries_across_words() {
    assert_eq!(Amount::from_u128(6).mul_small(7), (Amount::from_u128(42), 0));
    assert_eq!(
        Amount { limbs: [u64::MAX, 0, 0, 0] }.mul_small(2),
        (Amount { limbs: [u64::MAX - 1, 1, 0, 0] }, 0)
    );
    assert_eq!(
        Amount { limbs: [u64::MAX; 4] }.mul_small(u64::MAX),
        (Amount { limbs: [1, u64::MAX, u64::MAX, u64::MAX] }, u64::MAX - 1)
    );
    assert_eq!(Amount { limbs: [0, 0, 0, 1] }.mul_small(0), (Amount::zero(), 0));
    assert_eq!(
        Amount { limbs: [0, 0, 0, 1 << 63] }.mul_small(4),
        (Amount::zero(), 2)
    );
}

#[test]
fn wide_div_small_divides_across_words() {
    assert_eq!(Amount::from_u128(42).wide_div_small(0, 5), (0, Amount::from_u128(8), 2));
    assert_eq!(
        Amount { limbs: [0, 1, 0, 0] }.wide_div_small(0, 2),
        (0, Amount { limbs: [1 << 63, 0, 0, 0] }, 0)
    );
    assert_eq!(
        Amount::zero().wide_div_small(3, 2),
        (1, Amount { limbs: [0, 0, 0, 1 << 63] }, 0)
    );
    assert_eq!(
        Amount { limbs: [u64::MAX; 4] }.wide_div_small(0, u64::MAX),
        (0, Amount { limbs: [1, 1, 1, 1] }, 0)
    );
    assert_eq!(
        Amount { limbs: [7, 0, 0, 0] }.wide_div_small(0, 10),
        (0, Amount::zero(), 7)
    );
}

#[test]
fn mul_div_is_exact_and_notices_overflow() {
    assert_eq!(Amount::from_u128(1000).mul_div(33333, 100000), Some(Amount::from_u128(333)));
    assert_eq!(Amount::from_u128(1000).mul_div(25, 100), Some(Amount::from_u128(250)));
    let largest = Amount { limbs: [u64::MAX; 4] };
    assert_eq!(largest.mul_div(100, 100), Some(largest));
    assert_eq!(largest.mul_div(u64::MAX, u64::MAX), Some(largest));
    assert_eq!(largest.mul_div(101, 100), None);
    assert_eq!(largest.mul_div(2, 1), None);
    assert_eq!(
        largest.mul_div(1, 2),
        Some(Amount { limbs: [u64::MAX, u64::MAX, u64::MAX, u64::MAX >> 1] })
    );
    assert_eq!(Amount::zero().mul_div(u64::MAX, 1), Some(Amount::zero()));
}

#[test]
fn addresses_are_read_with_or_without_prefix() {
    let bytes: [u8; 20] = [
        0xde, 0xad, 0xbe, 0xef, 0x00, 0x11, 0x22, 0x33, 0x44, 0x55, 0x66, 0x77, 0x88, 0x99, 0xaa,
        0xbb, 0xcc, 0xdd, 0xee, 0xff,
    ];
    let expected = Some(Address { bytes });
    assert_eq!(Address::parse("0xdeadbeef00112233445566778899aabbccddeeff"), expected);
    assert_eq!(Address::parse("deadbeef00112233445566778899aabbccddeeff"), expected);
    assert_eq!(Address::parse("0xDEADBEEF00112233445566778899AABBCCDDEEFF"), expected);
    assert_eq!(Address::parse("0xdeadbeef 00112233\t44556677\r\n8899aabbccddeeff "), expected);
}

#[test]
fn text_that_is_no_address_is_refused() {
    for case in [
        "",
        "0x",
        "0xdeadbeef",
        "0Xdeadbeef00112233445566778899aabbccddeeff",
        " 0xdeadbeef00112233445566778899aabbccddeeff",
        "0x0xdeadbeef00112233445566778899aabbccddeeff",
        "0xdeadbeef00112233445566778899aabbccddeeff0",
        "0xdeadbeef00112233445566778899aabbccddeeff00",
        "0xdeadbeef00112233445566778899aabbccddeefg",
        "0xdeadbeef00112233445566778899aabbccddee\u{e9}",
        "0xdeadbeef00112233445566778899aabbccddeeff\u{e9}",
    ] {
        assert_eq!(Address::parse(case), None, "{:?}", case);
    }
}

#[test]
fn the_zero_address_is_twenty_zero_bytes() {
    assert_eq!(Address::zero(), Address { bytes: [0; 20] });
    assert!(Address::zero().is_zero());
    assert!(Address::parse("0x0000000000000000000000000000000000000000").unwrap().is_zero());
    let mut bytes = [0u8; 20];
    bytes[19] = 1;
    assert!(!Address { bytes }.is_zero());
    bytes = [0u8; 20];
    bytes[0] = 1;
    assert!(!Address { bytes }.is_zero());
}
