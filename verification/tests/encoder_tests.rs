use batch_transfer::address::Address;
use batch_transfer::amount::Amount;
use batch_transfer::disperse::{
    make_disperse, make_disperse_text, read_groups, DisperserRequest, EncodingError,
};
use batch_transfer::encoder::{encode, encode_amount, encode_group, Recipient, TransferGroup};

fn address_ending_in(last: u8) -> Address {
    let mut bytes = [0u8; 20];
    bytes[19] = last;
    Address { bytes }
}

fn text_of_address_ending_in(last: u8) -> String {
    format!("0x{}{:02x}", "00".repeat(19), last)
}

fn request(token: &str, addresses: &[&str], amounts: &[&str]) -> DisperserRequest {
    DisperserRequest {
        token: token.to_string(),
        addresses: addresses.iter().map(|s| s.to_string()).collect(),
        amounts: amounts.iter().map(|s| s.to_string()).collect(),
    }
}

fn field_ending_in(tail: &[u8]) -> Vec<u8> {
    let mut field = vec![0u8; 32 - tail.len()];
    field.extend_from_slice(tail);
    field
}

#[test]
fn single_group_single_recipient_layout() {
    let token = text_of_address_ending_in(1);
    let recipient = text_of_address_ending_in(2);
    let bytes = make_disperse(&vec![request(&token, &[&recipient], &["5"])]).unwrap();

    let mut expected: Vec<u8> = vec![0x01];
    expected.extend_from_slice(&address_ending_in(1).bytes);
    expected.push(0x01);
    expected.extend_from_slice(&address_ending_in(2).bytes);
    expected.extend_from_slice(&field_ending_in(&[5]));
    assert_eq!(bytes.len(), 74);
    assert_eq!(bytes, expected);
}

#[test]
fn typed_encoder_gives_the_same_layout() {
    let group = TransferGroup {
        token: address_ending_in(1),
        recipients: vec![Recipient { address: address_ending_in(2), amount: Amount::from_u128(5) }],
    };
    let mut expected: Vec<u8> = vec![0x01];
    expected.extend_from_slice(&address_ending_in(1).bytes);
    expected.push(0x01);
    expected.extend_from_slice(&address_ending_in(2).bytes);
    expected.extend_from_slice(&field_ending_in(&[5]));
    assert_eq!(encode(&vec![group.clone()]), expected);
    assert_eq!(encode_group(&group), expected[1..].to_vec());
}

#[test]
fn encoding_twice_gives_the_same_bytes() {
    let requests = vec![
        request(
            &text_of_address_ending_in(1),
            &[&text_of_address_ending_in(2), &text_of_address_ending_in(3)],
            &["5", "123456789"],
        ),
        request(&text_of_address_ending_in(9), &[&text_of_address_ending_in(4)], &["77"]),
    ];
    let first = make_disperse(&requests).unwrap();
    let second = make_disperse(&requests).unwrap();
    assert_eq!(first, second);
    assert_eq!(first.len(), 1 + (21 + 2 * 52) + (21 + 52));
}

#[test]
fn amount_field_holds_one_radix_eight_digit_per_byte() {
    assert_eq!(encode_amount(&Amount::from_u128(0)), vec![0u8; 32]);
    assert_eq!(encode_amount(&Amount::from_u128(5)), field_ending_in(&[5]));
    assert_eq!(encode_amount(&Amount::from_u128(7)), field_ending_in(&[7]));
    assert_eq!(encode_amount(&Amount::from_u128(8)), field_ending_in(&[1, 0]));
    assert_eq!(encode_amount(&Amount::from_u128(255)), field_ending_in(&[3, 7, 7]));
    assert_eq!(encode_amount(&Amount::from_u128(256)), field_ending_in(&[4, 0, 0]));
    assert_eq!(encode_amount(&Amount::from_u128(1000)), field_ending_in(&[1, 7, 5, 0]));
}

#[test]
fn amount_field_keeps_the_low_ninety_six_bits_only() {
    let all_sevens = vec![7u8; 32];
    assert_eq!(encode_amount(&Amount::from_u128((1u128 << 96) - 1)), all_sevens);
    assert_eq!(encode_amount(&Amount::from_u128(1u128 << 96)), vec![0u8; 32]);
    assert_eq!(encode_amount(&Amount::from_u128((1u128 << 96) + 9)), field_ending_in(&[1, 1]));
    let high = Amount { limbs: [3, 0, 0, u64::MAX] };
    assert_eq!(encode_amount(&high), field_ending_in(&[3]));
    let above_one_word = Amount { limbs: [0, 1, 0, 0] };
    let mut expected = vec![0u8; 32];
    expected[32 - 22] = 2;
    assert_eq!(encode_amount(&above_one_word), expected);
}

#[test]
fn groups_and_recipients_keep_their_order() {
    let requests = vec![
        request(
            &text_of_address_ending_in(0xaa),
            &[&text_of_address_ending_in(2), &text_of_address_ending_in(1), &text_of_address_ending_in(2)],
            &["1", "2", "3"],
        ),
        request(&text_of_address_ending_in(0xbb), &[], &[]),
    ];
    let bytes = make_disperse(&requests).unwrap();
    assert_eq!(bytes[0], 2);
    assert_eq!(bytes[20], 0xaa);
    assert_eq!(bytes[21], 3);
    assert_eq!(bytes[22 + 19], 2);
    assert_eq!(bytes[22 + 51], 1);
    assert_eq!(bytes[22 + 52 + 19], 1);
    assert_eq!(bytes[22 + 52 + 51], 2);
    assert_eq!(bytes[22 + 104 + 19], 2);
    assert_eq!(bytes[22 + 104 + 51], 3);
    let second = 22 + 156;
    assert_eq!(bytes[second + 19], 0xbb);
    assert_eq!(bytes[second + 20], 0);
    assert_eq!(bytes.len(), second + 21);

    let groups = read_groups(&requests).unwrap();
    assert_eq!(groups.len(), 2);
    assert_eq!(groups[0].recipients.len(), 3);
    assert_eq!(groups[0].recipients[1].address, address_ending_in(1));
    assert_eq!(groups[0].recipients[2].amount, Amount::from_u128(3));
    assert_eq!(encode(&groups), bytes);
}

#[test]
fn empty_batch_is_one_zero_byte() {
    assert_eq!(make_disperse(&vec![]), Ok(vec![0u8]));
    assert_eq!(encode(&vec![]), vec![0u8]);
}

#[test]
fn counts_are_cut_to_one_byte() {
    let token = text_of_address_ending_in(1);
    let recipient = text_of_address_ending_in(2);
    let addresses: Vec<String> = (0..256).map(|_| recipient.clone()).collect();
    let amounts: Vec<String> = (0..256).map(|_| "1".to_string()).collect();
    let wide = DisperserRequest { token: token.clone(), addresses, amounts };
    let bytes = wide.get_calldata().unwrap();
    assert_eq!(bytes[20], 0);
    assert_eq!(bytes.len(), 21 + 256 * 52);

    let many: Vec<DisperserRequest> = (0..257).map(|_| request(&token, &[], &[])).collect();
    let payload = make_disperse(&many).unwrap();
    assert_eq!(payload[0], 1);
    assert_eq!(payload.len(), 1 + 257 * 21);
}

#[test]
fn hexadecimal_digits_of_either_case_are_read() {
    let token = "0xDeadBeef00112233445566778899aAbBcCdDeEfF";
    let bytes = request(token, &[], &[]).get_calldata().unwrap();
    assert_eq!(
        bytes,
        vec![
            0xde, 0xad, 0xbe, 0xef, 0x00, 0x11, 0x22, 0x33, 0x44, 0x55, 0x66, 0x77, 0x88, 0x99,
            0xaa, 0xbb, 0xcc, 0xdd, 0xee, 0xff, 0x00
        ]
    );
}

#[test]
fn the_two_leading_characters_are_not_examined() {
    let with_prefix = format!("0x{}", "11".repeat(20));
    let with_other = format!("zz{}", "11".repeat(20));
    assert_eq!(
        request(&with_prefix, &[], &[]).get_calldata(),
        request(&with_other, &[], &[]).get_calldata()
    );
    assert_eq!(Address::from_prefixed_hex(&with_other), Some(Address { bytes: [0x11; 20] }));
}

#[test]
fn mismatched_lengths_are_rejected() {
    let token = text_of_address_ending_in(1);
    let recipient = text_of_address_ending_in(2);
    let short = request(&token, &[&recipient, &recipient], &["1"]);
    assert_eq!(short.get_calldata(), Err(EncodingError::LengthMismatch));
    assert_eq!(short.to_group(), Err(EncodingError::LengthMismatch));
    let long = request(&token, &[&recipient], &["1", "2"]);
    assert_eq!(long.get_calldata(), Err(EncodingError::LengthMismatch));
    let good = request(&token, &[&recipient], &["1"]);
    assert_eq!(make_disperse(&vec![good.clone(), short.clone()]), Err(EncodingError::LengthMismatch));
    assert_eq!(make_disperse(&vec![short, good]), Err(EncodingError::LengthMismatch));
}

#[test]
fn length_mismatch_comes_before_any_reading() {
    let bad = request("nonsense", &["also nonsense"], &[]);
    assert_eq!(bad.get_calldata(), Err(EncodingError::LengthMismatch));
}

#[test]
fn malformed_addresses_are_rejected() {
    let good = text_of_address_ending_in(2);
    let cases = [
        "",
        "0x",
        "0x00",
        &"0".repeat(40),
        &format!("0x{}", "0".repeat(39)),
        &format!("0x{}", "0".repeat(41)),
        &format!("0x{}g", "0".repeat(39)),
        &format!("0x{} ", "0".repeat(39)),
        &format!("\u{e9}x{}", "0".repeat(40)),
    ];
    for case in cases {
        assert_eq!(
            request(case, &[&good], &["1"]).get_calldata(),
            Err(EncodingError::MalformedAddress),
            "token {:?}",
            case
        );
        assert_eq!(
            request(&good, &[case], &["1"]).get_calldata(),
            Err(EncodingError::MalformedAddress),
            "recipient {:?}",
            case
        );
        assert_eq!(Address::from_prefixed_hex(case), None);
    }
}

#[test]
fn malformed_amounts_are_rejected() {
    let good = text_of_address_ending_in(2);
    let too_large =
        "115792089237316195423570985008687907853269984665640564039457584007913129639936";
    for case in ["", "1.5", "-1", "+1", " 1", "1 ", "0x10", "ten", too_large] {
        assert_eq!(
            request(&good, &[&good], &[case]).get_calldata(),
            Err(EncodingError::MalformedAmount),
            "amount {:?}",
            case
        );
    }
    let largest = "115792089237316195423570985008687907853269984665640564039457584007913129639935";
    assert!(request(&good, &[&good], &[largest]).get_calldata().is_ok());
}

#[test]
fn the_first_thing_that_cannot_be_read_decides_the_error() {
    let good = text_of_address_ending_in(2);
    let both_bad = request(&good, &[&good, "bad"], &["bad", "1"]);
    assert_eq!(both_bad.get_calldata(), Err(EncodingError::MalformedAmount));
    let address_first = request(&good, &["bad", &good], &["1", "bad"]);
    assert_eq!(address_first.get_calldata(), Err(EncodingError::MalformedAddress));
    let same_pair = request(&good, &["bad"], &["bad"]);
    assert_eq!(same_pair.get_calldata(), Err(EncodingError::MalformedAddress));
    let bad_amount = request(&good, &[&good], &["x"]);
    let bad_token = request("bad", &[&good], &["1"]);
    assert_eq!(
        make_disperse(&vec![bad_amount.clone(), bad_token.clone()]),
        Err(EncodingError::MalformedAmount)
    );
    assert_eq!(make_disperse(&vec![bad_token, bad_amount]), Err(EncodingError::MalformedAddress));
}

#[test]
fn the_payload_as_text_is_lower_case_hexadecimal() {
    let token = "0xDEADBEEF00112233445566778899AABBCCDDEEFF";
    let recipient = text_of_address_ending_in(0x0f);
    let text = make_disperse_text(&vec![request(token, &[&recipient], &["9"])]).unwrap();
    let expected = format!(
        "01{}01{}{}{}",
        "deadbeef00112233445566778899aabbccddeeff",
        format!("{}0f", "00".repeat(19)),
        "00".repeat(30),
        "0101"
    );
    assert_eq!(text, expected);
    assert_eq!(make_disperse_text(&vec![]), Ok("00".to_string()));
    assert_eq!(
        make_disperse_text(&vec![request("bad", &[], &[])]),
        Err(EncodingError::MalformedAddress)
    );
}
