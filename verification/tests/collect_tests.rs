use batch_transfer::address::Address;
use batch_transfer::amount::Amount;
use batch_transfer::collect::{
    make_collect, make_collect_amounts, make_collect_percent, BalanceQuery, CollectPercentError,
    CollectPercentsRequest, CollectRequest, RequestError,
};
use batch_transfer::dispatch::{
    DispatchAction, DispatchEvent, TransferInstruction, TransferShape,
};
use batch_transfer::percent::ResolutionError;

const NATIVE: &str = "0x0000000000000000000000000000000000000000";
const TOKEN: &str = "0x00000000000000000000000000000000000000a1";
const DESTINATION: &str = "0x00000000000000000000000000000000000000dd";

fn address_ending_in(last: u8) -> Address {
    let mut bytes = [0u8; 20];
    bytes[19] = last;
    Address { bytes }
}

fn collect(token: &str, keys: &[&str], amounts: &[&str], destination: &str) -> CollectRequest {
    CollectRequest {
        token: token.to_string(),
        private_keys: keys.iter().map(|s| s.to_string()).collect(),
        amounts: amounts.iter().map(|s| s.to_string()).collect(),
        destination: destination.to_string(),
    }
}

fn collect_percents(
    token: &str,
    keys: &[&str],
    percents: &[&str],
    destination: &str,
) -> CollectPercentsRequest {
    CollectPercentsRequest {
        token: token.to_string(),
        private_keys: keys.iter().map(|s| s.to_string()).collect(),
        percents: percents.iter().map(|s| s.to_string()).collect(),
        destination: destination.to_string(),
    }
}

#[test]
fn instructions_follow_the_keys() {
    let request = collect(TOKEN, &["k0", "k1", "k2"], &["10", "20", "30"], DESTINATION);
    let instructions = make_collect_amounts(&request).unwrap();
    let expected: Vec<TransferInstruction> = [("k0", 10u128), ("k1", 20), ("k2", 30)]
        .iter()
        .map(|(key, amount)| TransferInstruction {
            private_key: key.to_string(),
            token: address_ending_in(0xa1),
            destination: address_ending_in(0xdd),
            amount: Amount::from_u128(*amount),
        })
        .collect();
    assert_eq!(instructions, expected);
}

#[test]
fn collect_with_mismatched_lengths_is_rejected() {
    assert_eq!(
        make_collect_amounts(&collect(TOKEN, &["k0", "k1"], &["10"], DESTINATION)),
        Err(RequestError::LengthMismatch)
    );
    assert_eq!(
        make_collect_amounts(&collect(TOKEN, &["k0"], &["10", "20"], DESTINATION)),
        Err(RequestError::LengthMismatch)
    );
    assert_eq!(
        make_collect_amounts(&collect("bad", &["k0"], &[], "bad")),
        Err(RequestError::LengthMismatch)
    );
    assert!(make_collect(&collect(TOKEN, &["k0", "k1"], &["10"], DESTINATION)).is_err());
}

#[test]
fn collect_with_a_malformed_address_is_rejected() {
    assert_eq!(
        make_collect_amounts(&collect("0x1234", &["k0"], &["10"], DESTINATION)),
        Err(RequestError::MalformedAddress)
    );
    assert_eq!(
        make_collect_amounts(&collect(TOKEN, &["k0"], &["10"], "nowhere")),
        Err(RequestError::MalformedAddress)
    );
    assert_eq!(
        make_collect_amounts(&collect(TOKEN, &["k0"], &["bad"], "nowhere")),
        Err(RequestError::MalformedAddress)
    );
    assert_eq!(
        make_collect_amounts(&collect("", &[], &[], DESTINATION)),
        Err(RequestError::MalformedAddress)
    );
}

#[test]
fn collect_with_a_malformed_amount_is_rejected() {
    for amount in ["", "1.5", "-1", "ten", "1e3"] {
        assert_eq!(
            make_collect_amounts(&collect(TOKEN, &["k0", "k1"], &["10", amount], DESTINATION)),
            Err(RequestError::MalformedAmount),
            "{:?}",
            amount
        );
    }
    let too_large =
        "115792089237316195423570985008687907853269984665640564039457584007913129639936";
    assert_eq!(
        make_collect_amounts(&collect(TOKEN, &["k0"], &[too_large], DESTINATION)),
        Err(RequestError::MalformedAmount)
    );
}

#[test]
fn keys_are_not_read_when_the_request_is_read() {
    let request = collect(NATIVE, &["", "not a key"], &["1", "2"], DESTINATION);
    let instructions = make_collect_amounts(&request).unwrap();
    assert_eq!(instructions[0].private_key, "");
    assert_eq!(instructions[1].private_key, "not a key");
}

#[test]
fn addresses_may_come_without_prefix() {
    let request =
        collect("00000000000000000000000000000000000000a1", &["k0"], &["1"], DESTINATION);
    let instructions = make_collect_amounts(&request).unwrap();
    assert_eq!(instructions[0].token, address_ending_in(0xa1));
}

#[test]
fn a_native_collect_asks_for_plain_transfers() {
    let request = collect(NATIVE, &["k0", "k1"], &["5", "6"], DESTINATION);
    let mut dispatcher = make_collect(&request).unwrap();
    assert_eq!(
        dispatcher.next_action(),
        DispatchAction::Launch {
            index: 0,
            private_key: "k0".to_string(),
            shape: TransferShape::Native {
                to: address_ending_in(0xdd),
                value: Amount::from_u128(5)
            },
        }
    );
    dispatcher = dispatcher.record(DispatchEvent::Launched);
    assert_eq!(
        dispatcher.next_action(),
        DispatchAction::Launch {
            index: 1,
            private_key: "k1".to_string(),
            shape: TransferShape::Native {
                to: address_ending_in(0xdd),
                value: Amount::from_u128(6)
            },
        }
    );
}

#[test]
fn a_token_collect_asks_for_contract_calls() {
    let request = collect(TOKEN, &["k0"], &["5"], DESTINATION);
    let dispatcher = make_collect(&request).unwrap();
    assert_eq!(
        dispatcher.next_action(),
        DispatchAction::Launch {
            index: 0,
            private_key: "k0".to_string(),
            shape: TransferShape::Token {
                contract: address_ending_in(0xa1),
                to: address_ending_in(0xdd),
                amount: Amount::from_u128(5)
            },
        }
    );
}

#[test]
fn the_balance_asked_for_is_the_destinations() {
    assert_eq!(
        collect_percents(NATIVE, &["k0"], &["5"], DESTINATION).balance_query(),
        Ok(BalanceQuery::Native { holder: address_ending_in(0xdd) })
    );
    assert_eq!(
        collect_percents(TOKEN, &["k0"], &["5"], DESTINATION).balance_query(),
        Ok(BalanceQuery::Token {
            contract: address_ending_in(0xa1),
            holder: address_ending_in(0xdd)
        })
    );
    assert_eq!(
        collect_percents(TOKEN, &["k0"], &["5"], "nowhere").balance_query(),
        Err(RequestError::MalformedAddress)
    );
    assert_eq!(
        collect_percents("no token", &["k0"], &["5"], DESTINATION).balance_query(),
        Err(RequestError::MalformedAddress)
    );
}

#[test]
fn a_collect_by_percentages_dispatches_the_resolved_amounts() {
    let request = collect_percents(TOKEN, &["k0", "k1"], &["25", "33.333"], DESTINATION);
    let mut dispatcher = make_collect_percent(&request, "1000".to_string()).unwrap();
    for (index, amount) in [250u128, 333].iter().enumerate() {
        assert_eq!(
            dispatcher.next_action(),
            DispatchAction::Launch {
                index,
                private_key: format!("k{}", index),
                shape: TransferShape::Token {
                    contract: address_ending_in(0xa1),
                    to: address_ending_in(0xdd),
                    amount: Amount::from_u128(*amount)
                },
            }
        );
        dispatcher = dispatcher.record(DispatchEvent::Launched);
    }
    assert_eq!(dispatcher.next_action(), DispatchAction::Join { index: 0 });
}

#[test]
fn a_collect_by_percentages_reports_what_went_wrong() {
    let request = collect_percents(TOKEN, &["k0"], &["x"], DESTINATION);
    assert_eq!(
        make_collect_percent(&request, "1000".to_string()).err(),
        Some(CollectPercentError::Resolution(ResolutionError::MalformedNumber))
    );
    let request = collect_percents(TOKEN, &["k0"], &["25"], DESTINATION);
    assert_eq!(
        make_collect_percent(&request, "".to_string()).err(),
        Some(CollectPercentError::Resolution(ResolutionError::MalformedNumber))
    );
    let request = collect_percents(TOKEN, &["k0", "k1"], &["25"], DESTINATION);
    assert_eq!(
        make_collect_percent(&request, "1000".to_string()).err(),
        Some(CollectPercentError::Request(RequestError::LengthMismatch))
    );
    let request = collect_percents("no token", &["k0"], &["25"], DESTINATION);
    assert_eq!(
        make_collect_percent(&request, "1000".to_string()).err(),
        Some(CollectPercentError::Request(RequestError::MalformedAddress))
    );
}
