//! Collect requests: many senders, one destination.
//!
//! A request names the token, the destination, one key for each sender, and
//! for each sender either an amount or a percentage of what the destination
//! holds. It is checked as a whole before anything is dispatched: a request
//! that cannot be read moves nothing.

use vstd::prelude::*;
use crate::address::{address_digits, all_zero, is_address_text, Address};
use crate::amount::{amount_limit, is_amount_text, scaled_value, Amount};
use crate::decimal::{dec_text, dec_value, lemma_dec_text_round_trip};
use crate::dispatch::{
    instruction_views, DispatchState, Dispatcher, InstructionView, TransferInstruction,
};
use crate::hexadecimal::hex_bytes;
use crate::percent::{
    is_percent_text, percent_denominator, percent_numerator, Percent, ResolutionError,
};

verus! {

/// Why a collect request was refused.
#[derive(Clone, Copy, Debug, PartialEq, Eq)]
pub enum RequestError {
    /// The request does not name as many amounts as keys.
    LengthMismatch,
    /// The token or the destination is not an address.
    MalformedAddress,
    /// An amount is not decimal text of a number that fits in 256 bits.
    MalformedAmount,
}

/// Why a collect request by percentages was refused.
#[derive(Clone, Copy, Debug, PartialEq, Eq)]
pub enum CollectPercentError {
    /// The percentages could not be resolved into amounts.
    Resolution(ResolutionError),
    /// The request with its resolved amounts was refused.
    Request(RequestError),
}

/// A collect by amounts: sender `i` signs with key `i` and sends amount `i`
/// of the token to the destination.
#[derive(Clone, Debug, PartialEq, Eq)]
pub struct CollectRequest {
    pub token: String,
    pub private_keys: Vec<String>,
    pub amounts: Vec<String>,
    pub destination: String,
}

/// A collect by percentages: sender `i` signs with key `i` and sends
/// percentage `i` of what the destination holds of the token.
#[derive(Clone, Debug, PartialEq, Eq)]
pub struct CollectPercentsRequest {
    pub token: String,
    pub private_keys: Vec<String>,
    pub percents: Vec<String>,
    pub destination: String,
}

/// Whose balance a collect by percentages is measured against.
#[derive(Clone, Copy, Debug, PartialEq, Eq)]
pub enum BalanceQuery {
    /// The holder's balance of the ledger's native coin.
    Native { holder: Address },
    /// The holder's balance of the token of this contract.
    Token { contract: Address, holder: Address },
}

/// What a run of texts says, text by text.
pub open spec fn text_views(texts: Seq<String>) -> Seq<Seq<char>> {
    texts.map_values(|text: String| text@)
}

/// Whether every text of the run is an amount.
pub open spec fn all_amount_texts(amounts: Seq<Seq<char>>) -> bool {
    forall|i: int| 0 <= i < amounts.len() ==> is_amount_text(#[trigger] amounts[i])
}

/// What a collect says, given as texts: one instruction for each key, in the
/// order of the keys, or why it is refused. The lengths are compared first,
/// then the addresses are read, then the amounts.
pub open spec fn planned_instructions(
    token: Seq<char>,
    keys: Seq<Seq<char>>,
    amounts: Seq<Seq<char>>,
    destination: Seq<char>,
) -> Result<Seq<InstructionView>, RequestError> {
    if keys.len() != amounts.len() {
        Err(RequestError::LengthMismatch)
    } else if !is_address_text(token) || !is_address_text(destination) {
        Err(RequestError::MalformedAddress)
    } else if !all_amount_texts(amounts) {
        Err(RequestError::MalformedAmount)
    } else {
        Ok(
            Seq::new(
                keys.len(),
                |i: int|
                    InstructionView {
                        private_key: keys[i],
                        token: hex_bytes(address_digits(token)),
                        destination: hex_bytes(address_digits(destination)),
                        amount: dec_value(amounts[i]),
                    },
            ),
        )
    }
}

/// What a collect request says.
pub open spec fn instructions_of(request: CollectRequest) -> Result<
    Seq<InstructionView>,
    RequestError,
> {
    planned_instructions(
        request.token@,
        text_views(request.private_keys@),
        text_views(request.amounts@),
        request.destination@,
    )
}

/// The share of a balance that a percentage stands for, as decimal text, or
/// why there is none. Both numbers are read before the share is computed.
pub open spec fn share_of(supply: Seq<char>, percent: Seq<char>) -> Result<
    Seq<char>,
    ResolutionError,
> {
    if !is_amount_text(supply) || !is_percent_text(percent) {
        Err(ResolutionError::MalformedNumber)
    } else if scaled_value(dec_value(supply), percent_numerator(percent), percent_denominator(percent))
        >= amount_limit() {
        Err(ResolutionError::AmountOverflow)
    } else {
        Ok(
            dec_text(
                scaled_value(
                    dec_value(supply),
                    percent_numerator(percent),
                    percent_denominator(percent),
                ),
            ),
        )
    }
}

/// The shares of a balance that a run of percentages stands for, in order, or
/// the error of the first percentage that has none.
pub open spec fn shares_of(supply: Seq<char>, percents: Seq<String>) -> Result<
    Seq<Seq<char>>,
    ResolutionError,
>
    decreases percents.len(),
{
    if percents.len() == 0 {
        Ok(Seq::empty())
    } else {
        match shares_of(supply, percents.drop_last()) {
            Err(error) => Err(error),
            Ok(before) => match share_of(supply, percents.last()@) {
                Err(error) => Err(error),
                Ok(share) => Ok(before.push(share)),
            },
        }
    }
}

/// What a collect request by percentages says against the balance `supply`:
/// the percentages are resolved first, and the amounts that result are read
/// like those of any collect request.
pub open spec fn percent_instructions_of(request: CollectPercentsRequest, supply: Seq<char>) -> Result<
    Seq<InstructionView>,
    CollectPercentError,
> {
    match shares_of(supply, request.percents@) {
        Err(error) => Err(CollectPercentError::Resolution(error)),
        Ok(shares) => match planned_instructions(
            request.token@,
            text_views(request.private_keys@),
            shares,
            request.destination@,
        ) {
            Err(error) => Err(CollectPercentError::Request(error)),
            Ok(instructions) => Ok(instructions),
        },
    }
}

/// Once a percentage has failed, the percentages after it change nothing.
proof fn lemma_shares_error_stays(supply: Seq<char>, percents: Seq<String>, k: int)
    requires
        0 <= k <= percents.len(),
        shares_of(supply, percents.take(k)) is Err,
    ensures
        shares_of(supply, percents) == shares_of(supply, percents.take(k)),
    decreases percents.len() - k,
{
    if k == percents.len() {
        assert(percents.take(k) =~= percents);
    } else {
        assert(percents.take(k + 1).drop_last() =~= percents.take(k));
        lemma_shares_error_stays(supply, percents, k + 1);
    }
}

/// A copy of a run of texts.
fn copy_texts(texts: &Vec<String>) -> (copy: Vec<String>)
    ensures
        copy@ == texts@,
{
    let mut copy: Vec<String> = Vec::new();
    let mut i: usize = 0;
    while i < texts.len()
        invariant
            i <= texts.len(),
            copy@ == texts@.take(i as int),
        decreases texts.len() - i,
    {
        copy.push(texts[i].clone());
        i += 1;
    }
    copy
}

/// Reads a collect request into its instructions, one for each key and in
/// the order of the keys. The keys are carried along unread: whether a key
/// yields a signing identity shows when its transfer is dispatched.
pub fn make_collect_amounts(request: &CollectRequest) -> (outcome: Result<
    Vec<TransferInstruction>,
    RequestError,
>)
    ensures
        outcome matches Ok(instructions) ==> instructions_of(*request) == Ok::<
            Seq<InstructionView>,
            RequestError,
        >(instruction_views(instructions@)),
        outcome matches Err(error) ==> instructions_of(*request) == Err::<
            Seq<InstructionView>,
            RequestError,
        >(error),
{
    let count: usize = request.private_keys.len();
    if count != request.amounts.len() {
        return Err(RequestError::LengthMismatch);
    }
    let token = match Address::parse(request.token.as_str()) {
        Some(token) => token,
        None => {
            return Err(RequestError::MalformedAddress);
        },
    };
    let destination = match Address::parse(request.destination.as_str()) {
        Some(destination) => destination,
        None => {
            return Err(RequestError::MalformedAddress);
        },
    };
    let mut instructions: Vec<TransferInstruction> = Vec::new();
    let mut i: usize = 0;
    while i < count
        invariant
            i <= count,
            count == request.private_keys.len(),
            count == request.amounts.len(),
            is_address_text(request.token@),
            is_address_text(request.destination@),
            token@ == hex_bytes(address_digits(request.token@)),
            destination@ == hex_bytes(address_digits(request.destination@)),
            instructions@.len() == i,
            forall|j: int| 0 <= j < i ==> is_amount_text(#[trigger] request.amounts@[j]@),
            forall|j: int|
                0 <= j < i ==> (#[trigger] instructions@[j])@ == (InstructionView {
                    private_key: request.private_keys@[j]@,
                    token: token@,
                    destination: destination@,
                    amount: dec_value(request.amounts@[j]@),
                }),
        decreases count - i,
    {
        let amount = match Amount::parse_decimal(request.amounts[i].as_str()) {
            Some(amount) => amount,
            None => {
                assert(!is_amount_text(text_views(request.amounts@)[i as int]));
                return Err(RequestError::MalformedAmount);
            },
        };
        instructions.push(
            TransferInstruction {
                private_key: request.private_keys[i].clone(),
                token,
                destination,
                amount,
            },
        );
        i += 1;
    }
    proof {
        assert(all_amount_texts(text_views(request.amounts@)));
        assert(instruction_views(instructions@) =~= instructions_of(*request)->Ok_0);
    }
    Ok(instructions)
}

/// Prepares the dispatch of a collect request: the dispatcher of its
/// instructions, with nothing launched yet. A request that is refused yields
/// no dispatcher, so none of its transfers can be launched.
pub fn make_collect(request: &CollectRequest) -> (outcome: Result<Dispatcher, RequestError>)
    ensures
        outcome matches Ok(dispatcher) ==> instructions_of(*request) == Ok::<
            Seq<InstructionView>,
            RequestError,
        >(instruction_views(dispatcher@.instructions)) && dispatcher@ == DispatchState::start(
            dispatcher@.instructions,
        ),
        outcome matches Err(error) ==> instructions_of(*request) == Err::<
            Seq<InstructionView>,
            RequestError,
        >(error),
{
    match make_collect_amounts(request) {
        Ok(instructions) => Ok(Dispatcher::new(instructions)),
        Err(error) => Err(error),
    }
}

impl CollectPercentsRequest {
    /// Whose balance the percentages are to be measured against.
    pub fn balance_query(&self) -> (outcome: Result<BalanceQuery, RequestError>)
        ensures
            outcome is Ok <==> is_address_text(self.destination@) && is_address_text(self.token@),
            outcome matches Err(error) ==> error == RequestError::MalformedAddress,
            outcome matches Ok(BalanceQuery::Native { holder }) ==> holder@ == hex_bytes(
                address_digits(self.destination@),
            ) && all_zero(hex_bytes(address_digits(self.token@))),
            outcome matches Ok(BalanceQuery::Token { contract, holder }) ==> holder@ == hex_bytes(
                address_digits(self.destination@),
            ) && contract@ == hex_bytes(address_digits(self.token@)) && !all_zero(contract@),
    {
        let holder = match Address::parse(self.destination.as_str()) {
            Some(holder) => holder,
            None => {
                return Err(RequestError::MalformedAddress);
            },
        };
        let contract = match Address::parse(self.token.as_str()) {
            Some(contract) => contract,
            None => {
                return Err(RequestError::MalformedAddress);
            },
        };
        if contract.is_zero() {
            Ok(BalanceQuery::Native { holder })
        } else {
            Ok(BalanceQuery::Token { contract, holder })
        }
    }

    /// Resolves the percentages against the balance `supply`, given as
    /// decimal text, into a collect request by amounts. Amount `i` is the
    /// whole part of percentage `i` of the balance; token, keys and
    /// destination are carried over as they are.
    pub fn to_amounts(&self, supply: String) -> (outcome: Result<CollectRequest, ResolutionError>)
        ensures
            outcome matches Ok(request) ==> shares_of(supply@, self.percents@) == Ok::<
                Seq<Seq<char>>,
                ResolutionError,
            >(text_views(request.amounts@)) && request.token@ == self.token@
                && request.private_keys@ == self.private_keys@ && request.destination@
                == self.destination@,
            outcome matches Err(error) ==> shares_of(supply@, self.percents@) == Err::<
                Seq<Seq<char>>,
                ResolutionError,
            >(error),
    {
        let count: usize = self.percents.len();
        let mut amounts: Vec<String> = Vec::new();
        let mut i: usize = 0;
        assert(text_views(amounts@) =~= Seq::<Seq<char>>::empty());
        while i < count
            invariant
                i <= count,
                count == self.percents.len(),
                shares_of(supply@, self.percents@.take(i as int)) == Ok::<
                    Seq<Seq<char>>,
                    ResolutionError,
                >(text_views(amounts@)),
            decreases count - i,
        {
            proof {
                assert(self.percents@.take(i + 1).drop_last() =~= self.percents@.take(i as int));
            }
            let balance = match Amount::parse_decimal(supply.as_str()) {
                Some(balance) => balance,
                None => {
                    proof {
                        lemma_shares_error_stays(supply@, self.percents@, i + 1);
                    }
                    return Err(ResolutionError::MalformedNumber);
                },
            };
            let percent = match Percent::parse(self.percents[i].as_str()) {
                Some(percent) => percent,
                None => {
                    proof {
                        lemma_shares_error_stays(supply@, self.percents@, i + 1);
                    }
                    return Err(ResolutionError::MalformedNumber);
                },
            };
            let share = match percent.of(&balance) {
                Ok(share) => share,
                Err(error) => {
                    proof {
                        lemma_shares_error_stays(supply@, self.percents@, i + 1);
                    }
                    return Err(error);
                },
            };
            let text = share.to_decimal();
            proof {
                assert(text_views(amounts@.push(text)) =~= text_views(amounts@).push(text@));
            }
            amounts.push(text);
            i += 1;
        }
        proof {
            assert(self.percents@.take(count as int) =~= self.percents@);
        }
        Ok(
            CollectRequest {
                token: self.token.clone(),
                private_keys: copy_texts(&self.private_keys),
                amounts,
                destination: self.destination.clone(),
            },
        )
    }
}

/// Prepares the dispatch of a collect request by percentages, given the
/// balance that they are measured against: the percentages are resolved, and
/// the request by amounts that results is read like any other.
pub fn make_collect_percent(request: &CollectPercentsRequest, supply: String) -> (outcome: Result<
    Dispatcher,
    CollectPercentError,
>)
    ensures
        outcome matches Ok(dispatcher) ==> percent_instructions_of(*request, supply@) == Ok::<
            Seq<InstructionView>,
            CollectPercentError,
        >(instruction_views(dispatcher@.instructions)) && dispatcher@ == DispatchState::start(
            dispatcher@.instructions,
        ),
        outcome matches Err(error) ==> percent_instructions_of(*request, supply@) == Err::<
            Seq<InstructionView>,
            CollectPercentError,
        >(error),
{
    match request.to_amounts(supply) {
        Err(error) => Err(CollectPercentError::Resolution(error)),
        Ok(resolved) => match make_collect(&resolved) {
            Ok(dispatcher) => Ok(dispatcher),
            Err(error) => Err(CollectPercentError::Request(error)),
        },
    }
}

/// A percentage that is resolved yields an amount that can be read again:
/// the shares of a balance are amounts, one for each percentage. So a collect
/// by percentages is never refused for a malformed amount.
pub proof fn lemma_shares_are_amounts(supply: Seq<char>, percents: Seq<String>)
    ensures
        shares_of(supply, percents) matches Ok(shares) ==> shares.len() == percents.len()
            && all_amount_texts(shares),
    decreases percents.len(),
{
    if percents.len() > 0 {
        lemma_shares_are_amounts(supply, percents.drop_last());
        match shares_of(supply, percents) {
            Ok(shares) => {
                lemma_dec_text_round_trip(
                    scaled_value(
                        dec_value(supply),
                        percent_numerator(percents.last()@),
                        percent_denominator(percents.last()@),
                    ),
                );
                assert(all_amount_texts(shares.drop_last()));
            },
            Err(_) => {},
        }
    }
}

/// A collect that does not name as many amounts as keys is refused, whatever
/// else it holds: it yields no instruction, so nothing of it is dispatched.
pub proof fn lemma_collect_length_mismatch_is_rejected(request: CollectRequest)
    requires
        request.private_keys@.len() != request.amounts@.len(),
    ensures
        instructions_of(request) == Err::<Seq<InstructionView>, RequestError>(
            RequestError::LengthMismatch,
        ),
{
}

} // verus!
