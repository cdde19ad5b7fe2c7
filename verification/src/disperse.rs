//! Disperse requests: from the text of a request to the payload of the call.
//!
//! A request names, for each token, the recipients and their amounts as text.
//! It is read in order, and the first thing that cannot be read ends the
//! work: a request is turned into a payload as a whole or not at all.

use vstd::prelude::*;
use crate::address::{is_prefixed_address_text, Address};
use crate::amount::{is_amount_text, Amount};
use crate::decimal::dec_value;
use crate::encoder::{
    calldata, encode, encode_group, group_bytes, group_views, GroupView, Recipient,
    RecipientView, TransferGroup,
};
use crate::hexadecimal::{encode_hex, hex_bytes, hex_text};

verus! {

/// Why a disperse request could not be turned into a payload.
#[derive(Clone, Copy, Debug, PartialEq, Eq)]
pub enum EncodingError {
    /// A group does not name as many amounts as addresses.
    LengthMismatch,
    /// A token or a recipient is not two characters and forty hexadecimal
    /// digits.
    MalformedAddress,
    /// An amount is not decimal text of a number that fits in 256 bits.
    MalformedAmount,
}

/// The transfers of one token, as the request words them: the token, the
/// recipients' addresses, and as many amounts, all as text.
#[derive(Clone, Debug, PartialEq, Eq)]
pub struct DisperserRequest {
    pub token: String,
    pub addresses: Vec<String>,
    pub amounts: Vec<String>,
}

/// What one pair of texts says: a recipient, or why it names none. The
/// address is read before the amount.
pub open spec fn recipient_of(address: Seq<char>, amount: Seq<char>) -> Result<
    RecipientView,
    EncodingError,
> {
    if !is_prefixed_address_text(address) {
        Err(EncodingError::MalformedAddress)
    } else if !is_amount_text(amount) {
        Err(EncodingError::MalformedAmount)
    } else {
        Ok(RecipientView { address: hex_bytes(address.skip(2)), amount: dec_value(amount) })
    }
}

/// What two lists of texts of one length say: the recipients in order, or the
/// error of the first pair that names none.
pub open spec fn recipients_of(addresses: Seq<String>, amounts: Seq<String>) -> Result<
    Seq<RecipientView>,
    EncodingError,
>
    decreases addresses.len(),
{
    if addresses.len() == 0 {
        Ok(Seq::empty())
    } else {
        match recipients_of(addresses.drop_last(), amounts.drop_last()) {
            Err(error) => Err(error),
            Ok(before) => match recipient_of(addresses.last()@, amounts.last()@) {
                Err(error) => Err(error),
                Ok(recipient) => Ok(before.push(recipient)),
            },
        }
    }
}

/// What a request says: a transfer group, or why it names none. The lengths
/// are compared first, then the token is read, then the recipients in order.
pub open spec fn group_of(request: DisperserRequest) -> Result<GroupView, EncodingError> {
    if request.addresses@.len() != request.amounts@.len() {
        Err(EncodingError::LengthMismatch)
    } else if !is_prefixed_address_text(request.token@) {
        Err(EncodingError::MalformedAddress)
    } else {
        match recipients_of(request.addresses@, request.amounts@) {
            Err(error) => Err(error),
            Ok(recipients) => Ok(
                GroupView { token: hex_bytes(request.token@.skip(2)), recipients },
            ),
        }
    }
}

/// What a list of requests says: the groups in order, or the error of the
/// first request that names none.
pub open spec fn groups_of(requests: Seq<DisperserRequest>) -> Result<Seq<GroupView>, EncodingError>
    decreases requests.len(),
{
    if requests.len() == 0 {
        Ok(Seq::empty())
    } else {
        match groups_of(requests.drop_last()) {
            Err(error) => Err(error),
            Ok(before) => match group_of(requests.last()) {
                Err(error) => Err(error),
                Ok(group) => Ok(before.push(group)),
            },
        }
    }
}

/// The payload that a list of requests stands for, or why it stands for
/// none.
pub open spec fn payload_of(requests: Seq<DisperserRequest>) -> Result<Seq<u8>, EncodingError> {
    match groups_of(requests) {
        Err(error) => Err(error),
        Ok(groups) => Ok(calldata(groups)),
    }
}

/// Once a pair of texts has failed, the pairs after it change nothing.
proof fn lemma_recipients_error_stays(addresses: Seq<String>, amounts: Seq<String>, k: int)
    requires
        0 <= k <= addresses.len(),
        addresses.len() == amounts.len(),
        recipients_of(addresses.take(k), amounts.take(k)) is Err,
    ensures
        recipients_of(addresses, amounts) == recipients_of(addresses.take(k), amounts.take(k)),
    decreases addresses.len() - k,
{
    if k == addresses.len() {
        assert(addresses.take(k) =~= addresses);
        assert(amounts.take(k) =~= amounts);
    } else {
        assert(addresses.take(k + 1).drop_last() =~= addresses.take(k));
        assert(amounts.take(k + 1).drop_last() =~= amounts.take(k));
        lemma_recipients_error_stays(addresses, amounts, k + 1);
    }
}

/// Once a request has failed, the requests after it change nothing.
proof fn lemma_groups_error_stays(requests: Seq<DisperserRequest>, k: int)
    requires
        0 <= k <= requests.len(),
        groups_of(requests.take(k)) is Err,
    ensures
        groups_of(requests) == groups_of(requests.take(k)),
    decreases requests.len() - k,
{
    if k == requests.len() {
        assert(requests.take(k) =~= requests);
    } else {
        assert(requests.take(k + 1).drop_last() =~= requests.take(k));
        lemma_groups_error_stays(requests, k + 1);
    }
}

/// A list of requests in which one group does not name as many amounts as
/// addresses stands for no payload, whatever else it holds. The group itself
/// is refused for its lengths before anything of it is read.
pub proof fn lemma_length_mismatch_is_rejected(requests: Seq<DisperserRequest>, k: int)
    requires
        0 <= k < requests.len(),
        requests[k].addresses@.len() != requests[k].amounts@.len(),
    ensures
        group_of(requests[k]) == Err::<GroupView, EncodingError>(EncodingError::LengthMismatch),
        groups_of(requests) is Err,
        payload_of(requests) is Err,
{
    lemma_groups_error_stays(requests, k + 1);
}

/// The views of a run of recipients, in order.
pub open spec fn recipient_views(recipients: Seq<Recipient>) -> Seq<RecipientView> {
    recipients.map_values(|r: Recipient| r@)
}

impl DisperserRequest {
    /// Reads the request into a transfer group. Nothing is merged or
    /// reordered: recipient `i` of the group is pair `i` of the request.
    pub fn to_group(&self) -> (outcome: Result<TransferGroup, EncodingError>)
        ensures
            outcome matches Ok(group) ==> group_of(*self) == Ok::<GroupView, EncodingError>(
                group@,
            ),
            outcome matches Err(error) ==> group_of(*self) == Err::<GroupView, EncodingError>(
                error,
            ),
    {
        let count: usize = self.addresses.len();
        if count != self.amounts.len() {
            return Err(EncodingError::LengthMismatch);
        }
        let token = match Address::from_prefixed_hex(self.token.as_str()) {
            Some(token) => token,
            None => {
                return Err(EncodingError::MalformedAddress);
            },
        };
        let mut recipients: Vec<Recipient> = Vec::new();
        let mut i: usize = 0;
        assert(recipient_views(recipients@) =~= Seq::<RecipientView>::empty());
        while i < count
            invariant
                i <= count,
                count == self.addresses.len(),
                count == self.amounts.len(),
                is_prefixed_address_text(self.token@),
                recipients_of(self.addresses@.take(i as int), self.amounts@.take(i as int)) == Ok::<
                    Seq<RecipientView>,
                    EncodingError,
                >(recipient_views(recipients@)),
            decreases count - i,
        {
            proof {
                assert(self.addresses@.take(i + 1).drop_last() =~= self.addresses@.take(i as int));
                assert(self.amounts@.take(i + 1).drop_last() =~= self.amounts@.take(i as int));
            }
            let address = match Address::from_prefixed_hex(self.addresses[i].as_str()) {
                Some(address) => address,
                None => {
                    proof {
                        lemma_recipients_error_stays(self.addresses@, self.amounts@, i + 1);
                    }
                    return Err(EncodingError::MalformedAddress);
                },
            };
            let amount = match Amount::parse_decimal(self.amounts[i].as_str()) {
                Some(amount) => amount,
                None => {
                    proof {
                        lemma_recipients_error_stays(self.addresses@, self.amounts@, i + 1);
                    }
                    return Err(EncodingError::MalformedAmount);
                },
            };
            let recipient = Recipient { address, amount };
            proof {
                assert(recipient_views(recipients@.push(recipient)) =~= recipient_views(
                    recipients@,
                ).push(recipient@));
            }
            recipients.push(recipient);
            i += 1;
        }
        proof {
            assert(self.addresses@.take(count as int) =~= self.addresses@);
            assert(self.amounts@.take(count as int) =~= self.amounts@);
        }
        Ok(TransferGroup { token, recipients })
    }

    /// The bytes of this request's group in the payload: the token, the
    /// count of recipients, and each recipient's address and amount field.
    pub fn get_calldata(&self) -> (outcome: Result<Vec<u8>, EncodingError>)
        ensures
            outcome matches Ok(bytes) ==> group_of(*self) matches Ok(group) && bytes@
                == group_bytes(group),
            outcome matches Err(error) ==> group_of(*self) == Err::<GroupView, EncodingError>(
                error,
            ),
    {
        match self.to_group() {
            Ok(group) => Ok(encode_group(&group)),
            Err(error) => Err(error),
        }
    }
}

/// Reads a list of requests into transfer groups, in order.
pub fn read_groups(requests: &Vec<DisperserRequest>) -> (outcome: Result<
    Vec<TransferGroup>,
    EncodingError,
>)
    ensures
        outcome matches Ok(groups) ==> groups_of(requests@) == Ok::<
            Seq<GroupView>,
            EncodingError,
        >(group_views(groups@)),
        outcome matches Err(error) ==> groups_of(requests@) == Err::<
            Seq<GroupView>,
            EncodingError,
        >(error),
{
    let count: usize = requests.len();
    let mut groups: Vec<TransferGroup> = Vec::new();
    let mut i: usize = 0;
    assert(group_views(groups@) =~= Seq::<GroupView>::empty());
    while i < count
        invariant
            i <= count,
            count == requests.len(),
            groups_of(requests@.take(i as int)) == Ok::<Seq<GroupView>, EncodingError>(
                group_views(groups@),
            ),
        decreases count - i,
    {
        proof {
            assert(requests@.take(i + 1).drop_last() =~= requests@.take(i as int));
        }
        match requests[i].to_group() {
            Ok(group) => {
                proof {
                    assert(group_views(groups@.push(group)) =~= group_views(groups@).push(group@));
                }
                groups.push(group);
            },
            Err(error) => {
                proof {
                    lemma_groups_error_stays(requests@, i + 1);
                }
                return Err(error);
            },
        }
        i += 1;
    }
    proof {
        assert(requests@.take(count as int) =~= requests@);
    }
    Ok(groups)
}

/// The payload of a disperse call for a list of requests: the count of
/// groups, then each request's bytes in order. The first request that cannot
/// be read decides the error, and no payload is made.
pub fn make_disperse(requests: &Vec<DisperserRequest>) -> (outcome: Result<Vec<u8>, EncodingError>)
    ensures
        outcome matches Ok(bytes) ==> payload_of(requests@) == Ok::<Seq<u8>, EncodingError>(
            bytes@,
        ),
        outcome matches Err(error) ==> payload_of(requests@) == Err::<Seq<u8>, EncodingError>(
            error,
        ),
{
    match read_groups(requests) {
        Ok(groups) => Ok(encode(&groups)),
        Err(error) => Err(error),
    }
}

/// The payload of a disperse call as lower-case hexadecimal text, two digits
/// to a byte, for a caller that submits the call itself.
pub fn make_disperse_text(requests: &Vec<DisperserRequest>) -> (outcome: Result<
    String,
    EncodingError,
>)
    ensures
        outcome matches Ok(text) ==> payload_of(requests@) matches Ok(bytes) && text@ == hex_text(
            bytes,
        ),
        outcome matches Err(error) ==> payload_of(requests@) == Err::<Seq<u8>, EncodingError>(
            error,
        ),
{
    match make_disperse(requests) {
        Ok(bytes) => Ok(encode_hex(bytes.as_slice())),
        Err(error) => Err(error),
    }
}

} // verus!
