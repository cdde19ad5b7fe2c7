//! The payload of a disperse call: one byte sequence that names every token,
//! every recipient and every amount of a batch, by position alone.
//!
//! The layout is fixed-width. One byte counts the groups. Each group is the
//! token's twenty bytes, one byte that counts its recipients, and for each
//! recipient twenty bytes of address and thirty-two bytes of amount. Nothing
//! in the payload describes itself: the receiving contract reads it by offset.

use vstd::prelude::*;
use vstd::arithmetic::div_mod::{
    lemma_div_denominator, lemma_fundamental_div_mod, lemma_hoist_over_denominator,
    lemma_mod_multiples_vanish,
};
use crate::address::Address;
use crate::amount::Amount;

verus! {

/// The radix of the digits of an amount field. Every byte of the field holds
/// one digit, so with radix 8 a byte carries three bits and the field as a
/// whole carries the low 96 bits of the amount; what lies above is cut off
/// without notice. A field of one full byte per digit would have radix 256.
pub const AMOUNT_RADIX: u64 = 8;

/// The number of bytes, and so of digits, in an amount field.
pub const AMOUNT_FIELD_BYTES: usize = 32;

/// `AMOUNT_RADIX` to the power `k`: the weight of the digit `k` places from
/// the end of an amount field.
pub open spec fn radix_power(k: nat) -> nat
    decreases k,
{
    if k == 0 {
        1
    } else {
        AMOUNT_RADIX as nat * radix_power((k - 1) as nat)
    }
}

/// The amount field of `amount`: its thirty-two lowest digits in radix
/// `AMOUNT_RADIX`, the most significant first.
pub open spec fn amount_field(amount: nat) -> Seq<u8> {
    Seq::new(
        AMOUNT_FIELD_BYTES as nat,
        |i: int| ((amount / radix_power((AMOUNT_FIELD_BYTES - 1 - i) as nat)) % AMOUNT_RADIX as nat) as u8,
    )
}

/// The byte that counts `n` items. The count is cut to its low eight bits, so
/// a batch tells the truth about itself only up to 255 items.
pub open spec fn count_byte(n: nat) -> u8 {
    (n % 256) as u8
}

/// One recipient of a disperse and what it is to receive.
#[derive(Clone, Copy, Debug, PartialEq, Eq)]
pub struct Recipient {
    pub address: Address,
    pub amount: Amount,
}

/// What a recipient is, as plain values.
pub struct RecipientView {
    pub address: Seq<u8>,
    pub amount: nat,
}

impl View for Recipient {
    type V = RecipientView;

    open spec fn view(&self) -> RecipientView {
        RecipientView { address: self.address@, amount: self.amount@ }
    }
}

/// The transfers of one token: the token and its recipients, in the order in
/// which they were asked for. Equal recipients are not merged.
#[derive(Clone, Debug, PartialEq, Eq)]
pub struct TransferGroup {
    pub token: Address,
    pub recipients: Vec<Recipient>,
}

/// What a transfer group is, as plain values.
pub struct GroupView {
    pub token: Seq<u8>,
    pub recipients: Seq<RecipientView>,
}

impl View for TransferGroup {
    type V = GroupView;

    open spec fn view(&self) -> GroupView {
        GroupView { token: self.token@, recipients: self.recipients@.map_values(|r: Recipient| r@) }
    }
}

/// The views of a sequence of groups, in order.
pub open spec fn group_views(groups: Seq<TransferGroup>) -> Seq<GroupView> {
    groups.map_values(|g: TransferGroup| g@)
}

/// The bytes of one recipient: the address, then the amount field.
pub open spec fn recipient_bytes(recipient: RecipientView) -> Seq<u8> {
    recipient.address + amount_field(recipient.amount)
}

/// The bytes of a run of recipients, one after the other.
pub open spec fn recipients_bytes(recipients: Seq<RecipientView>) -> Seq<u8> {
    recipients.map_values(|r: RecipientView| recipient_bytes(r)).flatten()
}

/// The bytes of one group: the token, the count of recipients, then every
/// recipient in order.
pub open spec fn group_bytes(group: GroupView) -> Seq<u8> {
    group.token + seq![count_byte(group.recipients.len())] + recipients_bytes(group.recipients)
}

/// The bytes of a run of groups, one after the other.
pub open spec fn groups_bytes(groups: Seq<GroupView>) -> Seq<u8> {
    groups.map_values(|g: GroupView| group_bytes(g)).flatten()
}

/// The payload of a batch: the count of groups, then every group in order.
pub open spec fn calldata(groups: Seq<GroupView>) -> Seq<u8> {
    seq![count_byte(groups.len())] + groups_bytes(groups)
}

proof fn lemma_radix_power_positive(k: nat)
    ensures
        radix_power(k) > 0,
    decreases k,
{
    if k > 0 {
        lemma_radix_power_positive((k - 1) as nat);
        assert(AMOUNT_RADIX as nat * radix_power((k - 1) as nat) > 0) by (nonlinear_arith)
            requires
                AMOUNT_RADIX as nat > 0,
                radix_power((k - 1) as nat) > 0,
        ;
    }
}

proof fn lemma_radix_power_adds(j: nat, k: nat)
    ensures
        radix_power(j + k) == radix_power(j) * radix_power(k),
    decreases j,
{
    let radix = AMOUNT_RADIX as nat;
    if j == 0 {
        assert(1 * radix_power(k) == radix_power(k)) by (nonlinear_arith);
    } else {
        let shorter = radix_power((j - 1) as nat);
        lemma_radix_power_adds((j - 1) as nat, k);
        assert(radix_power(j + k) == radix * radix_power(((j - 1) as nat) + k));
        assert(radix * (shorter * radix_power(k)) == (radix * shorter) * radix_power(k))
            by (nonlinear_arith);
    }
}

/// The digit of weight `radix_power(k)` of a number is a digit of what the
/// number leaves when divided by a higher power of the radix.
proof fn lemma_digit_of_remainder(amount: nat, k: nat, width: nat)
    requires
        k < width,
    ensures
        (amount / radix_power(k)) % AMOUNT_RADIX as nat == ((amount % radix_power(width))
            / radix_power(k)) % AMOUNT_RADIX as nat,
{
    let radix = AMOUNT_RADIX as int;
    let low = radix_power(k) as int;
    let rest = radix_power((width - k - 1) as nat) as int;
    let full = radix_power(width) as int;
    let above = amount as int / full;
    let kept = amount as int % full;
    lemma_radix_power_positive(k);
    lemma_radix_power_positive(width);
    lemma_radix_power_adds(k, (width - k) as nat);
    assert(radix_power((width - k) as nat) == radix * rest);
    assert(full == low * (radix * rest));
    lemma_fundamental_div_mod(amount as int, full);
    assert(amount as int == kept + (above * (radix * rest)) * low) by (nonlinear_arith)
        requires
            amount as int == full * above + kept,
            full == low * (radix * rest),
    ;
    lemma_hoist_over_denominator(kept, above * (radix * rest), low as nat);
    assert(above * (radix * rest) == radix * (above * rest)) by (nonlinear_arith);
    lemma_mod_multiples_vanish(above * rest, kept / low, radix);
}

/// The amount field holds the amount only up to the thirty-two digits that
/// fit: an amount and what it leaves when divided by the radix to the power
/// 32 have the same field. What lies above is lost without notice.
pub proof fn lemma_amount_field_cuts_high_digits(amount: nat)
    ensures
        amount_field(amount) == amount_field(amount % radix_power(AMOUNT_FIELD_BYTES as nat)),
{
    let kept = amount % radix_power(AMOUNT_FIELD_BYTES as nat);
    assert forall|i: int| 0 <= i < AMOUNT_FIELD_BYTES implies amount_field(amount)[i]
        == amount_field(kept)[i] by {
        lemma_digit_of_remainder(
            amount,
            (AMOUNT_FIELD_BYTES - 1 - i) as nat,
            AMOUNT_FIELD_BYTES as nat,
        );
    }
    assert(amount_field(amount) =~= amount_field(kept));
}

/// Appends the twenty bytes of `address` to `out`.
fn push_address(out: &mut Vec<u8>, address: &Address)
    ensures
        final(out)@ == old(out)@ + address@,
{
    let mut i: usize = 0;
    while i < 20
        invariant
            i <= 20,
            out@ == old(out)@ + address@.take(i as int),
        decreases 20 - i,
    {
        out.push(address.bytes[i]);
        i += 1;
    }
}

/// Appends every byte of `bytes` to `out`.
fn push_bytes(out: &mut Vec<u8>, bytes: &Vec<u8>)
    ensures
        final(out)@ == old(out)@ + bytes@,
{
    let mut i: usize = 0;
    while i < bytes.len()
        invariant
            i <= bytes.len(),
            out@ == old(out)@ + bytes@.take(i as int),
        decreases bytes.len() - i,
    {
        out.push(bytes[i]);
        i += 1;
    }
}

/// The amount field of `amount`.
pub fn encode_amount(amount: &Amount) -> (field: Vec<u8>)
    ensures
        field@ == amount_field(amount@),
{
    let mut field: Vec<u8> = Vec::new();
    let mut n: usize = 0;
    while n < AMOUNT_FIELD_BYTES
        invariant
            n <= AMOUNT_FIELD_BYTES,
            field@.len() == n,
        decreases AMOUNT_FIELD_BYTES - n,
    {
        field.push(0);
        n += 1;
    }
    let mut rest: Amount = *amount;
    let mut done: usize = 0;
    while done < AMOUNT_FIELD_BYTES
        invariant
            done <= AMOUNT_FIELD_BYTES,
            field@.len() == AMOUNT_FIELD_BYTES,
            rest@ == amount@ / radix_power(done as nat),
            forall|i: int|
                AMOUNT_FIELD_BYTES - done <= i < AMOUNT_FIELD_BYTES ==> #[trigger] field@[i]
                    == amount_field(amount@)[i],
        decreases AMOUNT_FIELD_BYTES - done,
    {
        let (above, quotient, digit) = rest.wide_div_small(0, AMOUNT_RADIX);
        proof {
            lemma_radix_power_positive(done as nat);
            lemma_div_denominator(
                amount@ as int,
                radix_power(done as nat) as int,
                AMOUNT_RADIX as int,
            );
        }
        field.set(AMOUNT_FIELD_BYTES - 1 - done, digit as u8);
        rest = quotient;
        done += 1;
    }
    field
}

/// One more recipient adds its bytes at the end.
pub proof fn lemma_recipients_bytes_push(recipients: Seq<RecipientView>, next: RecipientView)
    ensures
        recipients_bytes(recipients.push(next)) == recipients_bytes(recipients) + recipient_bytes(
            next,
        ),
{
    let each = |r: RecipientView| recipient_bytes(r);
    assert(recipients.push(next).map_values(each) =~= recipients.map_values(each).push(
        recipient_bytes(next),
    ));
    recipients.map_values(each).lemma_flatten_push(recipient_bytes(next));
}

/// One more group adds its bytes at the end.
pub proof fn lemma_groups_bytes_push(groups: Seq<GroupView>, next: GroupView)
    ensures
        groups_bytes(groups.push(next)) == groups_bytes(groups) + group_bytes(next),
{
    let each = |g: GroupView| group_bytes(g);
    assert(groups.push(next).map_values(each) =~= groups.map_values(each).push(group_bytes(next)));
    groups.map_values(each).lemma_flatten_push(group_bytes(next));
}

/// Appends the bytes of `group` to `out`.
fn push_group(out: &mut Vec<u8>, group: &TransferGroup)
    ensures
        final(out)@ == old(out)@ + group_bytes(group@),
{
    let count: usize = group.recipients.len();
    push_address(out, &group.token);
    out.push((count % 256) as u8);
    let ghost head = out@;
    let mut i: usize = 0;
    while i < count
        invariant
            i <= count,
            count == group.recipients.len(),
            out@ == head + recipients_bytes(group@.recipients.take(i as int)),
        decreases count - i,
    {
        let recipient: Recipient = group.recipients[i];
        push_address(out, &recipient.address);
        let field = encode_amount(&recipient.amount);
        push_bytes(out, &field);
        proof {
            lemma_recipients_bytes_push(group@.recipients.take(i as int), recipient@);
            assert(group@.recipients.take(i + 1) =~= group@.recipients.take(i as int).push(
                recipient@,
            ));
        }
        i += 1;
    }
    assert(group@.recipients.take(count as int) =~= group@.recipients);
}

/// The bytes of one group: its token, the count of its recipients, and its
/// recipients in order.
pub fn encode_group(group: &TransferGroup) -> (bytes: Vec<u8>)
    ensures
        bytes@ == group_bytes(group@),
{
    let mut out: Vec<u8> = Vec::new();
    push_group(&mut out, group);
    out
}

/// The payload of a batch: the count of its groups, and its groups in order.
/// The batch is taken as it is: no group is checked, merged or reordered.
pub fn encode(groups: &Vec<TransferGroup>) -> (bytes: Vec<u8>)
    ensures
        bytes@ == calldata(group_views(groups@)),
{
    let count: usize = groups.len();
    let mut out: Vec<u8> = Vec::new();
    out.push((count % 256) as u8);
    let ghost views = group_views(groups@);
    let mut i: usize = 0;
    while i < count
        invariant
            i <= count,
            count == groups.len(),
            views == group_views(groups@),
            out@ == seq![count_byte(count as nat)] + groups_bytes(views.take(i as int)),
        decreases count - i,
    {
        push_group(&mut out, &groups[i]);
        proof {
            lemma_groups_bytes_push(views.take(i as int), groups[i as int]@);
            assert(views.take(i + 1) =~= views.take(i as int).push(groups[i as int]@));
        }
        i += 1;
    }
    assert(views.take(count as int) =~= views);
    out
}

/// The payload does not depend on anything but the batch: whatever two
/// encodings of one batch are, they are the same bytes.
pub proof fn lemma_encoding_is_deterministic(
    groups: Seq<TransferGroup>,
    first: Seq<u8>,
    second: Seq<u8>,
)
    requires
        first == calldata(group_views(groups)),
        second == calldata(group_views(groups)),
    ensures
        first == second,
{
}

/// A batch of one group with one recipient is laid out as the byte 1, the
/// token, the byte 1, the recipient's address and the amount field: 74 bytes.
pub proof fn lemma_single_recipient_layout(token: Seq<u8>, recipient: RecipientView)
    requires
        token.len() == 20,
        recipient.address.len() == 20,
    ensures
        calldata(seq![GroupView { token, recipients: seq![recipient] }]) == seq![1u8] + token
            + seq![1u8] + recipient.address + amount_field(recipient.amount),
        calldata(seq![GroupView { token, recipients: seq![recipient] }]).len() == 74,
{
    let group = GroupView { token, recipients: seq![recipient] };
    lemma_recipients_bytes_push(Seq::empty(), recipient);
    lemma_groups_bytes_push(Seq::empty(), group);
}

} // verus!
