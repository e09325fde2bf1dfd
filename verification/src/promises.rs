//! What each operation of the pool promises, in terms of what it is given and what comes
//! of it: when it succeeds, which refusal comes when, what it leaves in the storage, and
//! what it asks of the host and of the token contract.
//!
//! The storage is spoken of entry by entry, and a batch payment by payment.
use vstd::prelude::*;

use crate::errors::PoolError;
use crate::host::{BalanceReply, EventData, HostCall};
#[allow(unused_imports)]
use crate::host;
#[allow(unused_imports)]
use crate::laws;
use crate::model::{Key, Payments, Replies, Step, Storage};
#[allow(unused_imports)]
use crate::model;

verus! {

/// Whether the address `who` is kept under `name`.
pub open spec fn keeps(storage: Storage, name: Seq<char>, who: Key) -> bool {
    storage.contains_key(name) && storage[name] == Some(who)
}

/// Whether some address is kept under `name`.
pub open spec fn keeps_any(storage: Storage, name: Seq<char>) -> bool {
    storage.contains_key(name) && storage[name] is Some
}

/// Whether two storages have the same entry under `name`, or both have none.
pub open spec fn same_entry(one: Storage, other: Storage, name: Seq<char>) -> bool {
    &&& one.contains_key(name) == other.contains_key(name)
    &&& one.contains_key(name) ==> one[name] == other[name]
}

/// Whether a step ends in `error`.
pub open spec fn fails_with(step: Step, error: PoolError) -> bool {
    step.outcome == Err::<(), PoolError>(error)
}

/// Whether a strkey starts with the letter `C`, as those of contracts do.
pub open spec fn names_contract(key: Key) -> bool {
    key.len() > 0 && key[0] == 67u8
}

/// Whom a payment of a batch is for.
pub open spec fn to_of(payments: Payments, index: int) -> Key {
    (payments[index]->0).0
}

/// How much a payment of a batch is.
pub open spec fn amount_of(payments: Payments, index: int) -> i128 {
    (payments[index]->0).1
}

/// The sum of the first `count` payments of a batch.
pub open spec fn sum_of(payments: Payments, count: nat) -> int
    decreases count,
{
    if count == 0 {
        0
    } else {
        sum_of(payments, (count - 1) as nat) + amount_of(payments, count - 1)
    }
}

/// Whether the first `count` entries of a batch are payments of positive amounts, of a sum
/// that an `i128` holds.
pub open spec fn countable(payments: Payments, count: nat) -> bool {
    &&& forall|i: int|
        0 <= i < count ==> (#[trigger] payments[i]) is Some && amount_of(payments, i) > 0
    &&& sum_of(payments, count) <= i128::MAX
}

/// When `init` succeeds: the token is neither the pool nor the admin, and the storage has no
/// admin entry yet. Whatever address the admin is, nothing else stands in the way; and each
/// refusal has the reason that comes first.
pub proof fn law_init_succeeds_when(storage: Storage, me: Key, admin: Key, token: Key)
    ensures
        ({
            let step = model::init_step(storage, me, admin, token);
            let taken = storage.contains_key("admin"@);
            &&& step.outcome is Ok <==> token != me && token != admin && !taken
            &&& fails_with(step, PoolError::TokenIsContract) <==> token == me
            &&& fails_with(step, PoolError::TokenIsAdmin) <==> token != me && token == admin
            &&& fails_with(step, PoolError::AlreadyInitialized) <==> token != me && token != admin
                && taken
        }),
{
}

/// What `init` leaves: on success the admin and the token are kept as they were given, every
/// other entry is as before, and the one event names both; a refusal leaves all as it was.
/// Either way the admin's authorization is asked for, and nothing else.
pub proof fn law_init_keeps_what_it_is_given(
    storage: Storage,
    me: Key,
    admin: Key,
    token: Key,
    name: Seq<char>,
)
    ensures
        ({
            let step = model::init_step(storage, me, admin, token);
            let asked = HostCall::Authorize { who: admin };
            let event = HostCall::Publish {
                name: "init"@,
                subject: admin,
                data: EventData::Address(token),
            };
            &&& step.outcome is Ok ==> {
                &&& keeps(step.storage, "admin"@, admin)
                &&& keeps(step.storage, "usdc"@, token)
                &&& name != "admin"@ && name != "usdc"@ ==> same_entry(step.storage, storage, name)
                &&& step.calls == seq![asked, event]
            }
            &&& step.outcome is Err ==> {
                &&& step.storage == storage
                &&& step.calls == seq![asked]
            }
        }),
{
    model::lemma_names();
}

/// What `get_admin` returns is the address that is kept as the admin, and it returns one
/// whenever there is one.
pub proof fn law_get_admin_reads_the_admin(storage: Storage, admin: Key)
    ensures
        model::get_admin_outcome(storage) == Ok::<Key, PoolError>(admin) <==> keeps(
            storage,
            "admin"@,
            admin,
        ),
        model::get_admin_outcome(storage) == Err::<Key, PoolError>(PoolError::NotInitialized)
            <==> !keeps_any(storage, "admin"@),
{
}

/// When `set_admin` succeeds: the caller is the admin. It then keeps the offer and changes
/// no other entry, so that the admin stays; the one event names the admin and the one that
/// the role is offered to. A refusal leaves all as it was.
pub proof fn law_set_admin_keeps_the_offer(
    storage: Storage,
    caller: Key,
    new_admin: Key,
    name: Seq<char>,
)
    ensures
        ({
            let step = model::set_admin_step(storage, caller, new_admin);
            let asked = HostCall::Authorize { who: caller };
            let event = HostCall::Publish {
                name: "admin_transfer_started"@,
                subject: caller,
                data: EventData::Address(new_admin),
            };
            &&& step.outcome is Ok <==> keeps(storage, "admin"@, caller)
            &&& fails_with(step, PoolError::NotInitialized) <==> !keeps_any(storage, "admin"@)
            &&& fails_with(step, PoolError::Unauthorized) <==> keeps_any(storage, "admin"@)
                && !keeps(storage, "admin"@, caller)
            &&& step.outcome is Ok ==> {
                &&& keeps(step.storage, "pending_admin"@, new_admin)
                &&& name != "pending_admin"@ ==> same_entry(step.storage, storage, name)
                &&& step.calls == seq![asked, event]
            }
            &&& step.outcome is Err ==> {
                &&& step.storage == storage
                &&& step.calls == seq![asked]
            }
        }),
{
    model::lemma_names();
}

/// When `claim_admin` succeeds: the role has been offered to the caller. The caller is then
/// kept as the admin, the offer is gone, every other entry is as before, and the one event
/// names the caller. A refusal leaves all as it was.
pub proof fn law_claim_admin_takes_the_offer(storage: Storage, caller: Key, name: Seq<char>)
    ensures
        ({
            let step = model::claim_admin_step(storage, caller);
            let asked = HostCall::Authorize { who: caller };
            let event = HostCall::Publish {
                name: "admin_transfer_completed"@,
                subject: caller,
                data: EventData::Empty,
            };
            &&& step.outcome is Ok <==> keeps(storage, "pending_admin"@, caller)
            &&& fails_with(step, PoolError::NoPendingAdmin) <==> !keeps_any(
                storage,
                "pending_admin"@,
            )
            &&& fails_with(step, PoolError::NotPendingAdmin) <==> keeps_any(
                storage,
                "pending_admin"@,
            ) && !keeps(storage, "pending_admin"@, caller)
            &&& step.outcome is Ok ==> {
                &&& keeps(step.storage, "admin"@, caller)
                &&& !step.storage.contains_key("pending_admin"@)
                &&& name != "admin"@ && name != "pending_admin"@ ==> same_entry(
                    step.storage,
                    storage,
                    name,
                )
                &&& step.calls == seq![asked, event]
            }
            &&& step.outcome is Err ==> {
                &&& step.storage == storage
                &&& step.calls == seq![asked]
            }
        }),
{
    model::lemma_names();
}

/// When `receive_payment` succeeds: the caller is the admin, whatever the amount and the
/// flag. It asks for the caller's authorization and publishes one event, with the amount and
/// the flag that it was given. The storage stays as it is.
pub proof fn law_receive_payment_publishes_what_it_is_given(
    storage: Storage,
    caller: Key,
    amount: i128,
    from_vault: bool,
)
    ensures
        ({
            let step = model::receive_payment_step(storage, caller, amount, from_vault);
            let asked = HostCall::Authorize { who: caller };
            let event = HostCall::Publish {
                name: "receive_payment"@,
                subject: caller,
                data: EventData::Payment(amount, from_vault),
            };
            &&& step.outcome is Ok <==> keeps(storage, "admin"@, caller)
            &&& fails_with(step, PoolError::NotInitialized) <==> !keeps_any(storage, "admin"@)
            &&& fails_with(step, PoolError::Unauthorized) <==> keeps_any(storage, "admin"@)
                && !keeps(storage, "admin"@, caller)
            &&& step.storage == storage
            &&& step.outcome is Ok ==> step.calls == seq![asked, event]
            &&& step.outcome is Err ==> step.calls == seq![asked]
        }),
{
}

/// Two payments that are recorded and differ, in the amount or in whether they came from the
/// vault, are recorded differently.
pub proof fn law_receive_payment_tells_payments_apart(
    storage: Storage,
    caller: Key,
    amount: i128,
    from_vault: bool,
    other_amount: i128,
    other_from_vault: bool,
)
    requires
        keeps(storage, "admin"@, caller),
        amount != other_amount || from_vault != other_from_vault,
    ensures
        model::receive_payment_step(storage, caller, amount, from_vault).calls.last()
            != model::receive_payment_step(
            storage,
            caller,
            other_amount,
            other_from_vault,
        ).calls.last(),
{
    let one = model::receive_payment_step(storage, caller, amount, from_vault).calls.last();
    let other = model::receive_payment_step(
        storage,
        caller,
        other_amount,
        other_from_vault,
    ).calls.last();
    assert(one->data == EventData::Payment(amount, from_vault));
    assert(other->data == EventData::Payment(other_amount, other_from_vault));
}

/// What `balance` returns is the amount that the token contract answered when asked for the
/// pool's own balance, whatever that amount is; that question is the one call it makes.
/// Where the answer is no amount, the token has failed; where there is no token, or none
/// that can be called, nothing is asked.
pub proof fn law_balance_is_what_the_token_answers(
    storage: Storage,
    me: Key,
    holdings: BalanceReply,
)
    ensures
        ({
            let (outcome, calls) = model::balance_step(storage, me, holdings);
            let usdc = storage["usdc"@]->0;
            let callable = keeps_any(storage, "usdc"@) && names_contract(usdc);
            &&& callable ==> calls == seq![
                HostCall::Balance { token: usdc, holder: me, reply: holdings },
            ]
            &&& !callable ==> calls == Seq::<HostCall>::empty()
            &&& forall|balance: i128| #[trigger]
                is_answer(outcome, balance) <==> callable && holdings == BalanceReply::Amount(
                    balance,
                )
            &&& outcome == Err::<i128, PoolError>(PoolError::TokenFailed) <==> callable
                && !(holdings is Amount)
            &&& outcome == Err::<i128, PoolError>(PoolError::NotInitialized) <==> !keeps_any(
                storage,
                "usdc"@,
            )
            &&& outcome == Err::<i128, PoolError>(PoolError::TokenNotContract) <==> keeps_any(
                storage,
                "usdc"@,
            ) && !names_contract(usdc)
        }),
{
}

/// Whether a call that gives an amount gave this one.
pub open spec fn is_answer(outcome: Result<i128, PoolError>, amount: i128) -> bool {
    outcome == Ok::<i128, PoolError>(amount)
}

/// When `distribute` succeeds: the admin asks for it, for a positive amount, to someone other
/// than the pool; there is a token and it is a contract; the token contract answers when
/// asked for the recipient's balance, reports at least the amount when asked for the pool's,
/// and carries out the transfer. Nothing else stands in the way, whoever the admin and the
/// recipient are.
pub proof fn law_distribute_succeeds_exactly_when(
    storage: Storage,
    me: Key,
    caller: Key,
    to: Key,
    amount: i128,
    replies: Replies,
)
    ensures
        model::distribute_step(storage, me, caller, to, amount, replies).outcome is Ok <==> {
            &&& keeps(storage, "admin"@, caller)
            &&& amount > 0
            &&& to != me
            &&& keeps_any(storage, "usdc"@)
            &&& names_contract(storage["usdc"@]->0)
            &&& !(replies.recipient is Failed)
            &&& replies.holdings is Amount
            &&& amount <= replies.holdings->Amount_0
            &&& replies.sent
        },
{
}

/// What `distribute` asks, in this order, as far as it gets: the caller's authorization, the
/// recipient's balance in the pool's token, the pool's own balance in it, the transfer of
/// the amount from the pool to the recipient; then it publishes the event. It gets to the
/// end exactly when it succeeds, and the storage stays as it is.
pub proof fn law_distribute_asks_in_order(
    storage: Storage,
    me: Key,
    caller: Key,
    to: Key,
    amount: i128,
    replies: Replies,
)
    ensures
        ({
            let step = model::distribute_step(storage, me, caller, to, amount, replies);
            let calls = step.calls;
            let usdc = storage["usdc"@]->0;
            &&& 1 <= calls.len() <= 5
            &&& step.outcome is Ok <==> calls.len() == 5
            &&& calls[0] == (HostCall::Authorize { who: caller })
            &&& calls.len() > 1 ==> calls[1] == (HostCall::Balance {
                token: usdc,
                holder: to,
                reply: replies.recipient,
            })
            &&& calls.len() > 2 ==> calls[2] == (HostCall::Balance {
                token: usdc,
                holder: me,
                reply: replies.holdings,
            })
            &&& calls.len() > 3 ==> calls[3] == (HostCall::Transfer {
                token: usdc,
                from: me,
                to,
                amount,
                done: replies.sent,
            })
            &&& calls.len() > 4 ==> calls[4] == (HostCall::Publish {
                name: "distribute"@,
                subject: to,
                data: EventData::Amount(amount),
            })
            &&& step.storage == storage
        }),
{
}

/// When `distribute` is refused before the token contract is asked anything, and why.
pub proof fn law_distribute_is_refused_unasked(
    storage: Storage,
    me: Key,
    caller: Key,
    to: Key,
    amount: i128,
    replies: Replies,
)
    ensures
        ({
            let step = model::distribute_step(storage, me, caller, to, amount, replies);
            let asks = keeps(storage, "admin"@, caller);
            let has_token = keeps_any(storage, "usdc"@);
            let callable = names_contract(storage["usdc"@]->0);
            &&& fails_with(step, PoolError::Unauthorized) <==> keeps_any(storage, "admin"@) && !asks
            &&& fails_with(step, PoolError::AmountNotPositive) <==> asks && amount <= 0
            &&& fails_with(step, PoolError::NotInitialized) <==> !keeps_any(storage, "admin"@) || (
            asks && amount > 0 && !has_token)
            &&& fails_with(step, PoolError::RecipientIsContract) <==> asks && amount > 0 && has_token
                && to == me
            &&& fails_with(step, PoolError::TokenNotContract) <==> asks && amount > 0 && has_token
                && to != me && !callable
            &&& step.calls.len() == 1 <==> !(asks && amount > 0 && has_token && to != me && callable)
        }),
{
}

/// When `distribute` is refused over what the token contract answers: the answer that it was
/// refused over is the last one that it got. The balance that decides whether the funds
/// suffice is the pool's own, and it is the amount that they are held against.
pub proof fn law_distribute_is_refused_over_the_last_answer(
    storage: Storage,
    me: Key,
    caller: Key,
    to: Key,
    amount: i128,
    replies: Replies,
)
    requires
        model::distribute_step(storage, me, caller, to, amount, replies).calls.len() > 1,
    ensures
        ({
            let step = model::distribute_step(storage, me, caller, to, amount, replies);
            let last = step.calls.last();
            let usdc = storage["usdc"@]->0;
            &&& fails_with(step, PoolError::UnknownRecipient) <==> last == (HostCall::Balance {
                token: usdc,
                holder: to,
                reply: BalanceReply::Failed,
            })
            &&& fails_with(step, PoolError::InsufficientBalance) <==> {
                &&& last is Balance
                &&& last->Balance_holder == me
                &&& last->Balance_reply is Amount
                &&& last->Balance_reply->Amount_0 < amount
            }
            &&& fails_with(step, PoolError::TokenFailed) <==> {
                ||| last is Balance && last->Balance_holder == me && !(last->Balance_reply is Amount)
                ||| last is Transfer && !last->Transfer_done
            }
            &&& step.outcome is Err ==> {
                ||| fails_with(step, PoolError::UnknownRecipient)
                ||| fails_with(step, PoolError::InsufficientBalance)
                ||| fails_with(step, PoolError::TokenFailed)
            }
        }),
{
}

/// The total of a batch is the sum of its payments, and there is one exactly when every entry
/// is a payment of a positive amount and the sum fits.
pub proof fn law_batch_total_is_its_sum(payments: Payments, count: nat)
    requires
        count <= payments.len(),
    ensures
        model::batch_total(payments, count) is Ok <==> countable(payments, count),
        model::batch_total(payments, count) matches Ok(total) ==> total == sum_of(payments, count),
    decreases count,
{
    if count > 0 {
        let shorter = (count - 1) as nat;
        law_batch_total_is_its_sum(payments, shorter);
        if countable(payments, count) {
            assert(payments[count - 1] is Some);
            assert(countable(payments, shorter));
        }
        if model::batch_total(payments, count) is Ok {
            assert(countable(payments, shorter));
            assert(payments[count - 1] is Some && amount_of(payments, count - 1) > 0);
            assert(countable(payments, count));
        }
    }
}

/// Where a batch has no total, the reason is what is wrong with the first entry up to which
/// it cannot be counted.
pub proof fn law_batch_total_fails_at_the_first_bad_entry(payments: Payments, bad: nat)
    requires
        bad < payments.len(),
        countable(payments, bad),
        !countable(payments, bad + 1),
    ensures
        model::batch_total(payments, payments.len()) == Err::<i128, PoolError>(
            if payments[bad as int] is None {
                PoolError::MalformedPayment
            } else if amount_of(payments, bad as int) <= 0 {
                PoolError::AmountNotPositive
            } else {
                PoolError::TotalOverflow
            },
        ),
{
    law_batch_total_is_its_sum(payments, bad);
    law_batch_total_is_its_sum(payments, bad + 1);
    model::lemma_total_stops(payments, bad + 1, payments.len());
}

/// When `batch_distribute` is refused before the token contract is asked anything, and why.
/// All that has been asked for then is the caller's authorization.
pub proof fn law_batch_is_refused_unasked(
    storage: Storage,
    me: Key,
    caller: Key,
    payments: Payments,
    holdings: BalanceReply,
    willing: nat,
)
    ensures
        ({
            let step = model::batch_distribute_step(
                storage,
                me,
                caller,
                payments,
                holdings,
                willing,
            );
            let asks = keeps(storage, "admin"@, caller);
            let counts = countable(payments, payments.len());
            let has_token = keeps_any(storage, "usdc"@);
            let callable = names_contract(storage["usdc"@]->0);
            &&& fails_with(step, PoolError::Unauthorized) <==> keeps_any(storage, "admin"@) && !asks
            &&& fails_with(step, PoolError::NotInitialized) <==> !keeps_any(storage, "admin"@) || (
            asks && counts && !has_token)
            &&& fails_with(step, PoolError::TokenNotContract) <==> asks && counts && has_token
                && !callable
            &&& asks && !counts ==> step.outcome == Err::<(), PoolError>(
                model::batch_total(payments, payments.len())->Err_0,
            )
            &&& fails_with(step, PoolError::MalformedPayment) || fails_with(
                step,
                PoolError::AmountNotPositive,
            ) || fails_with(step, PoolError::TotalOverflow) <==> asks && !counts
            &&& step.calls.len() == 1 <==> !(asks && counts && has_token && callable)
            &&& step.calls[0] == (HostCall::Authorize { who: caller })
            &&& step.storage == storage
        }),
{
    law_batch_total_is_its_sum(payments, payments.len());
    if !countable(payments, payments.len()) {
        let bad = lemma_first_bad(payments, payments.len());
        law_batch_total_fails_at_the_first_bad_entry(payments, bad);
    }
}

/// What `batch_distribute` asks once it turns to the token contract, as far as it gets: the
/// pool's own balance in the pool's token; then, for each payment in order, the transfer of
/// its amount from the pool to its recipient, followed by the payment's event. It skips
/// none and makes no other call, and never pays the pool itself. A transfer that was carried
/// out is followed by its event; one that was not is the end.
pub proof fn law_batch_asks_in_order(
    storage: Storage,
    me: Key,
    caller: Key,
    payments: Payments,
    holdings: BalanceReply,
    willing: nat,
    index: int,
)
    requires
        model::batch_distribute_step(
            storage,
            me,
            caller,
            payments,
            holdings,
            willing,
        ).calls.len() > 1,
        0 <= index,
    ensures
        ({
            let calls = model::batch_distribute_step(
                storage,
                me,
                caller,
                payments,
                holdings,
                willing,
            ).calls;
            let usdc = storage["usdc"@]->0;
            &&& calls.len() <= 2 + 2 * payments.len()
            &&& calls[1] == (HostCall::Balance { token: usdc, holder: me, reply: holdings })
            &&& 2 + 2 * index < calls.len() ==> to_of(payments, index) != me
            &&& 2 + 2 * index < calls.len() ==> calls[2 + 2 * index] == (HostCall::Transfer {
                token: usdc,
                from: me,
                to: to_of(payments, index),
                amount: amount_of(payments, index),
                done: 3 + 2 * index < calls.len(),
            })
            &&& 3 + 2 * index < calls.len() ==> calls[3 + 2 * index] == (HostCall::Publish {
                name: "batch_distribute"@,
                subject: to_of(payments, index),
                data: EventData::Amount(amount_of(payments, index)),
            })
        }),
{
    let usdc = storage["usdc"@]->0;
    law_batch_total_is_its_sum(payments, payments.len());
    lemma_payout(payments, me, usdc, willing, index);
}

/// How `batch_distribute` ends once it has turned to the token contract is told by the last
/// call it made. It succeeds exactly when the funds suffice and every payment has been made;
/// it is refused over the funds, over a transfer that the token contract did not carry out,
/// or over a payment to the pool itself, and for nothing else.
pub proof fn law_batch_ends_with_the_last_answer(
    storage: Storage,
    me: Key,
    caller: Key,
    payments: Payments,
    holdings: BalanceReply,
    willing: nat,
)
    requires
        model::batch_distribute_step(
            storage,
            me,
            caller,
            payments,
            holdings,
            willing,
        ).calls.len() > 1,
    ensures
        ({
            let step = model::batch_distribute_step(
                storage,
                me,
                caller,
                payments,
                holdings,
                willing,
            );
            let last = step.calls.last();
            let total = sum_of(payments, payments.len());
            let funded = holdings is Amount && total <= holdings->Amount_0;
            let made = (step.calls.len() - 2) / 2;
            &&& step.outcome is Ok <==> funded && step.calls.len() == 2 + 2 * payments.len()
            &&& fails_with(step, PoolError::InsufficientBalance) <==> holdings is Amount
                && holdings->Amount_0 < total
            &&& fails_with(step, PoolError::TokenFailed) <==> {
                ||| !(holdings is Amount)
                ||| last is Transfer && !last->Transfer_done
            }
            &&& fails_with(step, PoolError::RecipientIsContract) <==> {
                &&& funded
                &&& made < payments.len()
                &&& to_of(payments, made) == me
            }
            &&& step.outcome is Err ==> {
                ||| fails_with(step, PoolError::InsufficientBalance)
                ||| fails_with(step, PoolError::TokenFailed)
                ||| fails_with(step, PoolError::RecipientIsContract)
            }
            &&& !funded ==> step.calls.len() == 2
            &&& step.calls.len() > 2 ==> last is Transfer || last is Publish
            &&& last is Transfer ==> !last->Transfer_done
        }),
{
    let usdc = storage["usdc"@]->0;
    law_batch_total_is_its_sum(payments, payments.len());
    let count = model::payable(payments, me, willing);
    lemma_payout(payments, me, usdc, willing, count as int);
    if count > 0 {
        lemma_payout(payments, me, usdc, willing, count - 1);
    }
}

/// A batch that can be paid is paid: where the admin asks for it, every entry is a payment of
/// a positive amount to someone other than the pool, the sum fits and the token contract
/// reports at least as much for the pool, it succeeds unless the token contract did not carry
/// out a transfer that it was asked for.
pub proof fn law_batch_succeeds_unless_the_token_refuses(
    storage: Storage,
    me: Key,
    caller: Key,
    payments: Payments,
    holdings: BalanceReply,
    willing: nat,
)
    requires
        keeps(storage, "admin"@, caller),
        keeps_any(storage, "usdc"@),
        names_contract(storage["usdc"@]->0),
        countable(payments, payments.len()),
        forall|i: int| 0 <= i < payments.len() ==> #[trigger] to_of(payments, i) != me,
        holdings is Amount,
        sum_of(payments, payments.len()) <= holdings->Amount_0,
    ensures
        ({
            let step = model::batch_distribute_step(
                storage,
                me,
                caller,
                payments,
                holdings,
                willing,
            );
            step.outcome is Ok <==> forall|i: int|
                0 <= i < step.calls.len() && (#[trigger] step.calls[i]) is Transfer
                    ==> step.calls[i]->Transfer_done
        }),
{
    let step = model::batch_distribute_step(storage, me, caller, payments, holdings, willing);
    law_batch_is_refused_unasked(storage, me, caller, payments, holdings, willing);
    law_batch_ends_with_the_last_answer(storage, me, caller, payments, holdings, willing);
    if step.outcome is Ok {
        assert forall|i: int|
            0 <= i < step.calls.len() && (#[trigger] step.calls[i]) is Transfer implies
            step.calls[i]->Transfer_done by {
            if i >= 2 {
                law_batch_asks_in_order(
                    storage,
                    me,
                    caller,
                    payments,
                    holdings,
                    willing,
                    (i - 2) / 2,
                );
                if i % 2 == 0 {
                    assert(i == 2 + 2 * ((i - 2) / 2));
                } else {
                    assert(i == 3 + 2 * ((i - 2) / 2));
                }
            } else if i == 1 {
                law_batch_asks_in_order(storage, me, caller, payments, holdings, willing, 0);
            }
        }
    } else {
        assert(step.calls[step.calls.len() - 1] == step.calls.last());
    }
}

/// What a refused call is told: each reason has its own message, and no two reasons have the
/// same.
pub proof fn law_refusals_say_why(error: PoolError, other: PoolError)
    ensures
        error is AlreadyInitialized ==> error.text() == "revenue pool already initialized"@,
        error is NotInitialized ==> error.text() == "revenue pool not initialized"@,
        error is TokenIsContract ==> error.text() == "invalid config: usdc_token cannot be the contract itself"@,
        error is TokenIsAdmin ==> error.text() == "invalid config: usdc_token cannot be the admin address"@,
        error is Unauthorized ==> error.text() == "unauthorized: caller is not admin"@,
        error is NoPendingAdmin ==> error.text() == "no pending admin"@,
        error is NotPendingAdmin ==> error.text() == "unauthorized: caller is not pending admin"@,
        error is AmountNotPositive ==> error.text() == "amount must be positive"@,
        error is TotalOverflow ==> error.text() == "total overflow"@,
        error is MalformedPayment ==> error.text() == "malformed payment"@,
        error is RecipientIsContract ==> error.text() == "invalid recipient: cannot distribute to the contract itself"@,
        error is UnknownRecipient ==> error.text() == "invalid recipient: account does not exist or has no USDC trustline"@,
        error is InsufficientBalance ==> error.text() == "insufficient USDC balance"@,
        error is TokenNotContract ==> error.text() == "usdc_token is not a contract"@,
        error is TokenFailed ==> error.text() == "USDC token call failed"@,
        error.text() == other.text() ==> error == other,
{
    reveal_strlit("revenue pool already initialized");
    reveal_strlit("revenue pool not initialized");
    reveal_strlit("invalid config: usdc_token cannot be the contract itself");
    reveal_strlit("invalid config: usdc_token cannot be the admin address");
    reveal_strlit("unauthorized: caller is not admin");
    reveal_strlit("no pending admin");
    reveal_strlit("unauthorized: caller is not pending admin");
    reveal_strlit("amount must be positive");
    reveal_strlit("total overflow");
    reveal_strlit("malformed payment");
    reveal_strlit("invalid recipient: cannot distribute to the contract itself");
    reveal_strlit("invalid recipient: account does not exist or has no USDC trustline");
    reveal_strlit("insufficient USDC balance");
    reveal_strlit("usdc_token is not a contract");
    reveal_strlit("USDC token call failed");
    assert(PoolError::NotInitialized.text()[0] != PoolError::TokenNotContract.text()[0]);
    assert(error != other ==> error.text().len() != other.text().len() || error.text()[0]
        != other.text()[0]);
}

/// The first entry up to which a batch cannot be counted.
proof fn lemma_first_bad(payments: Payments, count: nat) -> (bad: nat)
    requires
        !countable(payments, count),
        count <= payments.len(),
    ensures
        bad < count,
        countable(payments, bad),
        !countable(payments, bad + 1),
    decreases count,
{
    if count > 0 && !countable(payments, (count - 1) as nat) {
        lemma_first_bad(payments, (count - 1) as nat)
    } else {
        (count - 1) as nat
    }
}

/// What paying out a batch comes to, around one of its entries.
proof fn lemma_payout(payments: Payments, me: Key, usdc: Key, willing: nat, index: int)
    requires
        countable(payments, payments.len()),
        0 <= index,
    ensures
        ({
            let (outcome, calls) = model::payout(payments, me, usdc, willing);
            let count = model::payable(payments, me, willing);
            let transfer = |done: bool|
                HostCall::Transfer {
                    token: usdc,
                    from: me,
                    to: to_of(payments, index),
                    amount: amount_of(payments, index),
                    done,
                };
            &&& count <= payments.len()
            &&& count == payments.len() ==> outcome is Ok && calls.len() == 2 * count
            &&& index < count ==> {
                &&& to_of(payments, index) != me
                &&& calls[2 * index] == transfer(true)
                &&& calls[2 * index + 1] == (HostCall::Publish {
                    name: "batch_distribute"@,
                    subject: to_of(payments, index),
                    data: EventData::Amount(amount_of(payments, index)),
                })
            }
            &&& count < payments.len() && index == count ==> if to_of(payments, index) == me {
                &&& outcome == Err::<(), PoolError>(PoolError::RecipientIsContract)
                &&& calls.len() == 2 * count
            } else {
                &&& outcome == Err::<(), PoolError>(PoolError::TokenFailed)
                &&& calls.len() == 2 * count + 1
                &&& calls[2 * index] == transfer(false)
            }
            &&& 2 * count <= calls.len() <= 2 * count + 1
            &&& calls.len() == 2 * count + 1 ==> count < payments.len()
        }),
{
    let count = model::payable(payments, me, willing);
    laws::lemma_payable(payments, me, willing);
    laws::lemma_paid_len(payments, me, usdc, count);
    if index < count {
        laws::lemma_paid_entry(payments, me, usdc, count, index);
    }
    if index < payments.len() {
        assert(payments[index] is Some);
        assert(model::payee(payments, index) == to_of(payments, index));
    }
}

} // verus!
