//! The pool's rules, one by one: each decides over values at hand, be they addresses,
//! amounts or answers of the token contract.
use soroban_sdk::{Address, Vec};
use vstd::prelude::*;

use crate::errors::PoolError;
use crate::host;
use crate::host::BalanceReply;
#[allow(unused_imports)]
use crate::model;
#[allow(unused_imports)]
use crate::promises;

verus! {

/// Tells whether the pool at `me` may be set up with this admin and this token.
/// `initialized` says whether it has been set up before.
pub fn check_config(me: &Address, admin: &Address, token: &Address, initialized: bool) -> (verdict:
    Result<(), PoolError>)
    ensures
        verdict == model::config_check(
            host::strkey(*me),
            host::strkey(*admin),
            host::strkey(*token),
            initialized,
        ),
        verdict is Ok <==> host::strkey(*token) != host::strkey(*me) && host::strkey(*token)
            != host::strkey(*admin) && !initialized,
        verdict == Err::<(), PoolError>(PoolError::TokenIsContract) <==> host::strkey(*token)
            == host::strkey(*me),
        verdict == Err::<(), PoolError>(PoolError::TokenIsAdmin) <==> host::strkey(*token)
            != host::strkey(*me) && host::strkey(*token) == host::strkey(*admin),
        verdict == Err::<(), PoolError>(PoolError::AlreadyInitialized) <==> host::strkey(*token)
            != host::strkey(*me) && host::strkey(*token) != host::strkey(*admin) && initialized,
{
    if host::same_address(token, me) {
        return Err(PoolError::TokenIsContract);
    }
    if host::same_address(token, admin) {
        return Err(PoolError::TokenIsAdmin);
    }
    if initialized {
        return Err(PoolError::AlreadyInitialized);
    }
    Ok(())
}

/// Tells whether `caller` is the admin.
pub fn check_admin(admin: &Option<Address>, caller: &Address) -> (verdict: Result<(), PoolError>)
    ensures
        verdict == model::admin_check(host::key_of(*admin), host::strkey(*caller)),
        verdict is Ok <==> admin is Some && host::strkey(admin->0) == host::strkey(*caller),
        verdict == Err::<(), PoolError>(PoolError::NotInitialized) <==> admin is None,
        verdict == Err::<(), PoolError>(PoolError::Unauthorized) <==> admin is Some
            && host::strkey(admin->0) != host::strkey(*caller),
{
    match admin {
        None => Err(PoolError::NotInitialized),
        Some(admin) => if host::same_address(caller, admin) {
            Ok(())
        } else {
            Err(PoolError::Unauthorized)
        },
    }
}

/// Tells whether `caller` is the address that the admin role has been offered to.
pub fn check_pending(pending: &Option<Address>, caller: &Address) -> (verdict: Result<
    (),
    PoolError,
>)
    ensures
        verdict == model::pending_check(host::key_of(*pending), host::strkey(*caller)),
        verdict is Ok <==> pending is Some && host::strkey(pending->0) == host::strkey(*caller),
        verdict == Err::<(), PoolError>(PoolError::NoPendingAdmin) <==> pending is None,
        verdict == Err::<(), PoolError>(PoolError::NotPendingAdmin) <==> pending is Some
            && host::strkey(pending->0) != host::strkey(*caller),
{
    match pending {
        None => Err(PoolError::NoPendingAdmin),
        Some(pending) => if host::same_address(caller, pending) {
            Ok(())
        } else {
            Err(PoolError::NotPendingAdmin)
        },
    }
}

/// Tells whether a token can be called: only contracts can.
pub fn check_token(token: &Address) -> (verdict: Result<(), PoolError>)
    ensures
        verdict == model::token_check(host::strkey(*token)),
        verdict is Ok <==> promises::names_contract(host::strkey(*token)),
        verdict is Err ==> verdict == Err::<(), PoolError>(PoolError::TokenNotContract),
{
    let text = host::address_text(token);
    if text[0] == host::CONTRACT_PREFIX {
        Ok(())
    } else {
        Err(PoolError::TokenNotContract)
    }
}

/// Tells whether an amount may be paid out.
pub fn check_amount(amount: i128) -> (verdict: Result<(), PoolError>)
    ensures
        verdict == model::amount_check(amount),
        verdict is Ok <==> amount > 0,
        verdict is Err ==> verdict == Err::<(), PoolError>(PoolError::AmountNotPositive),
{
    if amount <= 0 {
        Err(PoolError::AmountNotPositive)
    } else {
        Ok(())
    }
}

/// Tells whether the token contract knows the recipient of a payment, by what it
/// answered when asked for the recipient's balance.
pub fn check_known(reply: BalanceReply) -> (verdict: Result<(), PoolError>)
    ensures
        verdict == model::known_check(reply),
        verdict is Err <==> reply is Failed,
        verdict is Err ==> verdict == Err::<(), PoolError>(PoolError::UnknownRecipient),
{
    match reply {
        BalanceReply::Failed => Err(PoolError::UnknownRecipient),
        _ => Ok(()),
    }
}

/// The balance that the token contract answered with.
pub fn read_balance(reply: BalanceReply) -> (balance: Result<i128, PoolError>)
    ensures
        balance == model::reported(reply),
        forall|amount: i128| #[trigger]
            promises::is_answer(balance, amount) <==> reply == BalanceReply::Amount(amount),
        balance is Err ==> balance == Err::<i128, PoolError>(PoolError::TokenFailed),
{
    match reply {
        BalanceReply::Amount(balance) => Ok(balance),
        _ => Err(PoolError::TokenFailed),
    }
}

/// Tells whether the pool holds `needed`, by what the token contract answered when
/// asked for the pool's balance.
pub fn check_funds(reply: BalanceReply, needed: i128) -> (verdict: Result<(), PoolError>)
    ensures
        verdict == model::funds_check(reply, needed),
        verdict is Ok <==> reply is Amount && needed <= reply->Amount_0,
        verdict == Err::<(), PoolError>(PoolError::InsufficientBalance) <==> reply is Amount
            && reply->Amount_0 < needed,
        verdict == Err::<(), PoolError>(PoolError::TokenFailed) <==> !(reply is Amount),
{
    match read_balance(reply) {
        Err(error) => Err(error),
        Ok(balance) => if balance < needed {
            Err(PoolError::InsufficientBalance)
        } else {
            Ok(())
        },
    }
}

/// Adds one more payment to a running total.
pub fn add_amount(total: i128, amount: i128) -> (sum: Result<i128, PoolError>)
    ensures
        sum == model::add_amount(total, amount),
        forall|value: i128| #[trigger]
            promises::is_answer(sum, value) <==> amount > 0 && value == total + amount,
        sum == Err::<i128, PoolError>(PoolError::AmountNotPositive) <==> amount <= 0,
        sum == Err::<i128, PoolError>(PoolError::TotalOverflow) <==> amount > 0 && total + amount
            > i128::MAX,
{
    if amount <= 0 {
        return Err(PoolError::AmountNotPositive);
    }
    match total.checked_add(amount) {
        Some(sum) => Ok(sum),
        None => Err(PoolError::TotalOverflow),
    }
}

/// The total of a batch, or what is wrong with the first entry that cannot be counted.
pub fn total_of(payments: &Vec<(Address, i128)>) -> (total: Result<i128, PoolError>)
    ensures
        total == model::batch_total(
            host::payment_list(*payments),
            host::payment_list(*payments).len(),
        ),
        total is Ok <==> promises::countable(
            host::payment_list(*payments),
            host::payment_list(*payments).len(),
        ),
        total matches Ok(total) ==> total == promises::sum_of(
            host::payment_list(*payments),
            host::payment_list(*payments).len(),
        ),
{
    let count = host::payments_len(payments);
    let ghost list = host::payment_list(*payments);
    let mut total: i128 = 0;
    let mut index: u32 = 0;
    while index < count
        invariant
            index <= count,
            count == list.len(),
            list == host::payment_list(*payments),
            model::batch_total(list, index as nat) == Ok::<i128, PoolError>(total),
        decreases count - index,
    {
        match host::payment_at(payments, index) {
            None => {
                proof {
                    model::lemma_total_stops(list, (index + 1) as nat, count as nat);
                }
                return Err(PoolError::MalformedPayment);
            },
            Some((_, amount)) => match add_amount(total, amount) {
                Err(error) => {
                    proof {
                        model::lemma_total_stops(list, (index + 1) as nat, count as nat);
                        promises::law_batch_total_is_its_sum(list, list.len());
                    }
                    return Err(error);
                },
                Ok(sum) => {
                    total = sum;
                },
            },
        }
        index = index + 1;
    }
    proof {
        promises::law_batch_total_is_its_sum(list, list.len());
    }
    Ok(total)
}

} // verus!
