//! The revenue settlement contract.
use soroban_sdk::{Address, Env, Vec};
use vstd::prelude::*;

use crate::errors::PoolError;
use crate::host;
#[allow(unused_imports)]
use crate::host::BalanceReply;
#[allow(unused_imports)]
use crate::host::{EventData, HostCall};
use crate::model;
#[allow(unused_imports)]
use crate::promises;
use crate::rules;

verus! {

/// Revenue settlement contract: receives USDC from vault deducts and distributes it to
/// developers.
///
/// Flow: vault deduct, then the vault transfers USDC to this contract, then the admin
/// calls `distribute`.
///
/// Each function runs inside an invocation of the contract. Where it returns an error,
/// the invocation has to be aborted, so that the host undoes what was done so far.
pub struct RevenuePool;

/// `after` is what `step` makes of `before`.
pub open spec fn follows(
    before: Env,
    after: Env,
    outcome: Result<(), PoolError>,
    step: model::Step,
) -> bool {
    &&& outcome == step.outcome
    &&& host::instance(after) =~= step.storage
    &&& host::journal(after) =~= host::journal(before) + step.calls
    &&& host::call_stack(after) == host::call_stack(before)
}

/// The calls that the running contract made between two points of an invocation.
pub open spec fn calls_between(before: Env, after: Env) -> Seq<HostCall> {
    host::journal(after).skip(host::journal(before).len() as int)
}

/// The running contract was called by an invocation that `who` authorized.
pub open spec fn authorized_by(env: Env, who: Address) -> bool {
    &&& host::is_running(env)
    &&& host::authorizations(env).contains(host::strkey(who))
}

impl RevenuePool {
    /// Initializes the revenue pool with an admin and the USDC token address.
    ///
    /// `admin` may call `distribute`; typically a backend or a multisig. `usdc_token`
    /// is the address of the Stellar USDC (or wrapped USDC) token contract. Neither the
    /// pool itself nor the admin can be the token, and a pool is initialized only once.
    ///
    /// Publishes an `init` event with `admin` as a topic and `usdc_token` as data.
    pub fn init(env: &mut Env, admin: Address, usdc_token: Address) -> (outcome: Result<
        (),
        PoolError,
    >)
        requires
            authorized_by(*old(env), admin),
        ensures
            follows(
                *old(env),
                *final(env),
                outcome,
                model::init_step(
                    host::instance(*old(env)),
                    host::running(*old(env)),
                    host::strkey(admin),
                    host::strkey(usdc_token),
                ),
            ),
            outcome is Ok <==> host::strkey(usdc_token) != host::running(*old(env))
                && host::strkey(usdc_token) != host::strkey(admin) && !host::instance(
                *old(env),
            ).contains_key("admin"@),
            outcome is Ok ==> {
                &&& host::instance(*final(env)) =~= host::instance(*old(env)).insert(
                    "admin"@,
                    Some(host::strkey(admin)),
                ).insert("usdc"@, Some(host::strkey(usdc_token)))
                &&& host::journal(*final(env)) =~= host::journal(*old(env)).push(
                    HostCall::Authorize { who: host::strkey(admin) },
                ).push(
                    HostCall::Publish {
                        name: "init"@,
                        subject: host::strkey(admin),
                        data: EventData::Address(host::strkey(usdc_token)),
                    },
                )
            },
            outcome is Err ==> {
                &&& host::instance(*final(env)) =~= host::instance(*old(env))
                &&& host::journal(*final(env)) =~= host::journal(*old(env)).push(
                    HostCall::Authorize { who: host::strkey(admin) },
                )
            },
    {
        proof {
            model::lemma_names();
        }
        host::require_auth(env, &admin);
        let me = host::current_contract(env);
        let initialized = host::storage_has(env, model::ADMIN_KEY);
        if let Err(error) = rules::check_config(&me, &admin, &usdc_token, initialized) {
            return Err(error);
        }
        host::storage_set(env, model::ADMIN_KEY, &admin);
        host::storage_set(env, model::USDC_KEY, &usdc_token);
        host::publish_address(env, model::INIT_EVENT, &admin, &usdc_token);
        Ok(())
    }

    /// Returns the current admin address.
    pub fn get_admin(env: &Env) -> (admin: Result<Address, PoolError>)
        requires
            host::is_running(*env),
        ensures
            match admin {
                Ok(admin) => model::get_admin_outcome(host::instance(*env)) == Ok::<
                    model::Key,
                    PoolError,
                >(host::strkey(admin)),
                Err(error) => model::get_admin_outcome(host::instance(*env)) == Err::<
                    model::Key,
                    PoolError,
                >(error),
            },
            match admin {
                Ok(admin) => promises::keeps(
                    host::instance(*env),
                    "admin"@,
                    host::strkey(admin),
                ),
                Err(error) => error == PoolError::NotInitialized && !promises::keeps_any(
                    host::instance(*env),
                    "admin"@,
                ),
            },
    {
        proof {
            model::lemma_names();
        }
        match host::storage_get(env, model::ADMIN_KEY) {
            Some(admin) => Ok(admin),
            None => Err(PoolError::NotInitialized),
        }
    }

    /// Starts the replacement of the current admin. Only the admin may call this. The
    /// new admin must call `claim_admin` to complete the transfer; until then the admin
    /// stays the same.
    ///
    /// Publishes an `admin_transfer_started` event with the current admin as a topic and
    /// `new_admin` as data.
    pub fn set_admin(env: &mut Env, caller: Address, new_admin: Address) -> (outcome: Result<
        (),
        PoolError,
    >)
        requires
            authorized_by(*old(env), caller),
        ensures
            follows(
                *old(env),
                *final(env),
                outcome,
                model::set_admin_step(
                    host::instance(*old(env)),
                    host::strkey(caller),
                    host::strkey(new_admin),
                ),
            ),
            outcome is Ok <==> promises::keeps(
                host::instance(*old(env)),
                "admin"@,
                host::strkey(caller),
            ),
            outcome is Ok ==> {
                &&& host::instance(*final(env)) =~= host::instance(*old(env)).insert(
                    "pending_admin"@,
                    Some(host::strkey(new_admin)),
                )
                &&& host::journal(*final(env)) =~= host::journal(*old(env)).push(
                    HostCall::Authorize { who: host::strkey(caller) },
                ).push(
                    HostCall::Publish {
                        name: "admin_transfer_started"@,
                        subject: host::strkey(caller),
                        data: EventData::Address(host::strkey(new_admin)),
                    },
                )
            },
            outcome is Err ==> {
                &&& host::instance(*final(env)) =~= host::instance(*old(env))
                &&& host::journal(*final(env)) =~= host::journal(*old(env)).push(
                    HostCall::Authorize { who: host::strkey(caller) },
                )
            },
    {
        proof {
            model::lemma_names();
        }
        host::require_auth(env, &caller);
        let current = host::storage_get(env, model::ADMIN_KEY);
        if let Err(error) = rules::check_admin(&current, &caller) {
            return Err(error);
        }
        host::storage_set(env, model::PENDING_ADMIN_KEY, &new_admin);
        host::publish_address(env, model::TRANSFER_STARTED_EVENT, &caller, &new_admin);
        Ok(())
    }

    /// Completes the admin transfer. Only the address that `set_admin` named may call
    /// this.
    ///
    /// Publishes an `admin_transfer_completed` event with the new admin as a topic.
    pub fn claim_admin(env: &mut Env, caller: Address) -> (outcome: Result<(), PoolError>)
        requires
            authorized_by(*old(env), caller),
        ensures
            follows(
                *old(env),
                *final(env),
                outcome,
                model::claim_admin_step(host::instance(*old(env)), host::strkey(caller)),
            ),
            outcome is Ok <==> promises::keeps(
                host::instance(*old(env)),
                "pending_admin"@,
                host::strkey(caller),
            ),
            outcome is Ok ==> {
                &&& host::instance(*final(env)) =~= host::instance(*old(env)).insert(
                    "admin"@,
                    Some(host::strkey(caller)),
                ).remove("pending_admin"@)
                &&& host::journal(*final(env)) =~= host::journal(*old(env)).push(
                    HostCall::Authorize { who: host::strkey(caller) },
                ).push(
                    HostCall::Publish {
                        name: "admin_transfer_completed"@,
                        subject: host::strkey(caller),
                        data: EventData::Empty,
                    },
                )
            },
            outcome is Err ==> {
                &&& host::instance(*final(env)) =~= host::instance(*old(env))
                &&& host::journal(*final(env)) =~= host::journal(*old(env)).push(
                    HostCall::Authorize { who: host::strkey(caller) },
                )
            },
    {
        proof {
            model::lemma_names();
        }
        host::require_auth(env, &caller);
        let pending = host::storage_get(env, model::PENDING_ADMIN_KEY);
        if let Err(error) = rules::check_pending(&pending, &caller) {
            return Err(error);
        }
        host::storage_set(env, model::ADMIN_KEY, &caller);
        host::storage_remove(env, model::PENDING_ADMIN_KEY);
        host::publish_empty(env, model::TRANSFER_COMPLETED_EVENT, &caller);
        Ok(())
    }

    /// Records, as an event, that a payment was credited. It moves no tokens: the pool
    /// receives USDC whenever someone transfers it to the pool's address, and no call of
    /// this function is needed for that. It lets the backend tell indexers of a payment
    /// from the vault. Only the admin may call it.
    ///
    /// Publishes a `receive_payment` event with `caller` as a topic, and the pair of
    /// `amount` and `from_vault` as data.
    pub fn receive_payment(env: &mut Env, caller: Address, amount: i128, from_vault: bool) -> (outcome:
        Result<(), PoolError>)
        requires
            authorized_by(*old(env), caller),
        ensures
            follows(
                *old(env),
                *final(env),
                outcome,
                model::receive_payment_step(
                    host::instance(*old(env)),
                    host::strkey(caller),
                    amount,
                    from_vault,
                ),
            ),
            outcome is Ok <==> promises::keeps(
                host::instance(*old(env)),
                "admin"@,
                host::strkey(caller),
            ),
            outcome is Ok ==> host::journal(*final(env)) =~= host::journal(*old(env)).push(
                HostCall::Authorize { who: host::strkey(caller) },
            ).push(
                HostCall::Publish {
                    name: "receive_payment"@,
                    subject: host::strkey(caller),
                    data: EventData::Payment(amount, from_vault),
                },
            ),
            host::instance(*final(env)) =~= host::instance(*old(env)),
    {
        proof {
            model::lemma_names();
        }
        host::require_auth(env, &caller);
        let admin = host::storage_get(env, model::ADMIN_KEY);
        if let Err(error) = rules::check_admin(&admin, &caller) {
            return Err(error);
        }
        host::publish_payment(env, model::RECEIVE_PAYMENT_EVENT, &caller, amount, from_vault);
        Ok(())
    }

    /// Tells whether the pool may pay to `recipient`: to anyone but the contract itself,
    /// as sending to itself is almost certainly a mistake.
    pub fn validate_recipient(recipient: &Address, contract_self: &Address) -> (verdict: Result<
        (),
        PoolError,
    >)
        ensures
            verdict == model::recipient_check(
                host::strkey(*recipient),
                host::strkey(*contract_self),
            ),
            verdict is Ok <==> host::strkey(*recipient) != host::strkey(*contract_self),
            verdict is Err ==> verdict == Err::<(), PoolError>(PoolError::RecipientIsContract),
    {
        if host::same_address(recipient, contract_self) {
            return Err(PoolError::RecipientIsContract);
        }
        Ok(())
    }

    /// Distributes USDC from this contract to a developer wallet.
    ///
    /// Only the admin may call. `amount` is in token base units and has to be positive.
    /// The recipient has to be known to the token contract, and the pool has to hold the
    /// amount.
    ///
    /// Publishes a `distribute` event with `to` as a topic and `amount` as data.
    pub fn distribute(env: &mut Env, caller: Address, to: Address, amount: i128) -> (outcome: Result<
        (),
        PoolError,
    >)
        requires
            authorized_by(*old(env), caller),
        ensures
            exists|replies: model::Replies|
                follows(
                    *old(env),
                    *final(env),
                    outcome,
                    #[trigger] model::distribute_step(
                        host::instance(*old(env)),
                        host::running(*old(env)),
                        host::strkey(caller),
                        host::strkey(to),
                        amount,
                        replies,
                    ),
                ),
            host::instance(*final(env)) =~= host::instance(*old(env)),
            ({
                let calls = calls_between(*old(env), *final(env));
                let usdc = host::instance(*old(env))["usdc"@]->0;
                let me = host::running(*old(env));
                let sent = calls[3];
                &&& outcome is Ok <==> calls.len() == 5
                &&& calls.len() > 2 ==> {
                    &&& calls[2] is Balance
                    &&& calls[2]->Balance_token == usdc
                    &&& calls[2]->Balance_holder == me
                }
                &&& calls.len() > 3 ==> {
                    &&& calls[2]->Balance_reply is Amount
                    &&& amount <= calls[2]->Balance_reply->Amount_0
                    &&& sent is Transfer
                    &&& sent->Transfer_token == usdc
                    &&& sent->Transfer_from == me
                    &&& sent->Transfer_to == host::strkey(to)
                    &&& sent->Transfer_amount == amount
                    &&& sent->Transfer_done == (outcome is Ok)
                }
                &&& outcome is Ok ==> calls[4] == (HostCall::Publish {
                    name: "distribute"@,
                    subject: host::strkey(to),
                    data: EventData::Amount(amount),
                })
                &&& outcome == Err::<(), PoolError>(PoolError::InsufficientBalance) ==> {
                    &&& calls.len() == 3
                    &&& calls[2]->Balance_reply is Amount
                    &&& calls[2]->Balance_reply->Amount_0 < amount
                }
            }),
    {
        let ghost before = *env;
        let (outcome, Ghost(replies)) = Self::settle(env, caller, to, amount);
        proof {
            let storage = host::instance(before);
            let me = host::running(before);
            let (asker, payee) = (host::strkey(caller), host::strkey(to));
            let step = model::distribute_step(storage, me, asker, payee, amount, replies);
            promises::law_distribute_succeeds_exactly_when(
                storage,
                me,
                asker,
                payee,
                amount,
                replies,
            );
            promises::law_distribute_asks_in_order(storage, me, asker, payee, amount, replies);
            assert(calls_between(before, *env) =~= step.calls);
        }
        outcome
    }

    /// Does the work of `distribute`, and hands back what the token contract answered.
    fn settle(env: &mut Env, caller: Address, to: Address, amount: i128) -> (result: (
        Result<(), PoolError>,
        Ghost<model::Replies>,
    ))
        requires
            authorized_by(*old(env), caller),
        ensures
            follows(
                *old(env),
                *final(env),
                result.0,
                model::distribute_step(
                    host::instance(*old(env)),
                    host::running(*old(env)),
                    host::strkey(caller),
                    host::strkey(to),
                    amount,
                    result.1@,
                ),
            ),
    {
        proof {
            model::lemma_names();
        }
        let ghost unasked = model::Replies {
            recipient: BalanceReply::Failed,
            holdings: BalanceReply::Failed,
            sent: false,
        };
        host::require_auth(env, &caller);
        let admin = host::storage_get(env, model::ADMIN_KEY);
        if let Err(error) = rules::check_admin(&admin, &caller) {
            return (Err(error), Ghost(unasked));
        }
        if let Err(error) = rules::check_amount(amount) {
            return (Err(error), Ghost(unasked));
        }
        let usdc = match host::storage_get(env, model::USDC_KEY) {
            None => {
                return (Err(PoolError::NotInitialized), Ghost(unasked));
            },
            Some(usdc) => usdc,
        };
        let me = host::current_contract(env);
        if let Err(error) = Self::validate_recipient(&to, &me) {
            return (Err(error), Ghost(unasked));
        }
        if let Err(error) = rules::check_token(&usdc) {
            return (Err(error), Ghost(unasked));
        }
        let recipient = host::token_balance(env, &usdc, &to);
        if let Err(error) = rules::check_known(recipient) {
            return (Err(error), Ghost(model::Replies { recipient, ..unasked }));
        }
        let holdings = host::token_balance(env, &usdc, &me);
        if let Err(error) = rules::check_funds(holdings, amount) {
            return (Err(error), Ghost(model::Replies { recipient, holdings, ..unasked }));
        }
        let sent = host::token_transfer(env, &usdc, &me, &to, amount);
        if !sent {
            return (
                Err(PoolError::TokenFailed),
                Ghost(model::Replies { recipient, holdings, sent }),
            );
        }
        host::publish_amount(env, model::DISTRIBUTE_EVENT, &to, amount);
        (Ok(()), Ghost(model::Replies { recipient, holdings, sent }))
    }

    /// Distributes USDC from this contract to several developer wallets in one
    /// invocation.
    ///
    /// Only the admin may call. Every amount has to be positive, and the pool has to hold
    /// their total. The payments are made in order; when one of them cannot be made the
    /// call fails, and with the invocation the payments before it are undone.
    ///
    /// Publishes a `batch_distribute` event for each payment, with the recipient as a
    /// topic and the amount as data.
    pub fn batch_distribute(env: &mut Env, caller: Address, payments: Vec<(Address, i128)>) -> (outcome:
        Result<(), PoolError>)
        requires
            authorized_by(*old(env), caller),
        ensures
            exists|holdings: BalanceReply, willing: nat|
                follows(
                    *old(env),
                    *final(env),
                    outcome,
                    #[trigger] model::batch_distribute_step(
                        host::instance(*old(env)),
                        host::running(*old(env)),
                        host::strkey(caller),
                        host::payment_list(payments),
                        holdings,
                        willing,
                    ),
                ),
            host::instance(*final(env)) =~= host::instance(*old(env)),
            ({
                let calls = calls_between(*old(env), *final(env));
                let usdc = host::instance(*old(env))["usdc"@]->0;
                let me = host::running(*old(env));
                let list = host::payment_list(payments);
                &&& calls.len() > 1 ==> {
                    &&& calls[1] is Balance
                    &&& calls[1]->Balance_token == usdc
                    &&& calls[1]->Balance_holder == me
                }
                &&& outcome is Ok ==> {
                    &&& calls.len() == 2 + 2 * list.len()
                    &&& calls[1]->Balance_reply is Amount
                    &&& promises::sum_of(list, list.len()) <= calls[1]->Balance_reply->Amount_0
                }
                &&& forall|i: int|
                    0 <= i && 2 + 2 * i < calls.len() ==> calls[2 + 2 * i] == (
                    HostCall::Transfer {
                        token: usdc,
                        from: me,
                        to: #[trigger] promises::to_of(list, i),
                        amount: promises::amount_of(list, i),
                        done: 3 + 2 * i < calls.len(),
                    })
                &&& forall|i: int|
                    0 <= i && 3 + 2 * i < calls.len() ==> calls[3 + 2 * i] == (
                    HostCall::Publish {
                        name: "batch_distribute"@,
                        subject: #[trigger] promises::to_of(list, i),
                        data: EventData::Amount(promises::amount_of(list, i)),
                    })
                &&& outcome == Err::<(), PoolError>(PoolError::TokenFailed) ==> {
                    ||| calls.len() == 2 && !(calls[1]->Balance_reply is Amount)
                    ||| calls.last() is Transfer && !calls.last()->Transfer_done
                }
            }),
    {
        let ghost before = *env;
        let ghost list = host::payment_list(payments);
        let (outcome, Ghost(holdings), Ghost(willing)) = Self::settle_batch(env, caller, payments);
        proof {
            let storage = host::instance(before);
            let me = host::running(before);
            let asker = host::strkey(caller);
            let step = model::batch_distribute_step(storage, me, asker, list, holdings, willing);
            let calls = calls_between(before, *env);
            assert(calls =~= step.calls);
            promises::law_batch_is_refused_unasked(storage, me, asker, list, holdings, willing);
            if calls.len() > 1 {
                promises::law_batch_ends_with_the_last_answer(
                    storage,
                    me,
                    asker,
                    list,
                    holdings,
                    willing,
                );
                assert forall|i: int| 0 <= i implies {
                    let to = #[trigger] promises::to_of(list, i);
                    let amount = promises::amount_of(list, i);
                    let usdc = storage["usdc"@]->0;
                    &&& calls[1] == (HostCall::Balance { token: usdc, holder: me, reply: holdings })
                    &&& 2 + 2 * i < calls.len() ==> calls[2 + 2 * i] == (HostCall::Transfer {
                        token: usdc,
                        from: me,
                        to,
                        amount,
                        done: 3 + 2 * i < calls.len(),
                    })
                    &&& 3 + 2 * i < calls.len() ==> calls[3 + 2 * i] == (HostCall::Publish {
                        name: "batch_distribute"@,
                        subject: to,
                        data: EventData::Amount(amount),
                    })
                } by {
                    promises::law_batch_asks_in_order(
                        storage,
                        me,
                        asker,
                        list,
                        holdings,
                        willing,
                        i,
                    );
                }
                promises::law_batch_asks_in_order(storage, me, asker, list, holdings, willing, 0);
            }
        }
        outcome
    }

    /// Does the work of `batch_distribute`, and hands back what the token contract
    /// answered when asked for the pool's balance, and how many transfers it carried out.
    fn settle_batch(env: &mut Env, caller: Address, payments: Vec<(Address, i128)>) -> (result: (
        Result<(), PoolError>,
        Ghost<BalanceReply>,
        Ghost<nat>,
    ))
        requires
            authorized_by(*old(env), caller),
        ensures
            follows(
                *old(env),
                *final(env),
                result.0,
                model::batch_distribute_step(
                    host::instance(*old(env)),
                    host::running(*old(env)),
                    host::strkey(caller),
                    host::payment_list(payments),
                    result.1@,
                    result.2@,
                ),
            ),
    {
        proof {
            model::lemma_names();
        }
        let ghost unasked = BalanceReply::Failed;
        host::require_auth(env, &caller);
        let admin = host::storage_get(env, model::ADMIN_KEY);
        if let Err(error) = rules::check_admin(&admin, &caller) {
            return (Err(error), Ghost(unasked), Ghost(0));
        }
        let total = match rules::total_of(&payments) {
            Err(error) => {
                return (Err(error), Ghost(unasked), Ghost(0));
            },
            Ok(total) => total,
        };
        let usdc = match host::storage_get(env, model::USDC_KEY) {
            None => {
                return (Err(PoolError::NotInitialized), Ghost(unasked), Ghost(0));
            },
            Some(usdc) => usdc,
        };
        let me = host::current_contract(env);
        if let Err(error) = rules::check_token(&usdc) {
            return (Err(error), Ghost(unasked), Ghost(0));
        }
        let holdings = host::token_balance(env, &usdc, &me);
        if let Err(error) = rules::check_funds(holdings, total) {
            return (Err(error), Ghost(holdings), Ghost(0));
        }
        let (outcome, Ghost(willing)) = Self::pay_out(env, &usdc, &me, &payments);
        (outcome, Ghost(holdings), Ghost(willing))
    }

    /// Makes the payments of a batch, one after the other, until one cannot be made; hands
    /// back with the outcome how many transfers the token contract was ready to carry out.
    fn pay_out(env: &mut Env, usdc: &Address, me: &Address, payments: &Vec<(Address, i128)>) -> (result: (
        Result<(), PoolError>,
        Ghost<nat>,
    ))
        requires
            host::is_running(*old(env)),
            host::is_contract_key(host::strkey(*usdc)),
            model::batch_total(
                host::payment_list(*payments),
                host::payment_list(*payments).len(),
            ) is Ok,
        ensures
            ({
                let (outcome, calls) = model::payout(
                    host::payment_list(*payments),
                    host::strkey(*me),
                    host::strkey(*usdc),
                    result.1@,
                );
                &&& result.0 == outcome
                &&& host::journal(*final(env)) =~= host::journal(*old(env)) + calls
                &&& host::instance(*final(env)) == host::instance(*old(env))
                &&& host::call_stack(*final(env)) == host::call_stack(*old(env))
            }),
    {
        proof {
            model::lemma_names();
        }
        let ghost before = *env;
        let ghost list = host::payment_list(*payments);
        let ghost token = host::strkey(*usdc);
        let ghost pool = host::strkey(*me);
        let count = host::payments_len(payments);
        let mut index: u32 = 0;
        while index < count
            invariant
                index <= count,
                count == list.len(),
                before == *old(env),
                list == host::payment_list(*payments),
                token == host::strkey(*usdc),
                pool == host::strkey(*me),
                host::is_contract_key(token),
                host::is_symbol(model::BATCH_DISTRIBUTE_EVENT@),
                model::batch_total(list, list.len()) is Ok,
                host::is_running(*env),
                host::call_stack(*env) == host::call_stack(before),
                host::instance(*env) == host::instance(before),
                host::journal(*env) =~= host::journal(before) + model::paid(
                    list,
                    pool,
                    token,
                    index as nat,
                ),
                model::clear_of(list, pool, index as nat) == index,
            decreases count - index,
        {
            proof {
                model::lemma_counted_entries(list, list.len(), index as int);
            }
            if let Some((to, amount)) = host::payment_at(payments, index) {
                if let Err(error) = Self::validate_recipient(&to, me) {
                    proof {
                        model::lemma_clear_stops(list, pool, index as nat, list.len());
                    }
                    return (Err(error), Ghost(list.len()));
                }
                if !host::token_transfer(env, usdc, me, &to, amount) {
                    return (Err(PoolError::TokenFailed), Ghost(index as nat));
                }
                host::publish_amount(env, model::BATCH_DISTRIBUTE_EVENT, &to, amount);
            }
            index = index + 1;
        }
        (Ok(()), Ghost(list.len()))
    }

    /// Returns this contract's USDC balance (for testing and dashboards).
    pub fn balance(env: &mut Env) -> (balance: Result<i128, PoolError>)
        requires
            host::is_running(*old(env)),
        ensures
            exists|holdings: BalanceReply|
                {
                    let (outcome, calls) = #[trigger] model::balance_step(
                        host::instance(*old(env)),
                        host::running(*old(env)),
                        holdings,
                    );
                    &&& balance == outcome
                    &&& host::journal(*final(env)) =~= host::journal(*old(env)) + calls
                    &&& host::instance(*final(env)) == host::instance(*old(env))
                    &&& host::call_stack(*final(env)) == host::call_stack(*old(env))
                },
            balance matches Ok(amount) ==> host::journal(*final(env)) =~= host::journal(
                *old(env),
            ).push(
                HostCall::Balance {
                    token: host::instance(*old(env))["usdc"@]->0,
                    holder: host::running(*old(env)),
                    reply: BalanceReply::Amount(amount),
                },
            ),
            balance == Err::<i128, PoolError>(PoolError::NotInitialized) <==> !promises::keeps_any(
                host::instance(*old(env)),
                "usdc"@,
            ),
            balance == Err::<i128, PoolError>(PoolError::TokenFailed) ==> {
                let last = host::journal(*final(env)).last();
                &&& host::journal(*final(env)).len() == host::journal(*old(env)).len() + 1
                &&& last is Balance
                &&& !(last->Balance_reply is Amount)
            },
    {
        proof {
            model::lemma_names();
        }
        let ghost storage = host::instance(*env);
        let ghost pool = host::running(*env);
        let usdc = match host::storage_get(env, model::USDC_KEY) {
            None => {
                assert(model::balance_step(storage, pool, BalanceReply::Failed).1 =~= Seq::empty());
                return Err(PoolError::NotInitialized);
            },
            Some(usdc) => usdc,
        };
        if let Err(error) = rules::check_token(&usdc) {
            assert(model::balance_step(storage, pool, BalanceReply::Failed).1 =~= Seq::empty());
            return Err(error);
        }
        let me = host::current_contract(env);
        let holdings = host::token_balance(env, &usdc, &me);
        assert(model::balance_step(storage, pool, holdings).1.len() == 1);
        rules::read_balance(holdings)
    }
}

} // verus!
