//! What holds of the pool as a whole, whatever is asked of it and whatever the token
//! contract answers.
//!
//! The laws speak of the steps that the contract's functions are proved to follow.
use vstd::prelude::*;

use crate::errors::PoolError;
use crate::host::{BalanceReply, EventData, HostCall};
#[allow(unused_imports)]
use crate::host;
use crate::model::{Key, Payments, Replies, Step, Storage};
#[allow(unused_imports)]
use crate::model;

verus! {

/// A call of one of the functions that can change the pool, or act for it, together with
/// what the token contract answers in the course of it.
pub enum Request {
    Init { admin: Key, token: Key },
    SetAdmin { caller: Key, new_admin: Key },
    ClaimAdmin { caller: Key },
    ReceivePayment { caller: Key, amount: i128, from_vault: bool },
    Distribute { caller: Key, to: Key, amount: i128, replies: Replies },
    BatchDistribute { caller: Key, payments: Payments, holdings: BalanceReply, willing: nat },
}

/// What comes of a request to the pool at `me`.
pub open spec fn apply(storage: Storage, me: Key, request: Request) -> Step {
    match request {
        Request::Init { admin, token } => model::init_step(storage, me, admin, token),
        Request::SetAdmin { caller, new_admin } => model::set_admin_step(
            storage,
            caller,
            new_admin,
        ),
        Request::ClaimAdmin { caller } => model::claim_admin_step(storage, caller),
        Request::ReceivePayment { caller, amount, from_vault } => model::receive_payment_step(
            storage,
            caller,
            amount,
            from_vault,
        ),
        Request::Distribute { caller, to, amount, replies } => model::distribute_step(
            storage,
            me,
            caller,
            to,
            amount,
            replies,
        ),
        Request::BatchDistribute { caller, payments, holdings, willing } =>
            model::batch_distribute_step(storage, me, caller, payments, holdings, willing),
    }
}

/// The storage after a sequence of requests.
pub open spec fn run(storage: Storage, me: Key, requests: Seq<Request>) -> Storage
    decreases requests.len(),
{
    if requests.len() == 0 {
        storage
    } else {
        apply(run(storage, me, requests.drop_last()), me, requests.last()).storage
    }
}

/// What stands of a step once its invocation is over: a refused call is aborted, and the
/// host undoes it all.
pub open spec fn standing(step: Step) -> Seq<HostCall> {
    if step.outcome is Ok {
        step.calls
    } else {
        Seq::empty()
    }
}

/// The calls that stand after a sequence of requests, in order.
pub open spec fn history(storage: Storage, me: Key, requests: Seq<Request>) -> Seq<HostCall>
    decreases requests.len(),
{
    if requests.len() == 0 {
        Seq::empty()
    } else {
        let before = requests.drop_last();
        history(storage, me, before) + standing(
            apply(run(storage, me, before), me, requests.last()),
        )
    }
}

/// Whether every one of a sequence of requests succeeds.
pub open spec fn all_accepted(storage: Storage, me: Key, requests: Seq<Request>) -> bool
    decreases requests.len(),
{
    if requests.len() == 0 {
        true
    } else {
        let before = requests.drop_last();
        &&& all_accepted(storage, me, before)
        &&& apply(run(storage, me, before), me, requests.last()).outcome is Ok
    }
}

/// The caller of the last claim in a sequence of requests that succeeded.
pub open spec fn last_claimant(storage: Storage, me: Key, requests: Seq<Request>) -> Option<Key>
    decreases requests.len(),
{
    if requests.len() == 0 {
        None
    } else {
        let before = requests.drop_last();
        let last = requests.last();
        if last is ClaimAdmin && apply(run(storage, me, before), me, last).outcome is Ok {
            Some(caller_of(last))
        } else {
            last_claimant(storage, me, before)
        }
    }
}

/// Who makes a request.
pub open spec fn caller_of(request: Request) -> Key {
    match request {
        Request::Init { admin, .. } => admin,
        Request::SetAdmin { caller, .. } => caller,
        Request::ClaimAdmin { caller } => caller,
        Request::ReceivePayment { caller, .. } => caller,
        Request::Distribute { caller, .. } => caller,
        Request::BatchDistribute { caller, .. } => caller,
    }
}

/// What a call moves out of the pool.
pub open spec fn moved_by(call: HostCall) -> int {
    match call {
        HostCall::Transfer { amount, done, .. } => if done {
            amount as int
        } else {
            0
        },
        _ => 0,
    }
}

/// What a sequence of calls moves out of the pool.
pub open spec fn moved(calls: Seq<HostCall>) -> int
    decreases calls.len(),
{
    if calls.len() == 0 {
        0
    } else {
        moved(calls.drop_last()) + moved_by(calls.last())
    }
}

/// How many events a sequence of calls publishes.
pub open spec fn published(calls: Seq<HostCall>) -> nat
    decreases calls.len(),
{
    if calls.len() == 0 {
        0
    } else {
        published(calls.drop_last()) + if calls.last() is Publish {
            1nat
        } else {
            0nat
        }
    }
}

/// The sum of the amounts of the first `count` entries of a batch.
pub open spec fn sum_due(payments: Payments, count: nat) -> int
    decreases count,
{
    if count == 0 {
        0
    } else {
        sum_due(payments, (count - 1) as nat) + model::due(payments, count - 1)
    }
}

/// Whether the first `count` entries of a batch are payments of positive amounts.
pub open spec fn all_positive(payments: Payments, count: nat) -> bool {
    forall|i: int|
        0 <= i < count ==> (#[trigger] payments[i]) is Some && model::due(payments, i) > 0
}

/// A request that only the admin may make.
pub open spec fn is_reserved(request: Request) -> bool {
    !(request is Init) && !(request is ClaimAdmin)
}

/// What every storage that the pool comes to have is like: the admin and the token are
/// there together, the admin role is only offered once there is an admin, what is kept
/// are addresses, and the token is not the pool itself.
pub open spec fn well_formed(storage: Storage, me: Key) -> bool {
    &&& storage.contains_key(model::ADMIN_KEY@) <==> storage.contains_key(model::USDC_KEY@)
    &&& storage.contains_key(model::PENDING_ADMIN_KEY@) ==> storage.contains_key(model::ADMIN_KEY@)
    &&& storage.contains_key(model::ADMIN_KEY@) ==> model::admin_of(storage) is Some
    &&& storage.contains_key(model::PENDING_ADMIN_KEY@) ==> model::pending_of(storage) is Some
    &&& storage.contains_key(model::USDC_KEY@) ==> model::token_of(storage) is Some
        && model::token_of(storage) != Some(me)
}

/// No request touches an entry of the storage other than the admin, the pending admin and
/// the token.
pub proof fn law_other_entries_are_untouched(
    storage: Storage,
    me: Key,
    request: Request,
    key: Seq<char>,
)
    requires
        key != model::ADMIN_KEY@,
        key != model::PENDING_ADMIN_KEY@,
        key != model::USDC_KEY@,
    ensures
        apply(storage, me, request).storage.contains_key(key) == storage.contains_key(key),
        apply(storage, me, request).storage[key] == storage[key],
{
}

/// The first thing that any request does is to ask for its caller's authorization, and it
/// asks for no other.
pub proof fn law_authorization_comes_first(storage: Storage, me: Key, request: Request)
    ensures
        apply(storage, me, request).calls.len() > 0,
        apply(storage, me, request).calls[0] == (HostCall::Authorize { who: caller_of(request) }),
        forall|i: int|
            0 < i < apply(storage, me, request).calls.len() ==> !(#[trigger] apply(
                storage,
                me,
                request,
            ).calls[i] is Authorize),
{
    if let Request::BatchDistribute { payments, willing, .. } = request {
        lemma_payout_calls(payments, me, model::token_of(storage)->0, willing);
    }
}

/// Starting from an empty storage, whatever is asked of the pool, its storage is well
/// formed.
pub proof fn law_storage_is_well_formed(me: Key, requests: Seq<Request>)
    ensures
        well_formed(run(Map::empty(), me, requests), me),
    decreases requests.len(),
{
    model::lemma_names();
    if requests.len() > 0 {
        law_storage_is_well_formed(me, requests.drop_last());
        law_well_formed_is_kept(run(Map::empty(), me, requests.drop_last()), me, requests.last());
    }
}

/// Every request keeps the storage well formed.
pub proof fn law_well_formed_is_kept(storage: Storage, me: Key, request: Request)
    requires
        well_formed(storage, me),
    ensures
        well_formed(apply(storage, me, request).storage, me),
{
    model::lemma_names();
}

/// What `init` sets is what is read back: the admin and the token, and no transfer of the
/// admin role is started.
pub proof fn law_init_is_read_back(storage: Storage, me: Key, admin: Key, token: Key)
    requires
        model::init_step(storage, me, admin, token).outcome is Ok,
    ensures
        ({
            let after = model::init_step(storage, me, admin, token).storage;
            &&& model::get_admin_outcome(after) == Ok::<Key, PoolError>(admin)
            &&& model::token_of(after) == Some(token)
            &&& model::pending_of(after) == model::pending_of(storage)
        }),
{
    model::lemma_names();
}

/// A pool is initialized once: after a successful `init` and any requests that follow, a
/// further `init` is refused, whoever makes it.
pub proof fn law_initialized_once(
    storage: Storage,
    me: Key,
    admin: Key,
    token: Key,
    requests: Seq<Request>,
    other_admin: Key,
    other_token: Key,
)
    requires
        model::init_step(storage, me, admin, token).outcome is Ok,
    ensures
        ({
            let later = run(model::init_step(storage, me, admin, token).storage, me, requests);
            let again = model::init_step(later, me, other_admin, other_token);
            &&& again.outcome is Err
            &&& other_token != me && other_token != other_admin ==> again.outcome == Err::<
                (),
                PoolError,
            >(PoolError::AlreadyInitialized)
        }),
{
    model::lemma_names();
    lemma_set_up_for_good(model::init_step(storage, me, admin, token).storage, me, requests);
}

/// The token is set for good: after a successful `init`, no requests change it.
pub proof fn law_token_is_permanent(
    storage: Storage,
    me: Key,
    admin: Key,
    token: Key,
    requests: Seq<Request>,
)
    requires
        model::init_step(storage, me, admin, token).outcome is Ok,
    ensures
        model::token_of(run(model::init_step(storage, me, admin, token).storage, me, requests))
            == Some(token),
{
    model::lemma_names();
    lemma_set_up_for_good(model::init_step(storage, me, admin, token).storage, me, requests);
}

/// Once there is an admin, another takes over only by claiming the role that was offered
/// to them.
pub proof fn law_admin_changes_by_claim_only(storage: Storage, me: Key, request: Request)
    requires
        model::admin_of(storage) is Some,
        model::admin_of(apply(storage, me, request).storage) != model::admin_of(storage),
    ensures
        request is ClaimAdmin,
        model::pending_of(storage) == Some(caller_of(request)),
        model::admin_of(apply(storage, me, request).storage) == Some(caller_of(request)),
{
    model::lemma_names();
}

/// The admin role is only ever offered by the admin, and an offer goes away only when it
/// is claimed or replaced by another.
pub proof fn law_offers_are_made_by_the_admin(storage: Storage, me: Key, request: Request)
    requires
        model::pending_of(apply(storage, me, request).storage) != model::pending_of(storage),
    ensures
        request is SetAdmin || request is ClaimAdmin,
        request is SetAdmin ==> model::admin_of(storage) == Some(caller_of(request)),
        request is ClaimAdmin ==> model::pending_of(storage) == Some(caller_of(request)),
{
    model::lemma_names();
}

/// The admin role changes hands in two steps. The admin offers it and stays the admin;
/// no one but the one it was offered to can claim it; once claimed, it is theirs and the
/// offer is gone.
pub proof fn law_two_step_transfer(storage: Storage, admin: Key, new_admin: Key, other: Key)
    requires
        model::admin_of(storage) == Some(admin),
    ensures
        ({
            let offered = model::set_admin_step(storage, admin, new_admin);
            let claimed = model::claim_admin_step(offered.storage, new_admin);
            &&& offered.outcome is Ok
            &&& model::get_admin_outcome(offered.storage) == Ok::<Key, PoolError>(admin)
            &&& other != new_admin ==> model::claim_admin_step(offered.storage, other).outcome
                == Err::<(), PoolError>(PoolError::NotPendingAdmin)
            &&& claimed.outcome is Ok
            &&& model::get_admin_outcome(claimed.storage) == Ok::<Key, PoolError>(new_admin)
            &&& model::claim_admin_step(claimed.storage, other).outcome == Err::<(), PoolError>(
                PoolError::NoPendingAdmin,
            )
        }),
{
    model::lemma_names();
}

/// Anyone but the admin is turned away: a reserved request of someone else is refused, and
/// all it does is to ask for that caller's authorization.
pub proof fn law_only_the_admin(storage: Storage, me: Key, request: Request)
    requires
        is_reserved(request),
        model::admin_of(storage) != Some(caller_of(request)),
    ensures
        apply(storage, me, request).outcome == Err::<(), PoolError>(
            if model::admin_of(storage) is Some {
                PoolError::Unauthorized
            } else {
                PoolError::NotInitialized
            },
        ),
        apply(storage, me, request).calls == seq![
            HostCall::Authorize { who: caller_of(request) },
        ],
        apply(storage, me, request).storage == storage,
{
}

/// Once there is an admin, whatever is asked of the pool, the admin is the caller of the
/// last claim that succeeded, or the same as before if none did.
pub proof fn law_admin_is_the_last_claimant(storage: Storage, me: Key, requests: Seq<Request>)
    requires
        model::admin_of(storage) is Some,
    ensures
        model::admin_of(run(storage, me, requests)) == match last_claimant(storage, me, requests) {
            Some(claimant) => Some(claimant),
            None => model::admin_of(storage),
        },
    decreases requests.len(),
{
    model::lemma_names();
    if requests.len() > 0 {
        law_admin_is_the_last_claimant(storage, me, requests.drop_last());
    }
}

/// Once the role has been claimed, the former admin is turned away, and so is anyone else
/// but the new one: not only in the next request, but in every later one until another
/// claim succeeds.
pub proof fn law_former_admin_is_turned_away(
    storage: Storage,
    me: Key,
    new_admin: Key,
    later: Seq<Request>,
    request: Request,
)
    requires
        model::claim_admin_step(storage, new_admin).outcome is Ok,
        last_claimant(model::claim_admin_step(storage, new_admin).storage, me, later) is None,
        is_reserved(request),
        caller_of(request) != new_admin,
    ensures
        ({
            let claimed = model::claim_admin_step(storage, new_admin).storage;
            let step = apply(run(claimed, me, later), me, request);
            &&& step.outcome == Err::<(), PoolError>(PoolError::Unauthorized)
            &&& step.calls == seq![HostCall::Authorize { who: caller_of(request) }]
            &&& step.storage == run(claimed, me, later)
        }),
{
    model::lemma_names();
    let claimed = model::claim_admin_step(storage, new_admin).storage;
    law_admin_is_the_last_claimant(claimed, me, later);
    law_only_the_admin(run(claimed, me, later), me, request);
}

/// Whatever a request transfers, it is the admin who asked for it; it is the pool's token,
/// from the pool, to someone else, and a positive amount.
pub proof fn law_transfers_are_payments(storage: Storage, me: Key, request: Request, index: int)
    requires
        0 <= index < apply(storage, me, request).calls.len(),
        apply(storage, me, request).calls[index] is Transfer,
    ensures
        request is Distribute || request is BatchDistribute,
        model::admin_of(storage) == Some(caller_of(request)),
        ({
            let call = apply(storage, me, request).calls[index];
            &&& Some(call->Transfer_token) == model::token_of(storage)
            &&& call->Transfer_from == me
            &&& call->Transfer_to != me
            &&& call->Transfer_amount > 0
        }),
{
    if let Request::BatchDistribute { payments, willing, caller, holdings } = request {
        let token = model::token_of(storage)->0;
        lemma_payout_calls(payments, me, token, willing);
        if model::batch_check(storage, caller, payments) is Ok {
            lemma_payout_transfers(payments, me, token, willing, index - 2);
        }
    }
}

/// When a `distribute` succeeds: the admin asks for it, for a positive amount, to someone
/// that the token contract knows and that is not the pool; the token is a contract, it
/// reports at least the amount for the pool, and it carries out the transfer.
pub proof fn law_distribute_succeeds_when(
    storage: Storage,
    me: Key,
    caller: Key,
    to: Key,
    amount: i128,
    replies: Replies,
)
    ensures
        model::distribute_step(storage, me, caller, to, amount, replies).outcome is Ok <==> {
            &&& model::admin_of(storage) == Some(caller)
            &&& amount > 0
            &&& to != me
            &&& model::token_of(storage) matches Some(token) && host::is_contract_key(token)
            &&& replies.recipient != BalanceReply::Failed
            &&& replies.holdings matches BalanceReply::Amount(balance) && amount <= balance
            &&& replies.sent
        },
{
}

/// When a `batch_distribute` succeeds: the admin asks for it, every entry is a payment of a
/// positive amount to someone other than the pool, and their sum fits; the token is a
/// contract, it reports at least the sum for the pool, and it carries out every transfer.
pub proof fn law_batch_succeeds_when(
    storage: Storage,
    me: Key,
    caller: Key,
    payments: Payments,
    holdings: BalanceReply,
    willing: nat,
)
    ensures
        model::batch_distribute_step(
            storage,
            me,
            caller,
            payments,
            holdings,
            willing,
        ).outcome is Ok <==> {
            let total = sum_due(payments, payments.len());
            &&& model::admin_of(storage) == Some(caller)
            &&& all_positive(payments, payments.len())
            &&& forall|i: int|
                0 <= i < payments.len() ==> #[trigger] model::payee(payments, i) != me
            &&& total <= i128::MAX
            &&& model::token_of(storage) matches Some(token) && host::is_contract_key(token)
            &&& holdings matches BalanceReply::Amount(balance) && total <= balance
            &&& payments.len() <= willing
        },
{
    law_batch_total_is_the_sum(payments, payments.len());
    lemma_payable(payments, me, willing);
    if payments.len() <= willing && forall|i: int|
        0 <= i < payments.len() ==> #[trigger] model::payee(payments, i) != me {
        lemma_all_clear(payments, me, payments.len());
    }
}

/// `distribute` pays out the amount or nothing, and never more than what the token
/// contract reports for the pool.
pub proof fn law_distribute_pays_the_amount_or_nothing(
    storage: Storage,
    me: Key,
    caller: Key,
    to: Key,
    amount: i128,
    replies: Replies,
)
    ensures
        ({
            let step = model::distribute_step(storage, me, caller, to, amount, replies);
            &&& step.outcome is Ok ==> {
                &&& moved(step.calls) == amount
                &&& replies.holdings matches BalanceReply::Amount(balance) && amount <= balance
            }
            &&& step.outcome is Err ==> moved(step.calls) == 0
        }),
{
    reveal_with_fuel(moved, 2);
    let asked = seq![HostCall::Authorize { who: caller }];
    let token = model::token_of(storage)->0;
    let looked_up = HostCall::Balance { token, holder: to, reply: replies.recipient };
    let counted = HostCall::Balance { token, holder: me, reply: replies.holdings };
    let sent = HostCall::Transfer { token, from: me, to, amount, done: replies.sent };
    assert(asked.drop_last() =~= Seq::empty());
    lemma_moved_push(asked, looked_up);
    lemma_moved_push(asked.push(looked_up), counted);
    lemma_moved_push(asked.push(looked_up).push(counted), sent);
    lemma_moved_push(
        asked.push(looked_up).push(counted).push(sent),
        HostCall::Publish {
            name: model::DISTRIBUTE_EVENT@,
            subject: to,
            data: EventData::Amount(amount),
        },
    );
}

/// A batch can be counted exactly when every entry is a payment of a positive amount and
/// their sum fits; the total is the sum.
pub proof fn law_batch_total_is_the_sum(payments: Payments, count: nat)
    requires
        count <= payments.len(),
    ensures
        model::batch_total(payments, count) is Ok <==> {
            &&& all_positive(payments, count)
            &&& sum_due(payments, count) <= i128::MAX
        },
        model::batch_total(payments, count) matches Ok(total) ==> total == sum_due(payments, count),
    decreases count,
{
    if count > 0 {
        let shorter = (count - 1) as nat;
        law_batch_total_is_the_sum(payments, shorter);
        if model::batch_total(payments, count) is Ok {
            assert forall|i: int| 0 <= i < count implies (#[trigger] payments[i]) is Some
                && model::due(payments, i) > 0 by {
                model::lemma_counted_entries(payments, count, i);
            }
        } else if all_positive(payments, count) {
            assert(all_positive(payments, shorter));
            assert(payments[count - 1] is Some);
            assert(sum_due(payments, count) > i128::MAX);
        }
    }
}

/// Of a batch, all is paid when the call succeeds; and however it ends, no more is paid
/// than the total, and none unless the token contract reports at least the total for the
/// pool.
pub proof fn law_batch_pays_at_most_the_total(
    storage: Storage,
    me: Key,
    caller: Key,
    payments: Payments,
    holdings: BalanceReply,
    willing: nat,
)
    ensures
        ({
            let step = model::batch_distribute_step(
                storage,
                me,
                caller,
                payments,
                holdings,
                willing,
            );
            let total = sum_due(payments, payments.len());
            &&& step.outcome is Ok ==> moved(step.calls) == total
            &&& moved(step.calls) == 0 || 0 < moved(step.calls) <= total
            &&& moved(step.calls) != 0 ==> {
                holdings matches BalanceReply::Amount(balance) && total <= balance
            }
        }),
{
    let asked = seq![HostCall::Authorize { who: caller }];
    let token = model::token_of(storage)->0;
    let counted = HostCall::Balance { token, holder: me, reply: holdings };
    assert(asked.drop_last() =~= Seq::empty());
    reveal_with_fuel(moved, 2);
    lemma_moved_push(asked, counted);
    if model::batch_check(storage, caller, payments) is Ok {
        law_batch_total_is_the_sum(payments, payments.len());
        lemma_payout_moves(payments, me, token, willing);
        lemma_moved_concat(
            asked.push(counted),
            model::payout(payments, me, token, willing).1,
        );
    }
}

/// A batch that succeeds makes its payments in order, each a transfer of the amount to the
/// recipient that is followed by an event for it, and makes no others.
pub proof fn law_batch_pays_each_entry(
    storage: Storage,
    me: Key,
    caller: Key,
    payments: Payments,
    holdings: BalanceReply,
    willing: nat,
    index: int,
)
    requires
        model::batch_distribute_step(
            storage,
            me,
            caller,
            payments,
            holdings,
            willing,
        ).outcome is Ok,
        0 <= index < payments.len(),
    ensures
        ({
            let calls = model::batch_distribute_step(
                storage,
                me,
                caller,
                payments,
                holdings,
                willing,
            ).calls;
            let (to, amount) = payments[index]->0;
            &&& calls.len() == 2 + 2 * payments.len()
            &&& calls[2 + 2 * index] == (HostCall::Transfer {
                token: model::token_of(storage)->0,
                from: me,
                to,
                amount,
                done: true,
            })
            &&& calls[3 + 2 * index] == (HostCall::Publish {
                name: model::BATCH_DISTRIBUTE_EVENT@,
                subject: to,
                data: EventData::Amount(amount),
            })
        }),
{
    let token = model::token_of(storage)->0;
    model::lemma_counted_entries(payments, payments.len(), index);
    lemma_paid_entry(payments, me, token, payments.len(), index);
}

/// A batch is atomic: what stands of it moves the whole total, with as many events as there
/// are payments, or it moves nothing and publishes nothing. The storage stays as it was.
pub proof fn law_batch_is_atomic(
    storage: Storage,
    me: Key,
    caller: Key,
    payments: Payments,
    holdings: BalanceReply,
    willing: nat,
)
    ensures
        ({
            let step = model::batch_distribute_step(
                storage,
                me,
                caller,
                payments,
                holdings,
                willing,
            );
            let stands = standing(step);
            &&& step.storage == storage
            &&& step.outcome is Ok ==> {
                &&& moved(stands) == sum_due(payments, payments.len())
                &&& published(stands) == payments.len()
            }
            &&& step.outcome is Err ==> {
                &&& stands == Seq::<HostCall>::empty()
                &&& moved(stands) == 0
                &&& published(stands) == 0
            }
        }),
{
    law_batch_pays_at_most_the_total(storage, me, caller, payments, holdings, willing);
    let asked = seq![HostCall::Authorize { who: caller }];
    let token = model::token_of(storage)->0;
    let counted = HostCall::Balance { token, holder: me, reply: holdings };
    assert(asked.drop_last() =~= Seq::empty());
    assert(asked.push(counted).drop_last() =~= asked);
    reveal_with_fuel(published, 3);
    lemma_paid_published(payments, me, token, payments.len());
    lemma_published_concat(
        asked.push(counted),
        model::paid(payments, me, token, payments.len()),
    );
}

/// Of a request that is refused, nothing stands.
pub proof fn law_nothing_stands_of_a_refusal(storage: Storage, me: Key, request: Request)
    ensures
        apply(storage, me, request).outcome is Err ==> {
            &&& apply(storage, me, request).storage == storage
            &&& standing(apply(storage, me, request)) == Seq::<HostCall>::empty()
        },
{
}

/// `receive_payment` is an event and nothing else: it asks nothing of the token contract,
/// and the storage stays as it is.
pub proof fn law_receive_payment_only_records(
    storage: Storage,
    caller: Key,
    amount: i128,
    from_vault: bool,
)
    ensures
        ({
            let step = model::receive_payment_step(storage, caller, amount, from_vault);
            &&& step.storage == storage
            &&& moved(step.calls) == 0
            &&& forall|i: int|
                0 <= i < step.calls.len() ==> (#[trigger] step.calls[i] is Authorize
                    || step.calls[i] is Publish)
        }),
{
    reveal_with_fuel(moved, 2);
    let asked = seq![HostCall::Authorize { who: caller }];
    assert(asked.drop_last() =~= Seq::empty());
    lemma_moved_push(
        asked,
        HostCall::Publish {
            name: model::RECEIVE_PAYMENT_EVENT@,
            subject: caller,
            data: EventData::Payment(amount, from_vault),
        },
    );
}

/// Only `distribute` and `batch_distribute` move tokens.
pub proof fn law_other_requests_move_nothing(storage: Storage, me: Key, request: Request)
    requires
        !(request is Distribute),
        !(request is BatchDistribute),
    ensures
        moved(apply(storage, me, request).calls) == 0,
{
    let calls = apply(storage, me, request).calls;
    reveal_with_fuel(moved, 3);
    assert(calls.len() <= 2);
    if calls.len() == 2 {
        assert(calls.drop_last().drop_last() =~= Seq::empty());
    } else {
        assert(calls.drop_last() =~= Seq::empty());
    }
}

/// Tokens that others send to the pool do no harm: a `distribute` that succeeds would also
/// succeed were the pool's balance larger.
pub proof fn law_distribute_with_more_funds(
    storage: Storage,
    me: Key,
    caller: Key,
    to: Key,
    amount: i128,
    replies: Replies,
    more: i128,
)
    requires
        model::distribute_step(storage, me, caller, to, amount, replies).outcome is Ok,
        model::reported(replies.holdings) matches Ok(balance) && balance <= more,
    ensures
        model::distribute_step(
            storage,
            me,
            caller,
            to,
            amount,
            Replies { holdings: BalanceReply::Amount(more), ..replies },
        ).outcome is Ok,
{
}

/// Tokens that others send to the pool do no harm: a `batch_distribute` that succeeds would
/// also succeed were the pool's balance larger.
pub proof fn law_batch_with_more_funds(
    storage: Storage,
    me: Key,
    caller: Key,
    payments: Payments,
    holdings: BalanceReply,
    willing: nat,
    more: i128,
)
    requires
        model::batch_distribute_step(
            storage,
            me,
            caller,
            payments,
            holdings,
            willing,
        ).outcome is Ok,
        model::reported(holdings) matches Ok(balance) && balance <= more,
    ensures
        model::batch_distribute_step(
            storage,
            me,
            caller,
            payments,
            BalanceReply::Amount(more),
            willing,
        ).outcome is Ok,
{
}

/// An admin, once there is one, and the token stay in the storage.
proof fn lemma_set_up_for_good(storage: Storage, me: Key, requests: Seq<Request>)
    requires
        storage.contains_key(model::ADMIN_KEY@),
    ensures
        run(storage, me, requests).contains_key(model::ADMIN_KEY@),
        model::token_of(run(storage, me, requests)) == model::token_of(storage),
    decreases requests.len(),
{
    model::lemma_names();
    if requests.len() > 0 {
        lemma_set_up_for_good(storage, me, requests.drop_last());
    }
}

proof fn lemma_moved_push(calls: Seq<HostCall>, call: HostCall)
    ensures
        moved(calls.push(call)) == moved(calls) + moved_by(call),
{
    assert(calls.push(call).drop_last() =~= calls);
}

proof fn lemma_moved_concat(first: Seq<HostCall>, second: Seq<HostCall>)
    ensures
        moved(first + second) == moved(first) + moved(second),
    decreases second.len(),
{
    if second.len() == 0 {
        assert(first + second =~= first);
    } else {
        lemma_moved_concat(first, second.drop_last());
        assert((first + second).drop_last() =~= first + second.drop_last());
    }
}

proof fn lemma_published_concat(first: Seq<HostCall>, second: Seq<HostCall>)
    ensures
        published(first + second) == published(first) + published(second),
    decreases second.len(),
{
    if second.len() == 0 {
        assert(first + second =~= first);
    } else {
        lemma_published_concat(first, second.drop_last());
        assert((first + second).drop_last() =~= first + second.drop_last());
    }
}

proof fn lemma_paid_published(payments: Payments, me: Key, token: Key, count: nat)
    ensures
        published(model::paid(payments, me, token, count)) == count,
    decreases count,
{
    if count > 0 {
        let shorter = model::paid(payments, me, token, (count - 1) as nat);
        let (to, amount) = (
            model::payee(payments, count - 1),
            model::due(payments, count - 1),
        );
        let transfer = HostCall::Transfer { token, from: me, to, amount, done: true };
        let event = HostCall::Publish {
            name: model::BATCH_DISTRIBUTE_EVENT@,
            subject: to,
            data: EventData::Amount(amount),
        };
        lemma_paid_published(payments, me, token, (count - 1) as nat);
        assert(shorter.push(transfer).drop_last() =~= shorter);
        assert(published(shorter.push(transfer)) == count - 1);
        assert(shorter.push(transfer).push(event).drop_last() =~= shorter.push(transfer));
    }
}

/// Where the payments of a batch stand among the calls that make them.
pub proof fn lemma_paid_entry(payments: Payments, me: Key, token: Key, count: nat, index: int)
    requires
        0 <= index < count,
    ensures
        model::paid(payments, me, token, count).len() == 2 * count,
        model::paid(payments, me, token, count)[2 * index] == (HostCall::Transfer {
            token,
            from: me,
            to: model::payee(payments, index),
            amount: model::due(payments, index),
            done: true,
        }),
        model::paid(payments, me, token, count)[2 * index + 1] == (HostCall::Publish {
            name: model::BATCH_DISTRIBUTE_EVENT@,
            subject: model::payee(payments, index),
            data: EventData::Amount(model::due(payments, index)),
        }),
    decreases count,
{
    if index < count - 1 {
        lemma_paid_entry(payments, me, token, (count - 1) as nat, index);
    } else if count > 1 {
        lemma_paid_entry(payments, me, token, (count - 1) as nat, index - 1);
    }
}

/// How many calls make the payments of a batch.
pub proof fn lemma_paid_len(payments: Payments, me: Key, token: Key, count: nat)
    ensures
        model::paid(payments, me, token, count).len() == 2 * count,
    decreases count,
{
    if count > 0 {
        lemma_paid_len(payments, me, token, (count - 1) as nat);
    }
}

/// The payments that come before the first one to the pool itself are not to the pool.
proof fn lemma_clear(payments: Payments, me: Key, count: nat)
    ensures
        model::clear_of(payments, me, count) <= count,
        forall|i: int|
            0 <= i < model::clear_of(payments, me, count) ==> #[trigger] model::payee(payments, i)
                != me,
    decreases count,
{
    if count > 0 {
        lemma_clear(payments, me, (count - 1) as nat);
    }
}

/// The payments that are made are among those of the batch, no more than the token
/// contract carries out, and none of them is to the pool.
pub proof fn lemma_payable(payments: Payments, me: Key, willing: nat)
    ensures
        model::payable(payments, me, willing) <= payments.len(),
        model::payable(payments, me, willing) <= willing,
        forall|i: int|
            0 <= i < model::payable(payments, me, willing) ==> #[trigger] model::payee(payments, i)
                != me,
{
    lemma_clear(payments, me, willing);
    lemma_clear(payments, me, payments.len());
}

/// Where no payment is to the pool itself, all of them come before the first such one.
proof fn lemma_all_clear(payments: Payments, me: Key, count: nat)
    requires
        forall|i: int| 0 <= i < count ==> #[trigger] model::payee(payments, i) != me,
    ensures
        model::clear_of(payments, me, count) == count,
    decreases count,
{
    if count > 0 {
        lemma_all_clear(payments, me, (count - 1) as nat);
        assert(model::payee(payments, count - 1) != me);
    }
}

/// Paying out a batch is transfers and events only.
proof fn lemma_payout_calls(payments: Payments, me: Key, token: Key, willing: nat)
    ensures
        forall|i: int|
            0 <= i < model::payout(payments, me, token, willing).1.len() ==> {
                let call = #[trigger] model::payout(payments, me, token, willing).1[i];
                call is Transfer || call is Publish
            },
{
    let count = model::payable(payments, me, willing);
    let calls = model::payout(payments, me, token, willing).1;
    lemma_paid_len(payments, me, token, count);
    assert forall|i: int| 0 <= i < calls.len() implies (#[trigger] calls[i] is Transfer
        || calls[i] is Publish) by {
        if i < 2 * count {
            lemma_paid_entry(payments, me, token, count, i / 2);
        }
    }
}

/// The transfers of a batch are positive and to others.
proof fn lemma_payout_transfers(payments: Payments, me: Key, token: Key, willing: nat, index: int)
    requires
        model::batch_total(payments, payments.len()) is Ok,
        0 <= index < model::payout(payments, me, token, willing).1.len(),
        model::payout(payments, me, token, willing).1[index] is Transfer,
    ensures
        ({
            let call = model::payout(payments, me, token, willing).1[index];
            &&& call->Transfer_token == token
            &&& call->Transfer_from == me
            &&& call->Transfer_to != me
            &&& call->Transfer_amount > 0
        }),
{
    let count = model::payable(payments, me, willing);
    lemma_payable(payments, me, willing);
    lemma_paid_len(payments, me, token, count);
    if index < 2 * count {
        lemma_paid_entry(payments, me, token, count, index / 2);
        model::lemma_counted_entries(payments, payments.len(), index / 2);
        assert(model::payee(payments, index / 2) != me);
    } else {
        model::lemma_counted_entries(payments, payments.len(), count as int);
    }
}

/// What paying out a batch moves.
proof fn lemma_payout_moves(payments: Payments, me: Key, token: Key, willing: nat)
    requires
        model::batch_total(payments, payments.len()) is Ok,
    ensures
        ({
            let (outcome, calls) = model::payout(payments, me, token, willing);
            let total = sum_due(payments, payments.len());
            &&& outcome is Ok ==> moved(calls) == total
            &&& 0 <= moved(calls) <= total
        }),
{
    let count = model::payable(payments, me, willing);
    let made = model::paid(payments, me, token, count);
    lemma_payable(payments, me, willing);
    lemma_paid_moves(payments, me, token, count);
    lemma_sum_grows(payments, count, payments.len());
    if count < payments.len() {
        lemma_moved_push(
            made,
            HostCall::Transfer {
                token,
                from: me,
                to: model::payee(payments, count as int),
                amount: model::due(payments, count as int),
                done: false,
            },
        );
    }
}

proof fn lemma_paid_moves(payments: Payments, me: Key, token: Key, count: nat)
    ensures
        moved(model::paid(payments, me, token, count)) == sum_due(payments, count),
    decreases count,
{
    if count > 0 {
        let shorter = model::paid(payments, me, token, (count - 1) as nat);
        let (to, amount) = (
            model::payee(payments, count - 1),
            model::due(payments, count - 1),
        );
        let transfer = HostCall::Transfer { token, from: me, to, amount, done: true };
        lemma_paid_moves(payments, me, token, (count - 1) as nat);
        lemma_moved_push(shorter, transfer);
        lemma_moved_push(
            shorter.push(transfer),
            HostCall::Publish {
                name: model::BATCH_DISTRIBUTE_EVENT@,
                subject: to,
                data: EventData::Amount(amount),
            },
        );
    }
}

proof fn lemma_sum_grows(payments: Payments, count: nat, longer: nat)
    requires
        count <= longer,
        model::batch_total(payments, longer) is Ok,
    ensures
        0 <= sum_due(payments, count) <= sum_due(payments, longer),
    decreases longer,
{
    if longer > 0 {
        model::lemma_counted_entries(payments, longer, longer - 1);
        if count < longer {
            lemma_sum_grows(payments, count, (longer - 1) as nat);
        } else {
            lemma_sum_grows(payments, (count - 1) as nat, (longer - 1) as nat);
        }
    }
}

} // verus!
