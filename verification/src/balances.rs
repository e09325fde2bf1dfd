//! What the pool's payments do to the balance of each address.
//!
//! The laws speak of the transfers that the token contract reports as carried out, and
//! that stand once their invocation is over.
use vstd::prelude::*;

use crate::host::{BalanceReply, EventData, HostCall};
#[allow(unused_imports)]
use crate::host;
use crate::laws::Request;
#[allow(unused_imports)]
use crate::laws;
use crate::model::{Key, Payments, Replies, Storage};
#[allow(unused_imports)]
use crate::model;

verus! {

/// By how much a call changes the balance that `who` has of `token`.
pub open spec fn change_by(call: HostCall, token: Key, who: Key) -> int {
    match call {
        HostCall::Transfer { token: moved, from, to, amount, done } => if done && moved == token {
            (if to == who {
                amount as int
            } else {
                0
            }) - (if from == who {
                amount as int
            } else {
                0
            })
        } else {
            0
        },
        _ => 0,
    }
}

/// By how much a sequence of calls changes the balance that `who` has of `token`.
pub open spec fn change(calls: Seq<HostCall>, token: Key, who: Key) -> int
    decreases calls.len(),
{
    if calls.len() == 0 {
        0
    } else {
        change(calls.drop_last(), token, who) + change_by(calls.last(), token, who)
    }
}

/// The sum of those of the first `count` entries of a batch that name `who` as their
/// recipient.
pub open spec fn due_to(payments: Payments, who: Key, count: nat) -> int
    decreases count,
{
    if count == 0 {
        0
    } else {
        due_to(payments, who, (count - 1) as nat) + if model::payee(payments, count - 1) == who {
            model::due(payments, count - 1) as int
        } else {
            0
        }
    }
}

/// The calls of `distribute` that make the first `count` payments of a batch one by one;
/// `replies` is what the token contract answers in the course of each.
pub open spec fn singles(
    caller: Key,
    payments: Payments,
    replies: Seq<Replies>,
    count: nat,
) -> Seq<Request>
    decreases count,
{
    if count == 0 {
        Seq::empty()
    } else {
        singles(caller, payments, replies, (count - 1) as nat).push(
            Request::Distribute {
                caller,
                to: model::payee(payments, count - 1),
                amount: model::due(payments, count - 1),
                replies: replies[count - 1],
            },
        )
    }
}

/// Whether what the token contract answers in the course of a `distribute` lets an amount
/// be paid: it knows the recipient, reports enough for the pool and carries out the
/// transfer.
pub open spec fn served(amount: i128, replies: Replies) -> bool {
    &&& replies.recipient != BalanceReply::Failed
    &&& replies.holdings matches BalanceReply::Amount(balance) && amount <= balance
    &&& replies.sent
}

/// What an entry of a batch, once paid by the pool at `me`, does to the balance of `who`.
spec fn effect_of(entry: Option<(Key, i128)>, me: Key, who: Key) -> int {
    match entry {
        Some((to, amount)) => (if to == who {
            amount as int
        } else {
            0
        }) - (if me == who {
            amount as int
        } else {
            0
        }),
        None => 0,
    }
}

/// What the first `count` entries of a batch, once paid by the pool at `me`, do to the
/// balance of `who`.
spec fn effect(payments: Payments, me: Key, who: Key, count: nat) -> int
    decreases count,
{
    if count == 0 {
        0
    } else {
        effect(payments, me, who, (count - 1) as nat) + effect_of(payments[count - 1], me, who)
    }
}

/// `distribute` takes the amount from the pool and gives it to the recipient, in the pool's
/// token; no other balance changes.
pub proof fn law_distribute_pays_the_recipient(
    storage: Storage,
    me: Key,
    caller: Key,
    to: Key,
    amount: i128,
    replies: Replies,
    token: Key,
    who: Key,
)
    requires
        model::distribute_step(storage, me, caller, to, amount, replies).outcome is Ok,
    ensures
        change(
            model::distribute_step(storage, me, caller, to, amount, replies).calls,
            token,
            who,
        ) == if model::token_of(storage) != Some(token) {
            0
        } else if who == to {
            amount as int
        } else if who == me {
            -amount
        } else {
            0
        },
{
    let asked = seq![HostCall::Authorize { who: caller }];
    let usdc = model::token_of(storage)->0;
    let looked_up = HostCall::Balance { token: usdc, holder: to, reply: replies.recipient };
    let counted = HostCall::Balance { token: usdc, holder: me, reply: replies.holdings };
    let sent = HostCall::Transfer { token: usdc, from: me, to, amount, done: replies.sent };
    let event = HostCall::Publish {
        name: model::DISTRIBUTE_EVENT@,
        subject: to,
        data: EventData::Amount(amount),
    };
    reveal_with_fuel(change, 2);
    assert(asked.drop_last() =~= Seq::empty());
    lemma_change_push(asked, looked_up, token, who);
    lemma_change_push(asked.push(looked_up), counted, token, who);
    lemma_change_push(asked.push(looked_up).push(counted), sent, token, who);
    lemma_change_push(asked.push(looked_up).push(counted).push(sent), event, token, who);
}

/// A batch gives each recipient the sum of its entries and takes the total from the pool,
/// in the pool's token; no other balance changes.
pub proof fn law_batch_pays_each_recipient(
    storage: Storage,
    me: Key,
    caller: Key,
    payments: Payments,
    holdings: BalanceReply,
    willing: nat,
    token: Key,
    who: Key,
)
    requires
        model::batch_distribute_step(
            storage,
            me,
            caller,
            payments,
            holdings,
            willing,
        ).outcome is Ok,
    ensures
        change(
            model::batch_distribute_step(storage, me, caller, payments, holdings, willing).calls,
            token,
            who,
        ) == if model::token_of(storage) != Some(token) {
            0
        } else if who == me {
            -laws::sum_due(payments, payments.len())
        } else {
            due_to(payments, who, payments.len())
        },
{
    lemma_batch_effect(storage, me, caller, payments, holdings, willing, token, who);
    laws::lemma_payable(payments, me, willing);
    lemma_effect_is_due(payments, me, who, payments.len());
}

/// A batch comes to the same as its payments made one by one with `distribute`, in any
/// order: where both succeed, the balance of every address changes by the same, and the
/// same storage is left.
pub proof fn law_batch_equals_its_payments_one_by_one(
    storage: Storage,
    me: Key,
    caller: Key,
    payments: Payments,
    holdings: BalanceReply,
    willing: nat,
    order: Payments,
    replies: Seq<Replies>,
)
    requires
        model::batch_distribute_step(
            storage,
            me,
            caller,
            payments,
            holdings,
            willing,
        ).outcome is Ok,
        order.to_multiset() == payments.to_multiset(),
        laws::all_accepted(storage, me, singles(caller, order, replies, order.len())),
    ensures
        ({
            let step = model::batch_distribute_step(
                storage,
                me,
                caller,
                payments,
                holdings,
                willing,
            );
            let requests = singles(caller, order, replies, order.len());
            &&& laws::run(storage, me, requests) == step.storage
            &&& forall|token: Key, who: Key|
                change(laws::history(storage, me, requests), token, who) == #[trigger] change(
                    laws::standing(step),
                    token,
                    who,
                )
        }),
{
    let step = model::batch_distribute_step(storage, me, caller, payments, holdings, willing);
    let requests = singles(caller, order, replies, order.len());
    assert forall|token: Key, who: Key|
        change(laws::history(storage, me, requests), token, who) == #[trigger] change(
            laws::standing(step),
            token,
            who,
        ) by {
        lemma_batch_effect(storage, me, caller, payments, holdings, willing, token, who);
        lemma_singles_effect(storage, me, caller, order, replies, order.len(), token, who);
        lemma_effect_permuted(payments, order, me, who);
    }
    lemma_singles_effect(storage, me, caller, order, replies, order.len(), me, me);
}

/// The payments of a batch that succeeds can also be made one by one, in any order: it is
/// then up to the token contract alone whether they all succeed.
pub proof fn law_batch_can_be_paid_one_by_one(
    storage: Storage,
    me: Key,
    caller: Key,
    payments: Payments,
    holdings: BalanceReply,
    willing: nat,
    order: Payments,
    replies: Seq<Replies>,
)
    requires
        model::batch_distribute_step(
            storage,
            me,
            caller,
            payments,
            holdings,
            willing,
        ).outcome is Ok,
        order.to_multiset() == payments.to_multiset(),
    ensures
        laws::all_accepted(storage, me, singles(caller, order, replies, order.len())) <==> (
        forall|i: int|
            0 <= i < order.len() ==> served(#[trigger] model::due(order, i), replies[i])),
{
    lemma_same_entries(storage, me, caller, payments, holdings, willing, order);
    lemma_singles_accepted(storage, me, caller, order, replies, order.len());
}

/// The order of the entries of a batch does not matter. Where one batch succeeds, another
/// of the same entries would have succeeded on the same answers; and where it succeeds, on
/// these or others, it changes the balance of every address by the same and leaves the
/// same storage.
pub proof fn law_batch_order_does_not_matter(
    storage: Storage,
    me: Key,
    caller: Key,
    payments: Payments,
    holdings: BalanceReply,
    willing: nat,
    order: Payments,
    other_holdings: BalanceReply,
    other_willing: nat,
)
    requires
        model::batch_distribute_step(
            storage,
            me,
            caller,
            payments,
            holdings,
            willing,
        ).outcome is Ok,
        order.to_multiset() == payments.to_multiset(),
    ensures
        model::batch_distribute_step(storage, me, caller, order, holdings, willing).outcome is Ok,
        ({
            let one = model::batch_distribute_step(
                storage,
                me,
                caller,
                payments,
                holdings,
                willing,
            );
            let other = model::batch_distribute_step(
                storage,
                me,
                caller,
                order,
                other_holdings,
                other_willing,
            );
            other.outcome is Ok ==> {
                &&& other.storage == one.storage
                &&& forall|token: Key, who: Key|
                    #[trigger] change(other.calls, token, who) == change(one.calls, token, who)
            }
        }),
{
    let one = model::batch_distribute_step(storage, me, caller, payments, holdings, willing);
    let other = model::batch_distribute_step(
        storage,
        me,
        caller,
        order,
        other_holdings,
        other_willing,
    );
    lemma_same_entries(storage, me, caller, payments, holdings, willing, order);
    laws::law_batch_succeeds_when(storage, me, caller, payments, holdings, willing);
    laws::law_batch_succeeds_when(storage, me, caller, order, holdings, willing);
    lemma_effect_is_due(payments, me, me, payments.len());
    lemma_effect_is_due(order, me, me, order.len());
    lemma_effect_permuted(payments, order, me, me);
    if other.outcome is Ok {
        assert forall|token: Key, who: Key|
            #[trigger] change(other.calls, token, who) == change(one.calls, token, who) by {
            lemma_batch_effect(storage, me, caller, payments, holdings, willing, token, who);
            lemma_batch_effect(
                storage,
                me,
                caller,
                order,
                other_holdings,
                other_willing,
                token,
                who,
            );
            lemma_effect_permuted(payments, order, me, who);
        }
    }
}

proof fn lemma_change_push(calls: Seq<HostCall>, call: HostCall, token: Key, who: Key)
    ensures
        change(calls.push(call), token, who) == change(calls, token, who) + change_by(
            call,
            token,
            who,
        ),
{
    assert(calls.push(call).drop_last() =~= calls);
}

proof fn lemma_change_concat(first: Seq<HostCall>, second: Seq<HostCall>, token: Key, who: Key)
    ensures
        change(first + second, token, who) == change(first, token, who) + change(
            second,
            token,
            who,
        ),
    decreases second.len(),
{
    if second.len() == 0 {
        assert(first + second =~= first);
    } else {
        lemma_change_concat(first, second.drop_last(), token, who);
        assert((first + second).drop_last() =~= first + second.drop_last());
    }
}

/// What the payments of a batch do to balances.
proof fn lemma_paid_effect(
    payments: Payments,
    me: Key,
    usdc: Key,
    count: nat,
    token: Key,
    who: Key,
)
    requires
        forall|i: int| 0 <= i < count ==> (#[trigger] payments[i]) is Some,
    ensures
        change(model::paid(payments, me, usdc, count), token, who) == if usdc == token {
            effect(payments, me, who, count)
        } else {
            0
        },
    decreases count,
{
    if count > 0 {
        let shorter = model::paid(payments, me, usdc, (count - 1) as nat);
        let (to, amount) = (
            model::payee(payments, count - 1),
            model::due(payments, count - 1),
        );
        let transfer = HostCall::Transfer { token: usdc, from: me, to, amount, done: true };
        let event = HostCall::Publish {
            name: model::BATCH_DISTRIBUTE_EVENT@,
            subject: to,
            data: EventData::Amount(amount),
        };
        lemma_paid_effect(payments, me, usdc, (count - 1) as nat, token, who);
        lemma_change_push(shorter, transfer, token, who);
        lemma_change_push(shorter.push(transfer), event, token, who);
        assert(payments[count - 1] is Some);
    }
}

/// What a batch that succeeds does to balances.
proof fn lemma_batch_effect(
    storage: Storage,
    me: Key,
    caller: Key,
    payments: Payments,
    holdings: BalanceReply,
    willing: nat,
    token: Key,
    who: Key,
)
    requires
        model::batch_distribute_step(
            storage,
            me,
            caller,
            payments,
            holdings,
            willing,
        ).outcome is Ok,
    ensures
        change(
            model::batch_distribute_step(storage, me, caller, payments, holdings, willing).calls,
            token,
            who,
        ) == if model::token_of(storage) == Some(token) {
            effect(payments, me, who, payments.len())
        } else {
            0
        },
{
    let usdc = model::token_of(storage)->0;
    let asked = seq![HostCall::Authorize { who: caller }];
    let counted = HostCall::Balance { token: usdc, holder: me, reply: holdings };
    assert forall|i: int| 0 <= i < payments.len() implies (#[trigger] payments[i]) is Some by {
        model::lemma_counted_entries(payments, payments.len(), i);
    }
    reveal_with_fuel(change, 2);
    assert(asked.drop_last() =~= Seq::empty());
    lemma_change_push(asked, counted, token, who);
    lemma_paid_effect(payments, me, usdc, payments.len(), token, who);
    lemma_change_concat(
        asked.push(counted),
        model::paid(payments, me, usdc, payments.len()),
        token,
        who,
    );
}

/// What single payments that all succeed do to balances, and that they leave the storage
/// as it is.
proof fn lemma_singles_effect(
    storage: Storage,
    me: Key,
    caller: Key,
    payments: Payments,
    replies: Seq<Replies>,
    count: nat,
    token: Key,
    who: Key,
)
    requires
        laws::all_accepted(storage, me, singles(caller, payments, replies, count)),
    ensures
        laws::run(storage, me, singles(caller, payments, replies, count)) == storage,
        change(
            laws::history(storage, me, singles(caller, payments, replies, count)),
            token,
            who,
        ) == if model::token_of(storage) == Some(token) {
            effect(payments, me, who, count)
        } else {
            0
        },
    decreases count,
{
    if count > 0 {
        let requests = singles(caller, payments, replies, count);
        let before = singles(caller, payments, replies, (count - 1) as nat);
        let (to, amount) = (
            model::payee(payments, count - 1),
            model::due(payments, count - 1),
        );
        assert(requests.drop_last() =~= before);
        lemma_singles_effect(
            storage,
            me,
            caller,
            payments,
            replies,
            (count - 1) as nat,
            token,
            who,
        );
        law_distribute_pays_the_recipient(
            storage,
            me,
            caller,
            to,
            amount,
            replies[count - 1],
            token,
            who,
        );
        lemma_change_concat(
            laws::history(storage, me, before),
            laws::standing(laws::apply(storage, me, requests.last())),
            token,
            who,
        );
    }
}

/// When single payments that may be made are all accepted.
proof fn lemma_singles_accepted(
    storage: Storage,
    me: Key,
    caller: Key,
    payments: Payments,
    replies: Seq<Replies>,
    count: nat,
)
    requires
        model::admin_of(storage) == Some(caller),
        model::token_of(storage) matches Some(token) && host::is_contract_key(token),
        forall|i: int| 0 <= i < count ==> #[trigger] model::due(payments, i) > 0,
        forall|i: int| 0 <= i < count ==> #[trigger] model::payee(payments, i) != me,
    ensures
        laws::all_accepted(storage, me, singles(caller, payments, replies, count)) <==> (forall|
            i: int,
        |
            0 <= i < count ==> served(#[trigger] model::due(payments, i), replies[i])),
    decreases count,
{
    if count > 0 {
        let shorter = (count - 1) as nat;
        let requests = singles(caller, payments, replies, count);
        let before = singles(caller, payments, replies, shorter);
        let (to, amount) = (
            model::payee(payments, count - 1),
            model::due(payments, count - 1),
        );
        assert(requests.drop_last() =~= before);
        lemma_singles_accepted(storage, me, caller, payments, replies, shorter);
        laws::law_distribute_succeeds_when(storage, me, caller, to, amount, replies[count - 1]);
        if laws::all_accepted(storage, me, before) {
            lemma_singles_effect(storage, me, caller, payments, replies, shorter, me, me);
        }
    }
}

/// The entries of a batch that succeeds are positive payments to others, in any order.
proof fn lemma_same_entries(
    storage: Storage,
    me: Key,
    caller: Key,
    payments: Payments,
    holdings: BalanceReply,
    willing: nat,
    order: Payments,
)
    requires
        model::batch_distribute_step(
            storage,
            me,
            caller,
            payments,
            holdings,
            willing,
        ).outcome is Ok,
        order.to_multiset() == payments.to_multiset(),
    ensures
        order.len() == payments.len(),
        laws::all_positive(order, order.len()),
        forall|i: int| 0 <= i < order.len() ==> #[trigger] model::due(order, i) > 0,
        forall|i: int| 0 <= i < order.len() ==> #[trigger] model::payee(order, i) != me,
{
    order.to_multiset_ensures();
    payments.to_multiset_ensures();
    laws::law_batch_succeeds_when(storage, me, caller, payments, holdings, willing);
    assert forall|i: int| 0 <= i < order.len() implies (#[trigger] order[i]) is Some && model::due(
        order,
        i,
    ) > 0 && model::payee(order, i) != me by {
        assert(order.contains(order[i]));
        assert(payments.to_multiset().count(order[i]) > 0);
        let same = choose|j: int| 0 <= j < payments.len() && payments[j] == order[i];
        assert(model::due(payments, same) > 0 && model::payee(payments, same) != me);
    }
    assert forall|i: int| 0 <= i < order.len() implies #[trigger] model::due(order, i) > 0 by {
        assert(order[i] is Some);
    }
    assert forall|i: int| 0 <= i < order.len() implies #[trigger] model::payee(order, i) != me by {
        assert(order[i] is Some);
    }
}

/// For anyone but the pool, the effect of payments is what is due to them; for the pool,
/// the sum is taken off.
proof fn lemma_effect_is_due(payments: Payments, me: Key, who: Key, count: nat)
    requires
        forall|i: int| 0 <= i < count ==> #[trigger] model::payee(payments, i) != me,
    ensures
        effect(payments, me, who, count) == if who == me {
            -laws::sum_due(payments, count)
        } else {
            due_to(payments, who, count)
        },
    decreases count,
{
    if count > 0 {
        lemma_effect_is_due(payments, me, who, (count - 1) as nat);
        assert(model::payee(payments, count - 1) != me);
    }
}

/// The effect of the first entries depends on no others.
proof fn lemma_effect_same(one: Payments, other: Payments, me: Key, who: Key, count: nat)
    requires
        forall|i: int| 0 <= i < count ==> (#[trigger] one[i]) == other[i],
    ensures
        effect(one, me, who, count) == effect(other, me, who, count),
    decreases count,
{
    if count > 0 {
        lemma_effect_same(one, other, me, who, (count - 1) as nat);
        assert(one[count - 1] == other[count - 1]);
    }
}

/// Taking an entry out of a batch takes off its effect.
proof fn lemma_effect_remove(payments: Payments, me: Key, who: Key, index: int, count: nat)
    requires
        0 <= index < count <= payments.len(),
    ensures
        effect(payments, me, who, count) == effect(
            payments.remove(index),
            me,
            who,
            (count - 1) as nat,
        ) + effect_of(payments[index], me, who),
    decreases count,
{
    let shorter = (count - 1) as nat;
    if index == count - 1 {
        lemma_effect_same(payments, payments.remove(index), me, who, shorter);
    } else {
        lemma_effect_remove(payments, me, who, index, shorter);
    }
}

/// The effect of a batch does not depend on the order of its entries.
proof fn lemma_effect_permuted(payments: Payments, order: Payments, me: Key, who: Key)
    requires
        order.to_multiset() == payments.to_multiset(),
    ensures
        order.len() == payments.len(),
        effect(order, me, who, order.len()) == effect(payments, me, who, payments.len()),
    decreases payments.len(),
{
    order.to_multiset_ensures();
    payments.to_multiset_ensures();
    if payments.len() > 0 {
        let last = payments.len() - 1;
        let entry = payments[last];
        assert(payments.contains(entry));
        assert(payments.to_multiset().count(entry) > 0);
        assert(order.to_multiset().count(entry) > 0);
        let index = choose|i: int| 0 <= i < order.len() && order[i] == entry;
        lemma_effect_remove(payments, me, who, last, payments.len());
        lemma_effect_remove(order, me, who, index, order.len());
        assert(order.remove(index).to_multiset() == payments.remove(last).to_multiset());
        lemma_effect_permuted(payments.remove(last), order.remove(index), me, who);
    }
}

} // verus!
